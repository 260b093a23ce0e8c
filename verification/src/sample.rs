//! The sample ring buffer: a fixed-capacity sliding window over the
//! most recent stereo samples, with point-in-time snapshots and
//! root-mean-square loudness.

use vstd::prelude::*;
use vstd::arithmetic::div_mod::{lemma_div_by_multiple, lemma_div_is_ordered, lemma_div_pos_is_pos};
use vstd::arithmetic::mul::{
    lemma_mul_is_commutative, lemma_mul_is_distributive_add, lemma_mul_nonnegative,
};

verus! {

use crate::Error;
use crate::types::{Sample, SignalStrength, SIGNAL_ONE};
use crate::fixed::{is_sqrt, isqrt, lemma_sqrt_unique, sqrt_floor};

/// The largest square of a sample: `i32::MIN * i32::MIN`.
pub const SAMPLE_SQ_MAX: u64 = 4_611_686_018_427_387_904;

/// The buffer contents after sliding `incoming` in: the oldest samples
/// fall out, the newest `incoming` come last, and the length is kept.
pub open spec fn slide(buf: Seq<(Sample, Sample)>, incoming: Seq<(Sample, Sample)>) -> Seq<
    (Sample, Sample),
> {
    (buf + incoming).skip(incoming.len() as int)
}

/// Channel-interleaved samples grouped into stereo pairs; a trailing
/// unpaired sample is dropped.
pub open spec fn pairs_of(flat: Seq<Sample>) -> Seq<(Sample, Sample)> {
    Seq::new((flat.len() / 2) as nat, |k: int| (flat[2 * k], flat[2 * k + 1]))
}

/// The square of a sample value.
pub open spec fn square(x: int) -> int {
    x * x
}

/// The summed squares of the left channel.
pub open spec fn sum_sq_left(s: Seq<(Sample, Sample)>) -> int
    decreases s.len(),
{
    if s.len() == 0 {
        0
    } else {
        sum_sq_left(s.drop_last()) + square(s.last().0 as int)
    }
}

/// The summed squares of the right channel.
pub open spec fn sum_sq_right(s: Seq<(Sample, Sample)>) -> int
    decreases s.len(),
{
    if s.len() == 0 {
        0
    } else {
        sum_sq_right(s.drop_last()) + square(s.last().1 as int)
    }
}

/// The mean square over both channels (in Q32.32): the per-channel mean
/// squares, averaged.
pub open spec fn mean_sq_spec(s: Seq<(Sample, Sample)>) -> int {
    if s.len() == 0 {
        0
    } else {
        (sum_sq_left(s) / s.len() as int + sum_sq_right(s) / s.len() as int) / 2
    }
}

/// Root-mean-square loudness (in Q32.32): the square root of the mean
/// square, rescaled to the signal-strength scale.
pub open spec fn rms_spec(s: Seq<(Sample, Sample)>) -> int {
    sqrt_floor(mean_sq_spec(s) * (SIGNAL_ONE as int))
}

/// Sums of squares are non-negative and at most the count times the
/// largest square.
proof fn lemma_sum_sq_bounds(s: Seq<(Sample, Sample)>)
    ensures
        0 <= sum_sq_left(s) <= s.len() * (SAMPLE_SQ_MAX as int),
        0 <= sum_sq_right(s) <= s.len() * (SAMPLE_SQ_MAX as int),
    decreases s.len(),
{
    if s.len() == 0 {
    } else {
        lemma_sum_sq_bounds(s.drop_last());
        assert(0 <= square(s.last().0 as int) <= SAMPLE_SQ_MAX) by (nonlinear_arith)
            requires
                i32::MIN <= s.last().0 <= i32::MAX,
        ;
        assert(0 <= square(s.last().1 as int) <= SAMPLE_SQ_MAX) by (nonlinear_arith)
            requires
                i32::MIN <= s.last().1 <= i32::MAX,
        ;
        let n: int = s.len() as int;
        lemma_mul_is_distributive_add(SAMPLE_SQ_MAX as int, n - 1, 1);
        lemma_mul_is_commutative(SAMPLE_SQ_MAX as int, n - 1);
        lemma_mul_is_commutative(SAMPLE_SQ_MAX as int, n);
    }
}

/// The mean square is non-negative and no larger than the largest
/// square.
proof fn lemma_mean_sq_bounds(s: Seq<(Sample, Sample)>)
    ensures
        0 <= mean_sq_spec(s) <= SAMPLE_SQ_MAX,
{
    if s.len() > 0 {
        let n: int = s.len() as int;
        lemma_sum_sq_bounds(s);
        lemma_div_pos_is_pos(sum_sq_left(s), n);
        lemma_div_pos_is_pos(sum_sq_right(s), n);
        lemma_div_is_ordered(sum_sq_left(s), n * (SAMPLE_SQ_MAX as int), n);
        lemma_div_is_ordered(sum_sq_right(s), n * (SAMPLE_SQ_MAX as int), n);
        lemma_mul_is_commutative(n, SAMPLE_SQ_MAX as int);
        lemma_div_by_multiple(SAMPLE_SQ_MAX as int, n);
    }
}

proof fn lemma_sum_sq_zero(s: Seq<(Sample, Sample)>)
    requires
        forall|i: int| 0 <= i < s.len() ==> (#[trigger] s[i]) == (0i32, 0i32),
    ensures
        sum_sq_left(s) == 0,
        sum_sq_right(s) == 0,
    decreases s.len(),
{
    if s.len() > 0 {
        assert(forall|i: int|
            0 <= i < s.drop_last().len() ==> (#[trigger] s.drop_last()[i]) == (0i32, 0i32));
        lemma_sum_sq_zero(s.drop_last());
        assert(s[s.len() - 1] == (0i32, 0i32));
        assert(square(0) == 0);
    }
}

/// The loudness of silence: the root mean square of an all-zero buffer
/// of any length is exactly zero.
pub proof fn lemma_rms_all_zero(s: Seq<(Sample, Sample)>)
    requires
        forall|i: int| 0 <= i < s.len() ==> (#[trigger] s[i]) == (0i32, 0i32),
    ensures
        rms_spec(s) == 0,
{
    lemma_sum_sq_zero(s);
    if s.len() > 0 {
        lemma_div_pos_is_pos(0, s.len() as int);
        assert(sum_sq_left(s) / s.len() as int == 0) by {
            vstd::arithmetic::div_mod::lemma_small_div_converse(0, s.len() as int);
        }
    }
    assert(is_sqrt(0, 0)) by (nonlinear_arith);
    lemma_sqrt_unique(0, 0);
}

proof fn lemma_sum_sq_full(s: Seq<(Sample, Sample)>)
    requires
        forall|i: int|
            0 <= i < s.len() ==> ((#[trigger] s[i]).0 == crate::types::SAMPLE_ONE || s[i].0 == -crate::types::SAMPLE_ONE)
                && (s[i].1 == crate::types::SAMPLE_ONE || s[i].1 == -crate::types::SAMPLE_ONE),
    ensures
        sum_sq_left(s) == s.len() * (SIGNAL_ONE as int),
        sum_sq_right(s) == s.len() * (SIGNAL_ONE as int),
    decreases s.len(),
{
    if s.len() > 0 {
        assert(forall|i: int|
            0 <= i < s.drop_last().len() ==> ((#[trigger] s.drop_last()[i]).0
                == crate::types::SAMPLE_ONE || s.drop_last()[i].0 == -crate::types::SAMPLE_ONE) && (
            s.drop_last()[i].1 == crate::types::SAMPLE_ONE || s.drop_last()[i].1
                == -crate::types::SAMPLE_ONE));
        lemma_sum_sq_full(s.drop_last());
        assert(square(s.last().0 as int) == SIGNAL_ONE) by (nonlinear_arith)
            requires
                s.last().0 == crate::types::SAMPLE_ONE || s.last().0 == -crate::types::SAMPLE_ONE,
        ;
        assert(square(s.last().1 as int) == SIGNAL_ONE) by (nonlinear_arith)
            requires
                s.last().1 == crate::types::SAMPLE_ONE || s.last().1 == -crate::types::SAMPLE_ONE,
        ;
        let n = s.len() as int;
        lemma_mul_is_distributive_add(SIGNAL_ONE as int, n - 1, 1);
        lemma_mul_is_commutative(SIGNAL_ONE as int, n - 1);
        lemma_mul_is_commutative(SIGNAL_ONE as int, n);
    }
}

/// The loudness of a full-scale signal: the root mean square of a
/// buffer holding only samples of amplitude plus or minus one is
/// exactly one.
pub proof fn lemma_rms_full_scale(s: Seq<(Sample, Sample)>)
    requires
        s.len() > 0,
        forall|i: int|
            0 <= i < s.len() ==> ((#[trigger] s[i]).0 == crate::types::SAMPLE_ONE || s[i].0 == -crate::types::SAMPLE_ONE)
                && (s[i].1 == crate::types::SAMPLE_ONE || s[i].1 == -crate::types::SAMPLE_ONE),
    ensures
        rms_spec(s) == SIGNAL_ONE,
{
    lemma_sum_sq_full(s);
    let n = s.len() as int;
    lemma_mul_is_commutative(n, SIGNAL_ONE as int);
    lemma_div_by_multiple(SIGNAL_ONE as int, n);
    assert(mean_sq_spec(s) == SIGNAL_ONE);
    assert(is_sqrt(SIGNAL_ONE as int, (SIGNAL_ONE as int) * (SIGNAL_ONE as int)))
        by (nonlinear_arith);
    lemma_sqrt_unique(SIGNAL_ONE as int, (SIGNAL_ONE as int) * (SIGNAL_ONE as int));
}

/// Pushing exactly as many samples as the buffer holds replaces its
/// entire contents: no trace of the prior contents remains.
pub proof fn lemma_push_replaces(buf: Seq<(Sample, Sample)>, incoming: Seq<(Sample, Sample)>)
    requires
        incoming.len() == buf.len(),
    ensures
        slide(buf, incoming) == incoming,
{
    assert(slide(buf, incoming) =~= incoming);
}

/// Pushing fewer samples than the buffer holds keeps the most recent of
/// the old samples untouched, in order, at the front; the pushed
/// samples follow them.
pub proof fn lemma_push_partial(buf: Seq<(Sample, Sample)>, incoming: Seq<(Sample, Sample)>)
    requires
        incoming.len() <= buf.len(),
    ensures
        slide(buf, incoming).take(buf.len() - incoming.len()) == buf.skip(incoming.len() as int),
        slide(buf, incoming).skip(buf.len() - incoming.len()) == incoming,
{
    assert(slide(buf, incoming).take(buf.len() - incoming.len()) =~= buf.skip(
        incoming.len() as int,
    ));
    assert(slide(buf, incoming).skip(buf.len() - incoming.len()) =~= incoming);
}

/// A fixed-capacity buffer of stereo samples: pushing slides the window
/// so that the most recent `capacity` samples are kept, oldest first.
#[derive(Clone)]
pub struct SampleBuffer {
    samples: Vec<(Sample, Sample)>,
}

impl View for SampleBuffer {
    type V = Seq<(Sample, Sample)>;

    closed spec fn view(&self) -> Seq<(Sample, Sample)> {
        self.samples@
    }
}

impl SampleBuffer {
    /// Creates a buffer of `len` silent (zero) sample pairs.
    pub fn new(len: usize) -> (out: Self)
        ensures
            out@.len() == len,
            forall|i: int| 0 <= i < len ==> (#[trigger] out@[i]) == (0i32, 0i32),
    {
        let mut samples: Vec<(Sample, Sample)> = Vec::new();
        let mut k: usize = 0;
        while k < len
            invariant
                samples@.len() == k <= len,
                forall|i: int| 0 <= i < k ==> (#[trigger] samples@[i]) == (0i32, 0i32),
            decreases len - k,
        {
            samples.push((0, 0));
            k = k + 1;
        }
        SampleBuffer { samples }
    }

    /// Wraps an existing sequence of stereo pairs as a buffer.
    pub fn from_pairs(v: Vec<(Sample, Sample)>) -> (out: Self)
        ensures
            out@ == v@,
    {
        SampleBuffer { samples: v }
    }

    /// Wraps a mono sequence as a buffer, duplicating each sample into
    /// both channels.
    pub fn from_mono(v: &Vec<Sample>) -> (out: Self)
        ensures
            out@.len() == v@.len(),
            forall|i: int| 0 <= i < v@.len() ==> (#[trigger] out@[i]) == (v@[i], v@[i]),
    {
        let mut samples: Vec<(Sample, Sample)> = Vec::new();
        let mut k: usize = 0;
        while k < v.len()
            invariant
                samples@.len() == k <= v@.len(),
                forall|i: int| 0 <= i < k ==> (#[trigger] samples@[i]) == (v@[i], v@[i]),
            decreases v@.len() - k,
        {
            let s: Sample = v[k];
            samples.push((s, s));
            k = k + 1;
        }
        SampleBuffer { samples }
    }

    /// The capacity of the buffer; constant over its lifetime.
    pub fn len(&self) -> (n: usize)
        ensures
            n == self@.len(),
    {
        self.samples.len()
    }

    /// Pushes stereo samples: for each incoming pair the oldest stored
    /// pair is dropped and the new one appended.  A no-op if the
    /// capacity is zero.
    pub fn push(&mut self, sample_pairs: &Vec<(Sample, Sample)>)
        ensures
            old(self)@.len() == 0 ==> final(self)@ == old(self)@,
            old(self)@.len() > 0 ==> final(self)@ == slide(old(self)@, sample_pairs@),
            final(self)@.len() == old(self)@.len(),
    {
        if self.samples.len() == 0 {
            return;
        }
        let ghost orig = self@;
        let mut t: usize = 0;
        while t < sample_pairs.len()
            invariant
                orig.len() > 0,
                t <= sample_pairs@.len(),
                self@ == slide(orig, sample_pairs@.take(t as int)),
                self@.len() == orig.len(),
            decreases sample_pairs@.len() - t,
        {
            let ghost before = self@;
            self.samples.remove(0);
            self.samples.push(sample_pairs[t]);
            proof {
                assert(self@ =~= slide(orig, sample_pairs@.take(t + 1)));
            }
            t = t + 1;
        }
        proof {
            assert(sample_pairs@.take(sample_pairs@.len() as int) =~= sample_pairs@);
        }
    }

    /// Pushes channel-interleaved samples, consuming them in stereo
    /// pairs.  A no-op if the capacity is zero.
    pub fn push_interleaved(&mut self, samples: &Vec<Sample>)
        ensures
            old(self)@.len() == 0 ==> final(self)@ == old(self)@,
            old(self)@.len() > 0 ==> final(self)@ == slide(old(self)@, pairs_of(samples@)),
            final(self)@.len() == old(self)@.len(),
    {
        if self.samples.len() == 0 {
            return;
        }
        let ghost orig = self@;
        let ghost pairs = pairs_of(samples@);
        let m: usize = samples.len() / 2;
        proof {
            assert(pairs.len() == m);
        }
        let mut t: usize = 0;
        while t < m
            invariant
                orig.len() > 0,
                t <= m,
                m == samples@.len() / 2,
                samples@.len() <= usize::MAX,
                pairs == pairs_of(samples@),
                pairs.len() == m,
                self@ == slide(orig, pairs.take(t as int)),
                self@.len() == orig.len(),
            decreases m - t,
        {
            let left: Sample = samples[2 * t];
            let right: Sample = samples[2 * t + 1];
            self.samples.remove(0);
            self.samples.push((left, right));
            proof {
                assert((left, right) == pairs[t as int]);
                assert(self@ =~= slide(orig, pairs.take(t + 1)));
            }
            t = t + 1;
        }
        proof {
            assert(pairs.take(m as int) =~= pairs);
        }
    }

    /// A point-in-time snapshot over all stored samples, oldest first.
    pub fn iter(&self) -> (it: SampleBufferIter)
        ensures
            it@ == self@,
            it.wf(),
    {
        self.iter_starting_at(0)
    }

    /// A point-in-time snapshot over the most recent `n` samples, or a
    /// "too few samples" error if fewer than `n` are stored.
    pub fn iter_tail(&self, n: usize) -> (result: Result<SampleBufferIter, Error>)
        ensures
            match result {
                Ok(it) => n <= self@.len() && it@ == self@.skip(self@.len() - n as int)
                    && it.wf(),
                Err(e) => self@.len() < n && e == Error::TooFewSamples(n, self@.len() as usize),
            },
    {
        let len: usize = self.samples.len();
        if len < n {
            return Err(Error::TooFewSamples(n, len));
        }
        Ok(self.iter_starting_at(len - n))
    }

    fn iter_starting_at(&self, n: usize) -> (it: SampleBufferIter)
        requires
            n <= self@.len(),
        ensures
            it@ == self@.skip(n as int),
            it.wf(),
    {
        let mut snapshot: Vec<(Sample, Sample)> = Vec::new();
        let len: usize = self.samples.len();
        let mut k: usize = n;
        while k < len
            invariant
                n <= k <= len,
                len == self@.len(),
                snapshot@.len() == k - n,
                forall|i: int| 0 <= i < k - n ==> (#[trigger] snapshot@[i]) == self@[n + i],
            decreases len - k,
        {
            snapshot.push(self.samples[k]);
            k = k + 1;
        }
        proof {
            assert(snapshot@ =~= self@.skip(n as int));
        }
        SampleBufferIter { samples: snapshot, index: 0 }
    }

    /// The mean square over both channels (in Q32.32).
    pub fn mean_sqr(&self) -> (ms: SignalStrength)
        ensures
            ms as int == mean_sq_spec(self@),
            ms <= SAMPLE_SQ_MAX,
    {
        proof {
            assert(self@.skip(0) =~= self@);
        }
        mean_sqr_of(&self.samples, 0)
    }

    /// Root-mean-square loudness over the whole buffer (in Q32.32).
    pub fn root_mean_sqr(&self) -> (rms: SignalStrength)
        ensures
            rms as int == rms_spec(self@),
    {
        proof {
            assert(self@.skip(0) =~= self@);
        }
        rms_of(&self.samples, 0)
    }
}

/// The mean square (in Q32.32) of the samples of `v` from `start` on.
fn mean_sqr_of(v: &Vec<(Sample, Sample)>, start: usize) -> (ms: SignalStrength)
    requires
        start <= v@.len(),
    ensures
        ms as int == mean_sq_spec(v@.skip(start as int)),
        ms <= SAMPLE_SQ_MAX,
{
    let ghost tail = v@.skip(start as int);
    let len: usize = v.len();
    let n: usize = len - start;
    if n == 0 {
        proof {
            lemma_mean_sq_bounds(tail);
        }
        return 0;
    }
    let mut sl: u128 = 0;
    let mut sr: u128 = 0;
    let mut k: usize = start;
    while k < len
        invariant
            start <= k <= len,
            len == v@.len(),
            tail == v@.skip(start as int),
            sl as int == sum_sq_left(v@.subrange(start as int, k as int)),
            sr as int == sum_sq_right(v@.subrange(start as int, k as int)),
            sl as int <= (k - start) * (SAMPLE_SQ_MAX as int),
            sr as int <= (k - start) * (SAMPLE_SQ_MAX as int),
        decreases len - k,
    {
        let ghost seen = v@.subrange(start as int, k as int);
        let pair = v[k];
        proof {
            assert(0 <= square(pair.0 as int) <= SAMPLE_SQ_MAX) by (nonlinear_arith)
                requires
                    i32::MIN <= pair.0 <= i32::MAX,
            ;
            assert(0 <= square(pair.1 as int) <= SAMPLE_SQ_MAX) by (nonlinear_arith)
                requires
                    i32::MIN <= pair.1 <= i32::MAX,
            ;
            lemma_mul_is_distributive_add(SAMPLE_SQ_MAX as int, k - start, 1);
            lemma_mul_is_commutative(SAMPLE_SQ_MAX as int, k - start);
            lemma_mul_is_commutative(SAMPLE_SQ_MAX as int, k - start + 1);
            lemma_mul_nonnegative(k - start, SAMPLE_SQ_MAX as int);
            assert((len as int) * (SAMPLE_SQ_MAX as int) < u128::MAX) by (nonlinear_arith)
                requires
                    0 <= len < 18446744073709551616,
            ;
            lemma_mul_is_commutative(len as int, SAMPLE_SQ_MAX as int);
            vstd::arithmetic::mul::lemma_mul_inequality(
                k - start + 1,
                len as int,
                SAMPLE_SQ_MAX as int,
            );
            lemma_mul_is_commutative(SAMPLE_SQ_MAX as int, len as int);
            let next = v@.subrange(start as int, k + 1);
            assert(next.drop_last() =~= seen);
            assert(next.last() == v@[k as int]);
        }
        let l2: u64 = ((pair.0 as i64) * (pair.0 as i64)) as u64;
        let r2: u64 = ((pair.1 as i64) * (pair.1 as i64)) as u64;
        proof {
            assert((pair.0 as i64) as int == pair.0 as int);
            assert((pair.1 as i64) as int == pair.1 as int);
        }
        sl = sl + (l2 as u128);
        sr = sr + (r2 as u128);
        k = k + 1;
    }
    proof {
        assert(v@.subrange(start as int, len as int) =~= tail);
        lemma_sum_sq_bounds(tail);
        lemma_div_pos_is_pos(sum_sq_left(tail), n as int);
        lemma_div_pos_is_pos(sum_sq_right(tail), n as int);
        lemma_div_is_ordered(sum_sq_left(tail), (n as int) * (SAMPLE_SQ_MAX as int), n as int);
        lemma_div_is_ordered(sum_sq_right(tail), (n as int) * (SAMPLE_SQ_MAX as int), n as int);
        lemma_mul_is_commutative(n as int, SAMPLE_SQ_MAX as int);
        lemma_div_by_multiple(SAMPLE_SQ_MAX as int, n as int);
    }
    let msl: u128 = sl / (n as u128);
    let msr: u128 = sr / (n as u128);
    let ms: u128 = (msl + msr) / 2;
    ms as u64
}

/// Root-mean-square loudness (in Q32.32) of the samples of `v` from
/// `start` on.
fn rms_of(v: &Vec<(Sample, Sample)>, start: usize) -> (rms: SignalStrength)
    requires
        start <= v@.len(),
    ensures
        rms as int == rms_spec(v@.skip(start as int)),
{
    let ms: u64 = mean_sqr_of(v, start);
    proof {
        lemma_mul_nonnegative(ms as int, SIGNAL_ONE as int);
        assert((ms as int) * (SIGNAL_ONE as int) <= (SAMPLE_SQ_MAX as int) * (SIGNAL_ONE as int))
            by (nonlinear_arith)
            requires
                0 <= ms <= SAMPLE_SQ_MAX,
        ;
        assert((SAMPLE_SQ_MAX as int) * (SIGNAL_ONE as int) < u128::MAX) by (nonlinear_arith);
    }
    let scaled: u128 = (ms as u128) * (SIGNAL_ONE as u128);
    isqrt(scaled)
}

/// A point-in-time snapshot of a sample buffer, consumed oldest first.
pub struct SampleBufferIter {
    samples: Vec<(Sample, Sample)>,
    index: usize,
}

impl View for SampleBufferIter {
    type V = Seq<(Sample, Sample)>;

    closed spec fn view(&self) -> Seq<(Sample, Sample)> {
        self.samples@.skip(self.index as int)
    }
}

impl SampleBufferIter {
    /// Snapshots never advance past their end.
    pub closed spec fn wf(&self) -> bool {
        self.index <= self.samples@.len()
    }

    /// The number of samples not yet consumed.
    pub fn len(&self) -> (n: usize)
        requires
            self.wf(),
        ensures
            n == self@.len(),
    {
        self.samples.len() - self.index
    }

    /// The oldest sample not yet consumed, advancing past it; `None`
    /// once all samples are consumed.
    pub fn next(&mut self) -> (out: Option<(Sample, Sample)>)
        requires
            old(self).wf(),
        ensures
            final(self).wf(),
            old(self)@.len() == 0 ==> out == None::<(Sample, Sample)> && final(self)@ == old(
                self,
            )@,
            old(self)@.len() > 0 ==> out == Some(old(self)@[0]) && final(self)@ == old(
                self,
            )@.skip(1),
    {
        if self.index < self.samples.len() {
            let pair = self.samples[self.index];
            self.index = self.index + 1;
            proof {
                assert(old(self)@[0] == pair);
                assert(self@ =~= old(self)@.skip(1));
            }
            Some(pair)
        } else {
            None
        }
    }

    /// Root-mean-square loudness of the remaining samples (in Q32.32):
    /// the square root of the averaged per-channel mean squares.  Zero
    /// if no samples remain.
    pub fn rms(self) -> (out: SignalStrength)
        requires
            self.wf(),
        ensures
            out as int == rms_spec(self@),
    {
        rms_of(&self.samples, self.index)
    }
}

} // verus!
