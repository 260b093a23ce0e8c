//! The band spectrum: a logarithmically spaced partition of a frequency
//! range, with cutoff accessors and band lookup.

use vstd::prelude::*;

verus! {

use crate::Error;
use crate::types::Frequency;
use crate::bands::{
    bands_wf, build_bands, growth_ratio_ok, in_band, locate_in, matches_band_seq, Band,
};

/// A sorted, contiguous sequence of half-open frequency intervals,
/// geometrically spaced between two cutoff frequencies.
#[derive(Clone)]
pub struct Spectrum {
    bands: Vec<Band>,
}

impl View for Spectrum {
    type V = Seq<Band>;

    closed spec fn view(&self) -> Seq<Band> {
        self.bands@
    }
}

impl Spectrum {
    /// The internal ordering invariant every constructed value has.
    pub open spec fn wf(&self) -> bool {
        bands_wf(self@)
    }

    /// Builds a spectrum of `num_bands` geometrically spaced bands
    /// covering `[lower_cutoff, upper_cutoff)`.
    ///
    /// The cutoffs are validated in order; zero bands is legal and
    /// yields an empty partition.
    pub fn new(lower_cutoff: Frequency, upper_cutoff: Frequency, num_bands: usize) -> (result:
        Result<Self, Error>)
        ensures
            upper_cutoff == 0 ==> result == Err::<Spectrum, Error>(Error::UpperCutoff),
            upper_cutoff > 0 && lower_cutoff == 0 ==> result == Err::<Spectrum, Error>(
                Error::LowerCutoff,
            ),
            upper_cutoff > 0 && lower_cutoff > 0 && lower_cutoff >= upper_cutoff ==> result
                == Err::<Spectrum, Error>(Error::CutoffOrder),
            0 < lower_cutoff < upper_cutoff ==> match result {
                Ok(s) => {
                    &&& s.wf()
                    &&& s@.len() == num_bands
                    &&& (num_bands > 0 ==> s@[0].0 == lower_cutoff)
                    &&& (num_bands > 0 ==> (upper_cutoff > s@[num_bands - 1].0
                        ==> s@[num_bands - 1].1 == upper_cutoff))
                    &&& (forall|i: int|
                        0 <= i < num_bands ==> (#[trigger] s@[i]).0 == u64::MAX || s@[i].0
                            < s@[i].1)
                    &&& exists|r: int|
                        #[trigger] growth_ratio_ok(
                            r,
                            lower_cutoff as int,
                            upper_cutoff as int,
                            num_bands as nat,
                        ) && matches_band_seq(
                            s@,
                            lower_cutoff as int,
                            upper_cutoff as int,
                            num_bands as int,
                            r,
                        )
                },
                Err(_) => false,
            },
    {
        if !(upper_cutoff > 0) {
            return Err(Error::UpperCutoff);
        }
        if !(lower_cutoff > 0) {
            return Err(Error::LowerCutoff);
        }
        if !(lower_cutoff < upper_cutoff) {
            return Err(Error::CutoffOrder);
        }
        let bands = build_bands(lower_cutoff, upper_cutoff, num_bands);
        Ok(Spectrum { bands })
    }

    /// The number of bands.
    pub fn len(&self) -> (n: usize)
        ensures
            n == self@.len(),
    {
        self.bands.len()
    }

    /// The first band's low bound, if any bands exist.
    pub fn lower_cutoff(&self) -> (out: Option<Frequency>)
        ensures
            match out {
                Some(f) => self@.len() > 0 && f == self@[0].0,
                None => self@.len() == 0,
            },
    {
        if self.bands.len() == 0 {
            None
        } else {
            Some(self.bands[0].0)
        }
    }

    /// The last band's high bound, if any bands exist.
    pub fn upper_cutoff(&self) -> (out: Option<Frequency>)
        ensures
            match out {
                Some(f) => self@.len() > 0 && f == self@[self@.len() - 1].1,
                None => self@.len() == 0,
            },
    {
        let n = self.bands.len();
        if n == 0 {
            None
        } else {
            Some(self.bands[n - 1].1)
        }
    }

    /// Finds the band whose interval `[low, high)` contains `target`:
    /// `None` exactly when `target` lies below the first band or at or
    /// above the last one.
    pub fn locate(&self, target: Frequency) -> (res: Option<usize>)
        requires
            self.wf(),
        ensures
            match res {
                Some(i) => in_band(self@, i as int, target as int),
                None => self@.len() == 0 || target < self@[0].0 || target >= self@[self@.len()
                    - 1].1,
            },
    {
        locate_in(&self.bands, target)
    }

    /// The band intervals, in ascending order.
    pub fn bands(&self) -> (out: &Vec<Band>)
        ensures
            out@ == self@,
    {
        &self.bands
    }
}

} // verus!
