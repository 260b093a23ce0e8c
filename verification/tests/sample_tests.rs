//! Sample buffer sliding, snapshots, and loudness.

use bandscope::sample::{SampleBuffer, SampleBufferIter};
use bandscope::audio_data::AudioBuffer;
use bandscope::Error;

/// An amplitude in `[-1, 1]` as the library's Q.16 representation.
fn amp(x: f64) -> i32 {
    (x * 65_536.0).round() as i32
}

/// A Q32.32 signal strength as a plain number.
fn strength(x: u64) -> f64 {
    x as f64 / 4_294_967_296.0
}

fn sine_wave(samples_per_period: usize, frequency_hz: f64, len: usize) -> Vec<i32> {
    let mut gen = bandscope::wave::WaveGen::new(
        bandscope::wave::WaveFunction::Sine,
        samples_per_period,
        (frequency_hz * 1_000_000.0).round() as u64,
    );
    let mut out = Vec::new();
    for _ in 0..len {
        out.push(gen.next());
    }
    out
}

fn drain(mut it: SampleBufferIter) -> Vec<(i32, i32)> {
    let mut out = Vec::new();
    while let Some(pair) = it.next() {
        out.push(pair);
    }
    out
}

#[test]
fn test_rms() {
    let inputs_and_expected = vec![
        (SampleBuffer::from_mono(&vec![0; 16]), 0.0),
        (SampleBuffer::from_mono(&vec![amp(1.0); 16]), 1.0),
        (SampleBuffer::from_mono(&sine_wave(128, 440.0, 128)), 0.17677675),
    ];

    for (input, expected) in inputs_and_expected {
        let produced = strength(input.iter().rms());
        println!("{}, {}", expected, produced);
        assert!((expected - produced).abs() <= 1.0e-3);
    }
}

#[test]
fn rms_of_full_scale_is_exactly_one() {
    // positive and negative full-scale samples mixed
    let mut samples = vec![amp(1.0); 9];
    samples[3] = amp(-1.0);
    samples[7] = amp(-1.0);
    let buf = SampleBuffer::from_mono(&samples);
    assert_eq!(4_294_967_296, buf.iter().rms());
    assert_eq!(4_294_967_296, buf.root_mean_sqr());
}

#[test]
fn rms_of_silence_is_exactly_zero() {
    for len in [0usize, 1, 5, 64] {
        let buf = SampleBuffer::new(len);
        assert_eq!(0, buf.iter().rms());
        assert_eq!(0, buf.root_mean_sqr());
    }
}

#[test]
fn push_replaces_whole_buffer() {
    let mut buf = SampleBuffer::new(4);
    let incoming: Vec<(i32, i32)> = vec![(1, -1), (2, -2), (3, -3), (4, -4)];
    buf.push(&incoming);
    assert_eq!(incoming, drain(buf.iter()));
    // no trace of the zeros remains
    let again: Vec<(i32, i32)> = vec![(5, 5), (6, 6), (7, 7), (8, 8)];
    buf.push(&again);
    assert_eq!(again, drain(buf.iter()));
}

#[test]
fn push_fewer_keeps_recent_old_samples() {
    let mut buf = SampleBuffer::from_pairs(vec![(1, 1), (2, 2), (3, 3), (4, 4)]);
    buf.push(&vec![(9, 9)]);
    assert_eq!(vec![(2, 2), (3, 3), (4, 4), (9, 9)], drain(buf.iter()));
}

#[test]
fn push_more_than_capacity_keeps_latest() {
    let mut buf = SampleBuffer::new(3);
    buf.push(&vec![(1, 1), (2, 2), (3, 3), (4, 4), (5, 5)]);
    assert_eq!(vec![(3, 3), (4, 4), (5, 5)], drain(buf.iter()));
}

#[test]
fn push_into_empty_buffer_is_noop() {
    let mut buf = SampleBuffer::new(0);
    buf.push(&vec![(1, 1), (2, 2)]);
    assert_eq!(0, buf.len());
}

#[test]
fn push_interleaved_pairs_channels() {
    let mut buf = SampleBuffer::new(2);
    buf.push_interleaved(&vec![10, -10, 20, -20, 30]);
    // the trailing unpaired sample is dropped
    assert_eq!(vec![(10, -10), (20, -20)], drain(buf.iter()));
}

#[test]
fn iter_tail_returns_most_recent() {
    let buf = SampleBuffer::from_pairs(vec![(1, 1), (2, 2), (3, 3), (4, 4)]);
    let tail = buf.iter_tail(2).unwrap();
    assert_eq!(2, tail.len());
    assert_eq!(vec![(3, 3), (4, 4)], drain(tail));
}

#[test]
fn iter_tail_rejects_oversized_window() {
    let buf = SampleBuffer::new(4);
    match buf.iter_tail(5) {
        Err(Error::TooFewSamples(expected, produced)) => {
            assert_eq!(5, expected);
            assert_eq!(4, produced);
        },
        _ => panic!("expected a too-few-samples error"),
    }
}

#[test]
fn stereo_audio_buffer_rms() {
    // left channel all full-scale, right channel silent:
    // mean squares 1.0 and 0.0, so the rms is sqrt(1/2)
    let left = SampleBuffer::from_mono(&vec![amp(1.0); 8]);
    let right = SampleBuffer::new(8);
    let audio = AudioBuffer::Stereo(left, right);
    assert_eq!(8, audio.len());
    let produced = strength(audio.root_mean_sqr());
    assert!((produced - 0.5f64.sqrt()).abs() <= 1.0e-6);

    let mono = AudioBuffer::Mono(SampleBuffer::from_mono(&vec![amp(-1.0); 8]));
    assert_eq!(4_294_967_296, mono.root_mean_sqr());
}
