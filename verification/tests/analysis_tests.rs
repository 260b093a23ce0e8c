//! The analysis pipeline: windowing, power spectra, bucketization, and
//! band assignment.  The Fourier transform itself is evaluated here in
//! the test as a plain discrete Fourier transform.

use bandscope::analyzer::{power_spectrum, Analyzer};
use bandscope::assign::Assigner;
use bandscope::beat::Detector;
use bandscope::buckets::Buckets;
use bandscope::sample::SampleBuffer;
use bandscope::spectrum::Spectrum;
use bandscope::wave::{WaveFunction, WaveGen};
use bandscope::window_kind::WindowKind;
use bandscope::Error;

fn hz(x: f64) -> u64 {
    (x * 1_000_000.0).round() as u64
}

/// A Q32.32 signal strength as a plain number.
fn strength(x: u64) -> f64 {
    x as f64 / 4_294_967_296.0
}

fn sine_wave(samples_per_period: usize, frequency_hz: f64, len: usize) -> Vec<i32> {
    let mut gen = WaveGen::new(WaveFunction::Sine, samples_per_period, hz(frequency_hz));
    let mut out = Vec::new();
    for _ in 0..len {
        out.push(gen.next());
    }
    out
}

/// A discrete Fourier transform of Q.16 samples, returned as Q32.32
/// fixed-point complex bins.
fn dft(samples: &[i32]) -> Vec<(i64, i64)> {
    let n = samples.len();
    let xs: Vec<f64> = samples.iter().map(|s| *s as f64 / 65_536.0).collect();
    let mut out = Vec::with_capacity(n);
    for k in 0..n {
        let mut re = 0.0f64;
        let mut im = 0.0f64;
        for (j, x) in xs.iter().enumerate() {
            let angle = -2.0 * std::f64::consts::PI * (j as f64) * (k as f64) / (n as f64);
            re += x * angle.cos();
            im += x * angle.sin();
        }
        out.push(((re * 4_294_967_296.0) as i64, (im * 4_294_967_296.0) as i64));
    }
    out
}

#[test]
fn test_analyze_mono() {
    const FFT_LEN: usize = 16;

    let analyzer = Analyzer::new(FFT_LEN, WindowKind::Rectangular);
    let samples = SampleBuffer::from_mono(&sine_wave(44100, 440.0, FFT_LEN));
    let (left, _right) = analyzer.windowed_channels(&samples).unwrap();
    let spectrum = power_spectrum(&dft(&left));

    assert_eq!(FFT_LEN, spectrum.len());

    let expected = vec![
        3.0186355,
        0.31955782,
        0.07949541,
        0.03741721,
        0.023034703,
        0.016638935,
        0.013468596,
        0.011947523,
        0.011491794,
        0.011947523,
        0.013468596,
        0.016638935,
        0.023034703,
        0.03741721,
        0.07949541,
        0.31955782,
    ];

    for (e, ss) in expected.into_iter().zip(spectrum.iter()) {
        let p = strength(*ss);
        assert!((e - p).abs() <= e * 1.0e-3 + 1.0e-3, "expected {e}, produced {p}");
    }
}

#[test]
fn test_analyze_mono_large_window() {
    const FFT_LEN: usize = 2048;
    const SAMPLES_PER_PERIOD: usize = 44100;
    const FREQUENCY: f64 = 440.0;

    let analyzer = Analyzer::new(FFT_LEN, WindowKind::Rectangular);
    let samples = SampleBuffer::from_mono(&sine_wave(SAMPLES_PER_PERIOD, FREQUENCY, FFT_LEN));
    let (left, _right) = analyzer.windowed_channels(&samples).unwrap();
    let spectrum = power_spectrum(&dft(&left));

    assert_eq!(FFT_LEN, spectrum.len());

    let fft_bin_size = SAMPLES_PER_PERIOD as f64 / FFT_LEN as f64;
    let expected_max_spectrum_index = (FREQUENCY / fft_bin_size) as usize;

    let mut produced_max_spectrum_index = 0;
    for (i, ss) in spectrum.iter().take(FFT_LEN / 2).enumerate() {
        if *ss > spectrum[produced_max_spectrum_index] {
            produced_max_spectrum_index = i;
        }
    }

    println!("{}, {}", expected_max_spectrum_index, produced_max_spectrum_index);
    assert_eq!(expected_max_spectrum_index, produced_max_spectrum_index);
}

#[test]
fn test_bucketize() {
    const SAMPLES_PER_PERIOD: usize = 44100;
    const FREQUENCY: f64 = 1000.0;

    let buckets = Buckets::new(hz(20.0), hz(10000.0), 16).unwrap();

    let samples = SampleBuffer::from_mono(&sine_wave(SAMPLES_PER_PERIOD, FREQUENCY, 1024));
    let analyzer = Analyzer::new(1024, WindowKind::default());
    let (left, _right) = analyzer.windowed_channels(&samples).unwrap();
    let spectrum = power_spectrum(&dft(&left));

    let produced = buckets.bucketize(&spectrum, SAMPLES_PER_PERIOD).unwrap();

    // each band reports the average power of its contributing bins,
    // which fall 0, 1, 0, 1, 1, 1, 3, 3, 5, 7, 11, 16, 23, 34, 51 and
    // 75 to a band here
    let expected = vec![
        0.0,
        1.7029626,
        0.0,
        1.7407556,
        1.8054703,
        1.8997737,
        2.2104282,
        3.0612280,
        6.1619392,
        103.8745386,
        1406.6227273,
        3.0703786,
        0.7688327,
        0.2858067,
        0.1220163,
        0.0568415,
    ];

    for (e, p) in expected.into_iter().zip(produced.iter()) {
        let v = strength(*p);
        assert!((e - v).abs() <= e * 1.0e-3 + 0.01, "expected {e}, produced {v}");
    }

    println!("{:?}", produced);
    println!("{:?}", buckets.bands());
}

#[test]
fn bucketize_rejects_zero_sampling_rate() {
    let buckets = Buckets::new(hz(20.0), hz(10000.0), 16).unwrap();
    assert_eq!(
        Err(Error::SamplingRate(0)),
        buckets.bucketize(&vec![0u64; 8], 0)
    );
}

#[test]
fn bucketize_rejects_empty_spectrum() {
    let buckets = Buckets::new(hz(20.0), hz(10000.0), 16).unwrap();
    assert_eq!(
        Err(Error::EmptySpectrum),
        buckets.bucketize(&Vec::new(), 44100)
    );
}

#[test]
fn test_assign_fft() {
    // a pure 440 Hz sinusoid at 44100 Hz, assigned against
    // cutoffs (20, 10000) with 16 bands, sums to 1.0 and puts the
    // dominant energy in the band containing 440 Hz
    let assigner = Assigner::new(hz(20.0), hz(10000.0), 16, hz(44100.0)).unwrap();
    let samples = sine_wave(44100, 440.0, 1024);
    let bins = dft(&samples);

    let band_values = assigner.assign_fft(&bins).unwrap();
    assert_eq!(16, band_values.len());

    let total: f64 = band_values.iter().map(|v| strength(*v)).sum();
    assert!((1.0 - total).abs() <= 1.0e-6, "sum was {total}");

    let mut argmax = 0;
    for (i, v) in band_values.iter().enumerate() {
        if *v > band_values[argmax] {
            argmax = i;
        }
    }
    let reference = Spectrum::new(hz(20.0), hz(10000.0), 16).unwrap();
    assert_eq!(reference.locate(hz(440.0)), Some(argmax));
}

#[test]
fn assign_of_silence_is_all_zero() {
    let assigner = Assigner::new(hz(20.0), hz(10000.0), 16, hz(44100.0)).unwrap();
    let bins = vec![(0i64, 0i64); 64];
    assert_eq!(Ok(vec![0u64; 16]), assigner.assign_fft(&bins));
}

#[test]
fn assign_rejects_empty_spectrum() {
    let assigner = Assigner::new(hz(20.0), hz(10000.0), 16, hz(44100.0)).unwrap();
    assert_eq!(Err(Error::EmptySpectrum), assigner.assign_fft(&Vec::new()));
}

#[test]
fn assigner_validation() {
    assert!(Assigner::new(hz(20.0), hz(10000.0), 16, 0).map(|_| ())
        == Err(Error::SamplingRate(0)));
    // the upper cutoff is clamped to half the sampling frequency
    // before validation, so an upper cutoff of zero is impossible but
    // a tiny sampling frequency produces one
    assert!(Assigner::new(hz(20.0), hz(10000.0), 16, 1).map(|_| ())
        == Err(Error::UpperCutoff));
    assert!(Assigner::new(0, hz(10000.0), 16, hz(44100.0)).map(|_| ())
        == Err(Error::LowerCutoff));
    assert!(Assigner::new(hz(30000.0), hz(40000.0), 16, hz(44100.0)).map(|_| ())
        == Err(Error::CutoffOrder));
}

#[test]
fn windowed_channels_rejects_wrong_length() {
    let analyzer = Analyzer::new(16, WindowKind::Rectangular);
    let samples = SampleBuffer::new(8);
    assert_eq!(
        Err(Error::NumSamples(16, 8)),
        analyzer.windowed_channels(&samples).map(|_| ())
    );
}

#[test]
fn windowing_scales_both_channels() {
    let analyzer = Analyzer::new(4, WindowKind::Triangular);
    let samples = SampleBuffer::from_pairs(vec![(65536, -65536); 4]);
    let (left, right) = analyzer.windowed_channels(&samples).unwrap();
    // triangular window of length 4: [0.25, 0.75, 0.75, 0.25]
    assert_eq!(vec![16384, 49152, 49152, 16384], left);
    assert_eq!(vec![-16384, -49152, -49152, -16384], right);
}

#[test]
fn detector_validation() {
    assert_eq!(Err(Error::DecayFactor), Detector::new(0, 1, 1, 20, 100, 16));
    assert_eq!(Err(Error::TriggerFactor), Detector::new(2, 1, 0, 20, 100, 16));
    assert_eq!(Err(Error::LowerCutoff), Detector::new(2, 1, 1, 0, 100, 16));
    assert_eq!(Err(Error::UpperCutoff), Detector::new(2, 1, 1, 20, 0, 16));
    assert_eq!(Err(Error::CutoffOrder), Detector::new(2, 1, 1, 100, 100, 16));
    assert_eq!(Ok(()), Detector::new(2, 1, 1, 20, 100, 16));
}

#[test]
fn error_messages_name_the_condition() {
    assert_eq!(
        "number of bands must be greater than zero",
        Error::NumBands.message()
    );
    assert_eq!(
        "lower cutoff must be less than upper cutoff",
        Error::CutoffOrder.message()
    );
    assert_eq!(
        "too few samples in buffer",
        Error::TooFewSamples(4, 2).message()
    );
    assert_eq!("spectrum must not be empty", Error::EmptySpectrum.message());
}

#[test]
fn wave_shapes_stay_within_amplitude() {
    let shapes = vec![
        WaveFunction::Sine,
        WaveFunction::Square,
        WaveFunction::Triangle,
        WaveFunction::Sawtooth,
        WaveFunction::SineMag,
    ];
    for shape in shapes {
        let mut gen = WaveGen::new(shape, 48, hz(3.0));
        for _ in 0..96 {
            let v = gen.next();
            assert!(-16384 <= v && v <= 16384);
        }
    }
}

#[test]
fn square_wave_alternates() {
    // one full cycle over four samples: the first half up, the second
    // half down
    let f = WaveFunction::Square;
    assert_eq!(16384, f.val(0, 4, hz(1.0)));
    assert_eq!(16384, f.val(1, 4, hz(1.0)));
    assert_eq!(-16384, f.val(2, 4, hz(1.0)));
    assert_eq!(-16384, f.val(3, 4, hz(1.0)));
}
