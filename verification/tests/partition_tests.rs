//! Band partition construction and lookup.

use bandscope::buckets::Buckets;
use bandscope::spectrum::Spectrum;
use bandscope::Error;

/// A frequency in hertz as the library's microhertz representation.
fn hz(x: f64) -> u64 {
    (x * 1_000_000.0).round() as u64
}

fn as_hz(uhz: u64) -> f64 {
    uhz as f64 / 1_000_000.0
}

fn approx(expected: f64, produced: f64) {
    let eps = expected.abs() * 1.0e-5 + 0.01;
    assert!(
        (expected - produced).abs() <= eps,
        "expected {expected}, produced {produced}"
    );
}

const EXPECTED_16: [(f64, f64); 16] = [
    (10.0, 16.179424),
    (16.179424, 26.177376),
    (26.177376, 42.353485),
    (42.353485, 68.5255),
    (68.5255, 110.8703),
    (110.8703, 179.38176),
    (179.38176, 290.22934),
    (290.22934, 469.57434),
    (469.57434, 759.7442),
    (759.7442, 1229.2223),
    (1229.2223, 1988.8108),
    (1988.8108, 3217.7813),
    (3217.7813, 5206.1846),
    (5206.1846, 8423.307),
    (8423.307, 13628.425),
    (13628.425, 22050.0),
];

const EXPECTED_8: [(f64, f64); 8] = [
    (20.0, 48.520767),
    (48.520767, 117.71324),
    (117.71324, 285.57684),
    (285.57684, 692.8204),
    (692.8204, 1680.8087),
    (1680.8087, 4077.7063),
    (4077.7063, 9892.672),
    (9892.672, 24000.0),
];

#[test]
fn buckets_test_new() {
    let produced = Buckets::new(hz(10.0), hz(22050.0), 16).unwrap();
    assert_eq!(EXPECTED_16.len(), produced.len());
    for (e, p) in EXPECTED_16.iter().zip(produced.bands().iter()) {
        approx(e.0, as_hz(p.0));
        approx(e.1, as_hz(p.1));
    }

    let produced = Buckets::new(hz(20.0), hz(24000.0), 8).unwrap();
    assert_eq!(EXPECTED_8.len(), produced.len());
    for (e, p) in EXPECTED_8.iter().zip(produced.bands().iter()) {
        approx(e.0, as_hz(p.0));
        approx(e.1, as_hz(p.1));
    }

    let produced = Buckets::new(hz(20.0), hz(44100.0), 0).unwrap();
    assert_eq!(0, produced.len());
}

#[test]
fn buckets_test_locate() {
    let partitions = Buckets::new(hz(10.0), hz(22050.0), 16).unwrap();

    let inputs_and_expected = vec![
        (22049.9, Some(15)),
        (22050.0, None),
        (0.0, None),
        (9.9, None),
        (10.0, Some(0)),
        (500.0, Some(8)),
        (759.0, Some(8)),
        (760.0, Some(9)),
    ];

    for (input, expected) in inputs_and_expected {
        let produced = partitions.locate(hz(input));
        assert_eq!(expected, produced);
    }
}

#[test]
fn spectrum_test_new() {
    let produced = Spectrum::new(hz(10.0), hz(22050.0), 16).unwrap();
    assert_eq!(EXPECTED_16.len(), produced.len());
    for (e, p) in EXPECTED_16.iter().zip(produced.bands().iter()) {
        approx(e.0, as_hz(p.0));
        approx(e.1, as_hz(p.1));
    }

    let produced = Spectrum::new(hz(20.0), hz(24000.0), 8).unwrap();
    assert_eq!(EXPECTED_8.len(), produced.len());
    for (e, p) in EXPECTED_8.iter().zip(produced.bands().iter()) {
        approx(e.0, as_hz(p.0));
        approx(e.1, as_hz(p.1));
    }

    let produced = Spectrum::new(hz(20.0), hz(44100.0), 0).unwrap();
    assert_eq!(0, produced.len());
}

#[test]
fn spectrum_test_locate() {
    let partitions = Spectrum::new(hz(10.0), hz(22050.0), 16).unwrap();

    let inputs_and_expected = vec![
        (22049.9, Some(15)),
        (22050.0, None),
        (0.0, None),
        (9.9, None),
        (10.0, Some(0)),
        (500.0, Some(8)),
        (759.0, Some(8)),
        (760.0, Some(9)),
    ];

    for (input, expected) in inputs_and_expected {
        let produced = partitions.locate(hz(input));
        assert_eq!(expected, produced);
    }
}

#[test]
fn spectrum_cutoffs() {
    let s = Spectrum::new(hz(10.0), hz(22050.0), 16).unwrap();
    assert_eq!(Some(hz(10.0)), s.lower_cutoff());
    assert_eq!(Some(hz(22050.0)), s.upper_cutoff());

    let empty = Spectrum::new(hz(10.0), hz(22050.0), 0).unwrap();
    assert_eq!(None, empty.lower_cutoff());
    assert_eq!(None, empty.upper_cutoff());
}

#[test]
fn partition_validation_order() {
    assert_eq!(Err(Error::UpperCutoff), Buckets::new(hz(10.0), 0, 4).map(|_| ()));
    assert_eq!(Err(Error::LowerCutoff), Buckets::new(0, hz(100.0), 4).map(|_| ()));
    assert_eq!(
        Err(Error::CutoffOrder),
        Buckets::new(hz(100.0), hz(100.0), 4).map(|_| ())
    );
    assert_eq!(
        Err(Error::CutoffOrder),
        Buckets::new(hz(200.0), hz(100.0), 4).map(|_| ())
    );
    // the upper cutoff is checked first
    assert_eq!(Err(Error::UpperCutoff), Buckets::new(0, 0, 4).map(|_| ()));
    assert_eq!(Err(Error::UpperCutoff), Spectrum::new(hz(10.0), 0, 4).map(|_| ()));
    assert_eq!(Err(Error::LowerCutoff), Spectrum::new(0, hz(100.0), 4).map(|_| ()));
    assert_eq!(
        Err(Error::CutoffOrder),
        Spectrum::new(hz(100.0), hz(50.0), 4).map(|_| ())
    );
}

#[test]
fn partition_is_contiguous_and_increasing() {
    let s = Spectrum::new(hz(17.3), hz(19333.7), 31).unwrap();
    let bands = s.bands();
    assert_eq!(31, bands.len());
    assert_eq!(hz(17.3), bands[0].0);
    assert_eq!(hz(19333.7), bands[30].1);
    for i in 0..bands.len() {
        assert!(bands[i].0 < bands[i].1);
        if i + 1 < bands.len() {
            assert_eq!(bands[i].1, bands[i + 1].0);
        }
    }
}

#[test]
fn locate_hits_every_band_boundary() {
    let s = Spectrum::new(hz(10.0), hz(22050.0), 16).unwrap();
    let bands = s.bands().clone();
    for (i, (low, high)) in bands.iter().enumerate() {
        // a band's low bound resolves to that band
        assert_eq!(Some(i), s.locate(*low));
        assert_eq!(Some(i), s.locate(high - 1));
    }
    assert_eq!(None, s.locate(bands[0].0 - 1));
    assert_eq!(None, s.locate(bands[15].1));
}

#[test]
fn degenerate_partitions_stay_ordered() {
    // cutoffs only a few microhertz apart cannot spread five bands
    // geometrically, but the partition still comes out strictly
    // increasing and contiguous
    let b = Buckets::new(1, 2, 5).unwrap();
    let bands = b.bands();
    assert_eq!(5, bands.len());
    assert_eq!(1, bands[0].0);
    for i in 0..bands.len() {
        assert!(bands[i].0 < bands[i].1);
        if i + 1 < bands.len() {
            assert_eq!(bands[i].1, bands[i + 1].0);
        }
    }
    // every frequency inside the covered range is still located
    assert_eq!(Some(0), b.locate(1));
    assert_eq!(None, b.locate(0));
}
