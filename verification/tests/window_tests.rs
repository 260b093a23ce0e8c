//! Window envelope generation.

use bandscope::window::Window;
use bandscope::window_kind::WindowKind;
use bandscope::fourier::window::Window as FourierWindow;

/// A Q32.32 window multiplier as a plain number.
fn value(w: u64) -> f64 {
    w as f64 / 4_294_967_296.0
}

fn approx_all(expected: &[f64], produced: &[u64]) {
    assert_eq!(expected.len(), produced.len());
    for (e, p) in expected.iter().zip(produced.iter()) {
        assert!((e - value(*p)).abs() <= 1.0e-6, "expected {e}, produced {}", value(*p));
    }
}

const BLACKMAN_8: [f64; 8] = [
    0.000060000000000004494,
    0.03339172347815117,
    0.332833504298565,
    0.8893697722232837,
    0.889369772223284,
    0.3328335042985651,
    0.03339172347815122,
    0.000060000000000004494,
];

const HAMMING_8: [f64; 8] = [
    0.08000000000000002,
    0.25319469114498255,
    0.6423596296199047,
    0.9544456792351128,
    0.9544456792351128,
    0.6423596296199048,
    0.25319469114498266,
    0.08000000000000002,
];

const HANNING_8: [f64; 8] = [
    0.0,
    0.1882550990706332,
    0.6112604669781572,
    0.9504844339512095,
    0.9504844339512095,
    0.6112604669781573,
    0.1882550990706333,
    0.0,
];

const RECTANGULAR_8: [f64; 8] = [1.0, 1.0, 1.0, 1.0, 1.0, 1.0, 1.0, 1.0];

const SINE_8: [f64; 8] = [
    0.0,
    0.4338837391175581,
    0.7818314824680298,
    0.9749279121818236,
    0.9749279121818236,
    0.7818314824680299,
    0.43388373911755823,
    0.00000000000000012246467991473532,
];

const TRIANGULAR_8: [f64; 8] = [0.125, 0.375, 0.625, 0.875, 0.875, 0.625, 0.375, 0.125];

const NUTTALL_8: [f64; 8] = [
    0.0,
    0.031142736797915613,
    0.3264168059086425,
    0.8876284572934416,
    0.8876284572934416,
    0.32641680590864275,
    0.031142736797915654,
    0.0,
];

#[test]
fn window_test_generate() {
    let inputs_and_expected: Vec<(Window, &[f64])> = vec![
        (Window::Blackman, &BLACKMAN_8),
        (Window::Hamming, &HAMMING_8),
        (Window::Hanning, &HANNING_8),
        (Window::Rectangular, &RECTANGULAR_8),
        (Window::Sine, &SINE_8),
        (Window::Triangular, &TRIANGULAR_8),
    ];
    for (input, expected) in inputs_and_expected {
        approx_all(expected, &input.generate(8));
    }
}

#[test]
fn window_kind_test_generate() {
    let inputs_and_expected: Vec<(WindowKind, &[f64])> = vec![
        (WindowKind::Blackman, &BLACKMAN_8),
        (WindowKind::Hamming, &HAMMING_8),
        (WindowKind::Hanning, &HANNING_8),
        (WindowKind::Rectangular, &RECTANGULAR_8),
        (WindowKind::Sine, &SINE_8),
        (WindowKind::Triangular, &TRIANGULAR_8),
    ];
    for (input, expected) in inputs_and_expected {
        approx_all(expected, &input.generate(8));
    }
}

#[test]
fn fourier_window_generate() {
    let inputs_and_expected: Vec<(FourierWindow, &[f64])> = vec![
        (FourierWindow::Blackman, &BLACKMAN_8),
        (FourierWindow::Hamming, &HAMMING_8),
        (FourierWindow::Hanning, &HANNING_8),
        (FourierWindow::Rectangle, &RECTANGULAR_8),
        (FourierWindow::Nuttall, &NUTTALL_8),
        (FourierWindow::Sine, &SINE_8),
        (FourierWindow::Triangular, &TRIANGULAR_8),
    ];
    for (input, expected) in inputs_and_expected {
        approx_all(expected, &input.generate(8));
    }
}

#[test]
fn rectangular_window_is_exactly_one() {
    for len in [1usize, 2, 7, 64] {
        let produced = WindowKind::Rectangular.generate(len);
        assert_eq!(len, produced.len());
        for w in produced {
            assert_eq!(4_294_967_296, w);
        }
    }
}

#[test]
fn windows_of_length_one_are_defined() {
    // every kind must return a well-defined single value, not divide
    // by zero
    let kinds = vec![
        WindowKind::Blackman,
        WindowKind::Hamming,
        WindowKind::Hanning,
        WindowKind::Rectangular,
        WindowKind::Sine,
        WindowKind::Triangular,
    ];
    for kind in kinds {
        let produced = kind.generate(1);
        assert_eq!(1, produced.len());
        assert!(produced[0] <= 4_294_967_296);
    }
}

#[test]
fn default_window_is_rectangular() {
    assert!(matches!(Window::default(), Window::Rectangular));
    assert!(matches!(WindowKind::default(), WindowKind::Rectangular));
}
