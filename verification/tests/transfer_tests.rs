//! The sRGB transfer curve: exactness at the ends and the round trip.

use luma_energy::forward_transfer;
use luma_energy::inverse_transfer;
use luma_energy::FP_ONE;

#[test]
fn curve_is_exact_at_ends() {
    assert_eq!(inverse_transfer(0), 0);
    assert_eq!(inverse_transfer(FP_ONE), FP_ONE);
    assert_eq!(forward_transfer(0), 0);
    assert_eq!(forward_transfer(FP_ONE), FP_ONE);
}

#[test]
fn inverse_matches_reference_curve() {
    // Sampled against the floating-point reference formula.
    let mut x: u64 = 0;
    while x <= FP_ONE {
        let e = x as f64 / FP_ONE as f64;
        let expected = if e <= 0.04045 {
            e / 12.92
        } else {
            ((e + 0.055) / 1.055).powf(2.4)
        };
        let got = inverse_transfer(x) as f64 / FP_ONE as f64;
        assert!(
            (got - expected).abs() < 1e-4,
            "inverse at {}: got {}, expected {}",
            e,
            got,
            expected
        );
        x += 9_973;
    }
}

#[test]
fn forward_matches_reference_curve() {
    let mut x: u64 = 0;
    while x <= FP_ONE {
        let y = x as f64 / FP_ONE as f64;
        let expected = if y <= 0.0031308 {
            y * 12.92
        } else {
            1.055 * y.powf(1.0 / 2.4) - 0.055
        };
        let got = forward_transfer(x) as f64 / FP_ONE as f64;
        assert!(
            (got - expected).abs() < 1e-4,
            "forward at {}: got {}, expected {}",
            y,
            got,
            expected
        );
        x += 9_973;
    }
}

#[test]
fn round_trip_is_close_on_dense_samples() {
    // forward(inverse(x)) stays within 1e-3 of x across [0, 1].
    let mut x: u64 = 0;
    while x <= FP_ONE {
        let back = forward_transfer(inverse_transfer(x));
        assert!(back <= x, "round trip at {} overshoots to {}", x, back);
        let diff = (x - back) as f64 / FP_ONE as f64;
        assert!(
            diff < 1e-3,
            "round trip at {}: came back as {}",
            x,
            back
        );
        x += 997;
    }
}

#[test]
fn inverse_round_trip_is_close_on_dense_samples() {
    // inverse(forward(y)) stays within 1e-3 of y across [0, 1].
    let mut y: u64 = 0;
    while y <= FP_ONE {
        let back = inverse_transfer(forward_transfer(y));
        let diff = back.abs_diff(y) as f64 / FP_ONE as f64;
        assert!(
            diff < 1e-3,
            "inverse round trip at {}: came back as {}",
            y,
            back
        );
        y += 997;
    }
}
