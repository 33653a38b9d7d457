//! Luminance and nits behaviour on concrete buffers.

use luma_energy::average_luma_in_nits;
use luma_energy::average_luma_relative;
use luma_energy::LumaError;
use luma_energy::FP_ONE;
use luma_energy::L_MAX;

const EPS: f64 = 1e-2;

fn solid_rgba(r: u8, g: u8, b: u8, a: u8, count: usize) -> Vec<u8> {
    let mut v = Vec::with_capacity(4 * count);
    for _ in 0..count {
        v.extend_from_slice(&[r, g, b, a]);
    }
    v
}

fn as_unit(fp: u64) -> f64 {
    fp as f64 / FP_ONE as f64
}

#[test]
fn black_is_zero() {
    let data = solid_rgba(0, 0, 0, 255, 16);
    let y = as_unit(average_luma_relative(&data).unwrap()).abs();
    assert!(y < EPS, "calculated luminance: {}, expected: {}", y, 0);
}

#[test]
fn white_is_255() {
    let data = solid_rgba(255, 255, 255, 255, 16);
    let y = as_unit(average_luma_relative(&data).unwrap()).abs();
    assert!(1.0 - y < EPS, "calculated luminance: {}, expected: {}", y, 1);
}

#[test]
fn mid_grey_is_half() {
    let data = solid_rgba(128, 128, 128, 128, 16);
    let y = as_unit(average_luma_relative(&data).unwrap()).abs();
    assert!(
        0.5 - y < EPS,
        "calculated luminance: {}, expected: {}",
        y,
        0.5
    );
}

#[test]
fn checkerboard_is_midpoint() {
    let mut data = Vec::new();
    data.extend_from_slice(&[0, 0, 0, 255]); // black
    data.extend_from_slice(&[255, 255, 255, 255]); // white
    data.extend_from_slice(&[0, 0, 0, 255]); // black
    data.extend_from_slice(&[255, 255, 255, 255]); // white
    let y = as_unit(average_luma_relative(&data).unwrap());
    assert!(
        (y - 0.5).abs() < EPS,
        "calculated luminance: {}, expected: {}",
        y,
        0.5
    );
}

#[test]
fn invalid_length_is_error() {
    let data = vec![0u8; 5];
    assert_eq!(
        average_luma_relative(&data),
        Err(LumaError::InvalidBufferLength)
    );
    assert_eq!(
        average_luma_in_nits(&data),
        Err(LumaError::InvalidBufferLength)
    );
}

#[test]
fn nits_black_is_zero() {
    let data = solid_rgba(0, 0, 0, 255, 16);
    let nits = as_unit(average_luma_in_nits(&data).unwrap());
    assert!(
        nits.abs() < EPS,
        "calculated nits: {}, expected: {}",
        nits,
        0.0
    );
}

#[test]
fn nits_white_is_lmax() {
    let data = solid_rgba(255, 255, 255, 255, 16);
    let nits = as_unit(average_luma_in_nits(&data).unwrap());
    let l_max = L_MAX as f64;
    assert!(
        (nits - l_max).abs() < EPS,
        "calculated nits: {}, expected: {}",
        nits,
        l_max
    );
}

#[test]
fn nits_mid_grey_matches_expected() {
    let data = solid_rgba(128, 128, 128, 128, 16);

    // Compute expected nits from the relative luma via the sRGB curve.
    let ey = as_unit(average_luma_relative(&data).unwrap());
    let y_linear = if ey <= 0.04045 {
        ey / 12.92
    } else {
        ((ey + 0.055) / 1.055).powf(2.4)
    };
    let expected_nits = y_linear * L_MAX as f64;

    let nits = as_unit(average_luma_in_nits(&data).unwrap());
    assert!(
        (nits - expected_nits).abs() < EPS,
        "calculated nits: {}, expected: {}",
        nits,
        expected_nits
    );
}

#[test]
fn white_luma_is_exact_unit() {
    let data = solid_rgba(255, 255, 255, 255, 16);
    assert_eq!(average_luma_relative(&data).unwrap(), FP_ONE);
    assert_eq!(average_luma_in_nits(&data).unwrap(), L_MAX * FP_ONE);
}

#[test]
fn mid_grey_luma_exact_value() {
    // 128/255 in micro-units is 501960, and uniform buffers average to the
    // single-pixel luma whatever the alpha.
    let data = solid_rgba(128, 128, 128, 37, 3);
    assert_eq!(average_luma_relative(&data).unwrap(), 501_960);
}

#[test]
fn fully_transparent_buffer_is_zero() {
    let data = solid_rgba(200, 200, 200, 0, 8);
    assert_eq!(average_luma_relative(&data).unwrap(), 0);
    assert_eq!(average_luma_in_nits(&data).unwrap(), 0);
}

#[test]
fn empty_buffer_is_zero() {
    let data: Vec<u8> = Vec::new();
    assert_eq!(average_luma_relative(&data).unwrap(), 0);
    assert_eq!(average_luma_in_nits(&data).unwrap(), 0);
}

#[test]
fn luminance_is_order_independent() {
    let a = vec![
        0, 0, 0, 255, 255, 255, 255, 255, 10, 200, 30, 128, 90, 80, 70, 60,
    ];
    let b = vec![
        90, 80, 70, 60, 10, 200, 30, 128, 255, 255, 255, 255, 0, 0, 0, 255,
    ];
    assert_eq!(
        average_luma_relative(&a).unwrap(),
        average_luma_relative(&b).unwrap()
    );
}
