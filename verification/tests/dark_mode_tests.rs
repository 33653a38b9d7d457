//! The dark-mode transform on concrete pixels.

use luma_energy::average_luma_in_nits;
use luma_energy::dark_mode;
use luma_energy::estimate_saved_nits;
use luma_energy::LumaError;
use luma_energy::FP_ONE;
use luma_energy::L_MAX;

#[test]
fn transparent_pixel_is_bit_exact() {
    let data = vec![17u8, 230, 99, 0, 255, 1, 2, 2];
    let out = dark_mode(&data).unwrap();
    assert_eq!(&out[0..4], &data[0..4]);
    assert_eq!(&out[4..8], &data[4..8]);
}

#[test]
fn alpha_is_preserved_everywhere() {
    let data = vec![
        255u8, 255, 255, 255, 0, 0, 0, 200, 120, 30, 220, 77, 5, 5, 5, 3,
    ];
    let out = dark_mode(&data).unwrap();
    assert_eq!(out.len(), data.len());
    for i in 0..data.len() / 4 {
        assert_eq!(out[4 * i + 3], data[4 * i + 3], "alpha of pixel {}", i);
    }
}

#[test]
fn output_length_matches_input() {
    for pixels in [0usize, 1, 2, 7, 16] {
        let data = vec![100u8; 4 * pixels];
        let out = dark_mode(&data).unwrap();
        assert_eq!(out.len(), data.len());
    }
}

#[test]
fn empty_buffer_gives_empty_output() {
    let data: Vec<u8> = Vec::new();
    let out = dark_mode(&data).unwrap();
    assert!(out.is_empty());
}

#[test]
fn dark_mode_rejects_bad_length() {
    let data = vec![0u8; 5];
    assert_eq!(dark_mode(&data), Err(LumaError::InvalidBufferLength));
}

#[test]
fn white_background_turns_dark() {
    let data = vec![255u8, 255, 255, 255];
    let out = dark_mode(&data).unwrap();
    for c in &out[0..3] {
        assert!(
            (*c as f64) < 0.2 * 255.0,
            "channel {} is not dark enough",
            c
        );
    }
    assert_eq!(out[3], 255);
}

#[test]
fn black_text_turns_bright() {
    let data = vec![0u8, 0, 0, 255];
    let out = dark_mode(&data).unwrap();
    for c in &out[0..3] {
        assert!(
            (*c as f64) > 0.7 * 255.0,
            "channel {} is not bright enough",
            c
        );
    }
    assert_eq!(out[3], 255);
}

#[test]
fn mid_colour_keeps_channel_ratios_roughly() {
    // A saturated red stays red-dominant after inversion: the scale factor
    // applies to all channels alike.
    let data = vec![200u8, 40, 40, 255];
    let out = dark_mode(&data).unwrap();
    assert!(out[0] >= out[1]);
    assert!(out[1] == out[2]);
}

#[test]
fn saved_nits_of_white_is_peak() {
    let data = vec![255u8; 16 * 4];
    // White is at peak brightness and inverts to black, so the whole peak
    // luminance is saved.
    assert_eq!(estimate_saved_nits(&data).unwrap(), L_MAX * FP_ONE);
}

#[test]
fn saved_nits_rejects_bad_length() {
    let data = vec![1u8, 2, 3];
    assert_eq!(
        estimate_saved_nits(&data),
        Err(LumaError::InvalidBufferLength)
    );
}

#[test]
fn dark_mode_darkens_bright_page() {
    // A mostly-white page gets darker in nits after the transform.
    let mut data = Vec::new();
    for _ in 0..12 {
        data.extend_from_slice(&[255, 255, 255, 255]);
    }
    for _ in 0..4 {
        data.extend_from_slice(&[20, 20, 20, 255]);
    }
    let before = average_luma_in_nits(&data).unwrap();
    let after = average_luma_in_nits(&dark_mode(&data).unwrap()).unwrap();
    assert!(after < before);
}
