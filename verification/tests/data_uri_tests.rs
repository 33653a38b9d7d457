//! The data-URI decoding boundary, exercised with the real outside crates.

use luma_energy::average_luma_in_nits_from_data_uri;
use luma_energy::decode_data_uri;
use luma_energy::dark_mode;
use luma_energy::downscale_to_size;
use luma_energy::estimate_saved_energy_wh_from_data_uri;
use luma_energy::estimate_saved_nits_from_data_uri;
use luma_energy::pixels_from_data_uri;
use luma_energy::DecodeError;
use luma_energy::DisplayTech;
use luma_energy::DOWNSCALE_SIZE;
use luma_energy::FP_ONE;
use luma_energy::L_MAX;

const BLACK_PIXEL_PNG: &str = "data:image/png;base64,iVBORw0KGgoAAAANSUhEUgAAAAEAAAABCAQAAAC1HAwCAAAAC0lEQVR42mNk+A8AAQUBAScY42YAAAAASUVORK5CYII=";

const WHITE_PIXEL_PNG: &str = "data:image/png;base64,iVBORw0KGgoAAAANSUhEUgAAAAEAAAABCAYAAAAfFcSJAAAAC0lEQVR4nGP4DwQACfsD/fteaysAAAAASUVORK5CYII=";

#[test]
fn nits_from_data_uri_black_is_zero() {
    let nits = average_luma_in_nits_from_data_uri(BLACK_PIXEL_PNG) as f64 / FP_ONE as f64;
    assert!(
        nits.abs() < 1e-2,
        "calculated nits: {}, expected: {}",
        nits,
        0.0
    );
}

#[test]
fn nits_from_data_uri_white_is_peak() {
    let nits = average_luma_in_nits_from_data_uri(WHITE_PIXEL_PNG);
    assert_eq!(nits, L_MAX * FP_ONE);
}

#[test]
fn decode_data_uri_handles_errors() {
    let bad_uri = "invalid_uri";
    let res = decode_data_uri(bad_uri);
    assert!(res.is_err(), "Expected error for invalid data URI");
    assert_eq!(res, Err(DecodeError::InvalidDataUri));
}

#[test]
fn decode_data_uri_rejects_bad_base64() {
    // A lone base64 character cannot form a byte.
    let res = decode_data_uri("data:;base64,A");
    assert_eq!(res, Err(DecodeError::InvalidBase64));
}

#[test]
fn decode_data_uri_success() {
    let res = decode_data_uri(BLACK_PIXEL_PNG);
    assert!(res.is_ok(), "Expected successful decode of valid data URI");
    // The decoded payload is the PNG itself, not the URI text.
    let bytes = res.unwrap();
    assert_eq!(&bytes[0..8], &[0x89, b'P', b'N', b'G', b'\r', b'\n', 0x1a, b'\n']);
}

#[test]
fn non_image_payload_is_rejected() {
    // "hello" in base64: a valid data URI whose bytes are no image.
    let res = pixels_from_data_uri("data:text/plain;base64,aGVsbG8=");
    assert_eq!(res, Err(DecodeError::UnsupportedImage));
}

#[test]
fn downscale_size_matches_expected() {
    let img_bytes = decode_data_uri(BLACK_PIXEL_PNG).unwrap();
    let img = image::load_from_memory(&img_bytes).unwrap();
    let scaled = downscale_to_size(&img, DOWNSCALE_SIZE);
    assert_eq!(scaled.len(), (DOWNSCALE_SIZE * DOWNSCALE_SIZE * 4) as usize);
}

#[test]
fn pixels_from_data_uri_gives_opaque_white_grid() {
    let pixels = pixels_from_data_uri(WHITE_PIXEL_PNG).unwrap();
    assert_eq!(pixels.len(), 1024);
    assert!(pixels.iter().all(|c| *c == 255));
}

#[test]
fn estimate_saved_energy_safe_on_invalid_uri() {
    let energy = estimate_saved_energy_wh_from_data_uri(
        10,
        10,
        1_000_000,
        DisplayTech::LCD,
        "invalid_uri",
    );
    assert_eq!(energy, 0);
}

#[test]
fn saved_nits_from_white_page_is_peak() {
    let saved = estimate_saved_nits_from_data_uri(WHITE_PIXEL_PNG);
    assert_eq!(saved, L_MAX * FP_ONE);
}

#[test]
fn end_to_end_white_energy_matches_formula() {
    // 16 opaque white sample pixels -> relative luminance 1.0 -> 250 nits
    // before, 0 after dark mode; the full delta feeds the energy model.
    let pixels = pixels_from_data_uri(WHITE_PIXEL_PNG).unwrap();
    let transformed = dark_mode(&pixels).unwrap();
    assert_eq!(transformed.len(), pixels.len());
    let energy =
        estimate_saved_energy_wh_from_data_uri(10, 10, 1_000_000, DisplayTech::LCD, WHITE_PIXEL_PNG);
    assert_eq!(energy, 563_008);
}
