//! The image-acquisition boundary: a data URI is decoded to bytes, the
//! bytes to an image, and the image downscaled to a fixed square RGBA
//! sample grid that the pure pipeline consumes.
//!
//! The decoding itself is done by outside crates behind trusted wrappers;
//! everything computed from the returned pixels is verified.

use vstd::prelude::*;

use crate::constants::DOWNSCALE_SIZE;
use crate::constants::FP_ONE;
use crate::constants::L_MAX;
use crate::energy::estimate_saved_energy_wh;
use crate::energy::estimate_saved_nits;
use crate::energy::lemma_saved_energy_monotone;
use crate::energy::saved_energy_wh_spec;
use crate::energy::saved_nits_spec;
use crate::energy::DisplayTech;
use crate::luminance::average_luma_in_nits;
use crate::luminance::nits_spec;

verus! {

/// The error raised when a data URI cannot be turned into pixels.
#[derive(Clone, Copy, Debug, PartialEq, Eq, Structural)]
pub enum DecodeError {
    /// The text is not a data URL.
    InvalidDataUri,
    /// The data URL's body is not valid base64.
    InvalidBase64,
    /// The decoded bytes are not a supported image format.
    UnsupportedImage,
}

/// The byte payload of a data URI, when the URI parses and its body
/// decodes; the result depends on the URI text alone.
pub uninterp spec fn data_uri_payload(uri: Seq<char>) -> Option<Seq<u8>>;

/// Whether the decoded bytes parse as a supported image; the result
/// depends on the bytes alone.
pub uninterp spec fn image_parses(bytes: Seq<u8>) -> bool;

/// The 16x16 RGBA sample grid of the image the bytes encode; the result
/// depends on the bytes alone.
pub uninterp spec fn sample_grid(bytes: Seq<u8>) -> Seq<u8>;

/// The URI yields a payload that parses as an image.
pub open spec fn data_uri_ok(uri: Seq<char>) -> bool {
    data_uri_payload(uri) matches Some(b) && image_parses(b)
}

#[verifier::external_type_specification]
#[verifier::external_body]
pub struct ExDynamicImage(image::DynamicImage);

/// Relies on `data_url::DataUrl::process` and `DataUrl::decode_to_vec`:
/// parsing and base64-decoding are pure functions of the URI text, so the
/// composite payload is named `data_uri_payload`.
#[verifier::external_body]
pub fn decode_data_uri(uri: &str) -> (r: Result<Vec<u8>, DecodeError>)
    ensures
        r matches Ok(b) ==> data_uri_payload(uri@) == Some(b@),
        r is Err ==> data_uri_payload(uri@) is None,
{
    let parsed = match data_url::DataUrl::process(uri) {
        Ok(d) => d,
        Err(_) => return Err(DecodeError::InvalidDataUri),
    };
    match parsed.decode_to_vec() {
        Ok((bytes, _fragment)) => Ok(bytes),
        Err(_) => Err(DecodeError::InvalidBase64),
    }
}

/// Relies on `image::load_from_memory`, `DynamicImage::resize_exact`,
/// `DynamicImage::to_rgba8` and `ImageBuffer::into_raw`: decoding and
/// resampling are pure functions of the bytes, so success is named
/// `image_parses` and the 16x16 RGBA result is named `sample_grid`.
#[verifier::external_body]
fn grid_from_bytes(bytes: &[u8]) -> (r: Result<Vec<u8>, DecodeError>)
    ensures
        r matches Ok(p) ==> image_parses(bytes@) && p@ == sample_grid(bytes@) && p@.len() == 1024,
        r is Err <==> !image_parses(bytes@),
{
    let img = match image::load_from_memory(bytes) {
        Ok(i) => i,
        Err(_) => return Err(DecodeError::UnsupportedImage),
    };
    let resized = img.resize_exact(
        DOWNSCALE_SIZE,
        DOWNSCALE_SIZE,
        image::imageops::FilterType::Triangle,
    );
    Ok(resized.to_rgba8().into_raw())
}

/// Relies on `image::DynamicImage::resize_exact`, `DynamicImage::to_rgba8`
/// and `ImageBuffer::into_raw`: the resized RGBA image holds four bytes for
/// each of `size * size` pixels. The size bound keeps the buffer allocation
/// from failing.
#[verifier::external_body]
pub fn downscale_to_size(img: &image::DynamicImage, size: u32) -> (r: Vec<u8>)
    requires
        size <= 4096,
    ensures
        r@.len() == size * size * 4,
{
    let resized = img.resize_exact(size, size, image::imageops::FilterType::Triangle);
    resized.to_rgba8().into_raw()
}

/// Decodes a data URI into the fixed 16x16 RGBA sample grid of the image
/// it carries.
pub fn pixels_from_data_uri(uri: &str) -> (r: Result<Vec<u8>, DecodeError>)
    ensures
        r matches Ok(p) ==> data_uri_ok(uri@) && p@.len() == 1024 && (data_uri_payload(uri@)
            matches Some(b) ==> p@ == sample_grid(b)),
        r is Err ==> !data_uri_ok(uri@),
{
    let bytes = match decode_data_uri(uri) {
        Ok(b) => b,
        Err(e) => {
            return Err(e);
        },
    };
    grid_from_bytes(bytes.as_slice())
}

/// Decodes a data URI and measures the absolute luminance of its sample
/// grid.
pub fn process_data_uri(uri: &str) -> (r: Result<u64, DecodeError>)
    ensures
        r is Ok <==> data_uri_ok(uri@),
        r matches Ok(n) ==> n <= L_MAX * FP_ONE && (data_uri_payload(uri@) matches Some(b) ==> n
            == nits_spec(sample_grid(b))),
{
    let pixels = match pixels_from_data_uri(uri) {
        Ok(p) => p,
        Err(e) => {
            return Err(e);
        },
    };
    match average_luma_in_nits(pixels.as_slice()) {
        Ok(n) => {
            proof {
                assert(n == nits_spec(pixels@));
            }
            Ok(n)
        },
        Err(_) => {
            // unreachable: the sample grid's length is a multiple of four
            proof {
                assert(false);
            }
            Err(DecodeError::UnsupportedImage)
        },
    }
}

/// The absolute luminance of the image a data URI carries, or the neutral
/// fallback zero when the URI cannot be decoded.
pub fn average_luma_in_nits_from_data_uri(uri: &str) -> (r: u64)
    ensures
        !data_uri_ok(uri@) ==> r == 0,
        data_uri_ok(uri@) ==> (data_uri_payload(uri@) matches Some(b) ==> r == nits_spec(
            sample_grid(b),
        )),
        r <= L_MAX * FP_ONE,
{
    match process_data_uri(uri) {
        Ok(n) => n,
        Err(_) => 0,
    }
}

/// The nits a dark-mode switch would save on the image a data URI carries,
/// or zero when the URI cannot be decoded.
pub fn estimate_saved_nits_from_data_uri(uri: &str) -> (r: u64)
    ensures
        !data_uri_ok(uri@) ==> r == 0,
        data_uri_ok(uri@) ==> (data_uri_payload(uri@) matches Some(b) ==> r == saved_nits_spec(
            sample_grid(b),
        )),
        r <= L_MAX * FP_ONE,
{
    let pixels = match pixels_from_data_uri(uri) {
        Ok(p) => p,
        Err(_) => {
            return 0;
        },
    };
    match estimate_saved_nits(pixels.as_slice()) {
        Ok(d) => {
            proof {
                assert(d == saved_nits_spec(pixels@));
            }
            d
        },
        Err(_) => {
            // unreachable: the sample grid's length is a multiple of four
            proof {
                assert(false);
            }
            0
        },
    }
}

/// End to end: decodes the data URI, measures the brightness saved by dark
/// mode, and converts it into energy saved over the given display and
/// duration. A URI that cannot be decoded contributes zero brightness
/// delta and so zero energy.
pub fn estimate_saved_energy_wh_from_data_uri(
    display_width: u32,
    display_height: u32,
    hours: u64,
    tech: DisplayTech,
    uri: &str,
) -> (r: u64)
    requires
        saved_energy_wh_spec(display_width, display_height, hours, tech, 250_000_000u64)
            <= u64::MAX,
    ensures
        !data_uri_ok(uri@) ==> r == 0,
        data_uri_ok(uri@) ==> (data_uri_payload(uri@) matches Some(b) ==> r
            == saved_energy_wh_spec(
            display_width,
            display_height,
            hours,
            tech,
            saved_nits_spec(sample_grid(b)) as u64,
        )),
{
    let delta = estimate_saved_nits_from_data_uri(uri);
    proof {
        lemma_saved_energy_monotone(
            display_width,
            display_height,
            hours,
            tech,
            delta,
            250_000_000u64,
        );
    }
    estimate_saved_energy_wh(display_width, display_height, hours, tech, delta)
}

} // verus!
