//! Estimates the screen-brightness impact of switching an RGBA image to a
//! dark colour scheme, and converts that brightness delta into an estimate of
//! the electrical energy a physical display would save.
//!
//! All colorimetric quantities are carried as fixed-point integers in
//! micro-units (one unit = `FP_ONE` = 1_000_000), so that the whole pipeline
//! — sRGB transfer curve, alpha-weighted luminance, dark-mode inversion and
//! the energy model — is exact integer arithmetic with proved contracts.

pub mod constants;
pub mod dark;
pub mod decode;
pub mod energy;
pub mod fixed;
pub mod luminance;
pub mod pixel;
pub mod transfer;

pub use constants::LumaCoefficients;
pub use constants::DOWNSCALE_SIZE;
pub use constants::EFFICACY_LCD_LM_PER_W;
pub use constants::EFFICACY_OLED_LM_PER_W;
pub use constants::FP_ONE;
pub use constants::L_MAX;
pub use dark::dark_mode;
pub use decode::average_luma_in_nits_from_data_uri;
pub use decode::decode_data_uri;
pub use decode::downscale_to_size;
pub use decode::estimate_saved_energy_wh_from_data_uri;
pub use decode::estimate_saved_nits_from_data_uri;
pub use decode::pixels_from_data_uri;
pub use decode::process_data_uri;
pub use decode::DecodeError;
pub use energy::efficacy_lm_per_w;
pub use energy::estimate_saved_energy_wh;
pub use energy::estimate_saved_nits;
pub use energy::inch_to_meter;
pub use energy::meter_to_inch;
pub use energy::DisplayTech;
pub use luminance::average_luma_in_nits;
pub use luminance::average_luma_relative;
pub use luminance::LumaError;
pub use pixel::Rgba;
pub use transfer::forward_transfer;
pub use transfer::inverse_transfer;
