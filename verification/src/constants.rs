//! Fixed configuration values of the colorimetric pipeline.
//!
//! Every scalar in the pipeline is a fixed-point integer in micro-units:
//! the value `v` stands for the real number `v / FP_ONE`.

use vstd::prelude::*;

verus! {

/// One whole unit in the fixed-point representation (six decimal places).
pub const FP_ONE: u64 = 1_000_000;

/// BT.709 luma weight of the red channel (0.2126).
pub const LUMA_WEIGHT_R: u64 = 212_600;

/// BT.709 luma weight of the green channel (0.7152).
pub const LUMA_WEIGHT_G: u64 = 715_200;

/// BT.709 luma weight of the blue channel (0.0722).
pub const LUMA_WEIGHT_B: u64 = 72_200;

/// Reference peak luminance of the display, in nits.
pub const L_MAX: u64 = 250;

/// sRGB curve: encoded values at or below this (0.04045) lie on the linear toe.
pub const SRGB_CUTOFF_ENCODED: u64 = 40_450;

/// sRGB curve: linear values at or below this (0.003130) map to the linear toe.
pub const SRGB_CUTOFF_LINEAR: u64 = 3_130;

/// sRGB curve: slope of the linear toe (12.92).
pub const SRGB_SLOPE: u64 = 12_920_000;

/// sRGB curve: offset of the power segment (0.055).
pub const SRGB_OFFSET: u64 = 55_000;

/// sRGB curve: scale of the power segment (1.055).
pub const SRGB_SCALE: u64 = 1_055_000;

/// Dark mode: pixels whose normalized alpha is below this (0.01) pass through.
pub const ALPHA_THRESHOLD: u64 = 10_000;

/// Dark mode: linear luma below this (0.05) is forced to linear white.
pub const BLACK_THRESHOLD: u64 = 50_000;

/// Side length of the square sample grid an image is downscaled to.
pub const DOWNSCALE_SIZE: u32 = 16;

/// Bytes per RGBA pixel sample.
pub const PIXEL_COMPONENTS: usize = 4;

/// Luminous efficacy of an LCD panel, in micro-lumens per watt (90 lm/W).
pub const EFFICACY_LCD_LM_PER_W: u64 = 90_000_000;

/// Luminous efficacy of an OLED panel, in micro-lumens per watt (25 lm/W).
pub const EFFICACY_OLED_LM_PER_W: u64 = 25_000_000;

/// The circle constant pi in micro-units (3.141593).
pub const PI_FP: u64 = 3_141_593;

/// Metres per inch, as the exact ratio 254 / 10_000.
pub const INCH_TO_METER_NUM: u64 = 254;

/// Denominator of the metres-per-inch ratio.
pub const INCH_TO_METER_DEN: u64 = 10_000;

/// The immutable triple of luma weights, in micro-units.
///
/// The weights are non-negative and sum to exactly `FP_ONE`.
#[derive(Clone, Copy, Debug, PartialEq, Eq, Structural)]
pub struct LumaCoefficients {
    pub r: u64,
    pub g: u64,
    pub b: u64,
}

impl LumaCoefficients {
    /// True when the triple is a proper weighting: it sums to one unit.
    pub open spec fn wf(self) -> bool {
        self.r + self.g + self.b == FP_ONE
    }
}

/// The BT.709 weighting used by the whole pipeline.
pub fn bt_709() -> (w: LumaCoefficients)
    ensures
        w.r == LUMA_WEIGHT_R,
        w.g == LUMA_WEIGHT_G,
        w.b == LUMA_WEIGHT_B,
        w.wf(),
{
    LumaCoefficients { r: LUMA_WEIGHT_R, g: LUMA_WEIGHT_G, b: LUMA_WEIGHT_B }
}

} // verus!
