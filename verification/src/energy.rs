//! The physical energy-savings model: a brightness delta over a display of
//! known geometry and panel technology becomes an estimate of electrical
//! energy saved.
//!
//! The panel is treated as a Lambertian emitter: luminous flux saved is
//! `pi * delta_nits * area`; dividing by the panel's luminous efficacy
//! gives power, and multiplying by the usage duration gives energy in
//! watt-hours.

use vstd::arithmetic::div_mod::lemma_div_is_ordered;
use vstd::arithmetic::div_mod::lemma_div_pos_is_pos;
use vstd::arithmetic::div_mod::lemma_fundamental_div_mod;
use vstd::arithmetic::mul::lemma_mul_inequality;
use vstd::arithmetic::mul::lemma_mul_nonnegative;
use vstd::prelude::*;

use crate::constants::EFFICACY_LCD_LM_PER_W;
use crate::constants::EFFICACY_OLED_LM_PER_W;
use crate::constants::FP_ONE;
use crate::constants::INCH_TO_METER_DEN;
use crate::constants::INCH_TO_METER_NUM;
use crate::constants::L_MAX;
use crate::constants::PI_FP;
use crate::dark::dark_bytes_spec;
use crate::dark::dark_mode;
use crate::fixed::lemma_div_le;
use crate::luminance::average_luma_in_nits;
use crate::luminance::nits_spec;
use crate::luminance::LumaError;

verus! {

/// The display's panel technology, which fixes its luminous efficacy.
#[derive(Clone, Copy, Debug, PartialEq, Eq, Structural)]
pub enum DisplayTech {
    LCD,
    OLED,
}

/// Luminous efficacy of a panel technology, in micro-lumens per watt.
pub open spec fn efficacy_spec(tech: DisplayTech) -> int {
    match tech {
        DisplayTech::LCD => EFFICACY_LCD_LM_PER_W as int,
        DisplayTech::OLED => EFFICACY_OLED_LM_PER_W as int,
    }
}

/// The efficacy constant of the given technology; always positive.
pub fn efficacy_lm_per_w(tech: DisplayTech) -> (e: u64)
    ensures
        e == efficacy_spec(tech),
        e > 0,
{
    match tech {
        DisplayTech::LCD => EFFICACY_LCD_LM_PER_W,
        DisplayTech::OLED => EFFICACY_OLED_LM_PER_W,
    }
}

/// Inches to metres on fixed-point values: multiply by 254 / 10_000.
pub fn inch_to_meter(n: u64) -> (r: u64)
    ensures
        r == n * (INCH_TO_METER_NUM as int) / (INCH_TO_METER_DEN as int),
        r <= n,
{
    proof {
        lemma_div_le(n as int * 254, 10_000, n as int);
    }
    (n as u128 * INCH_TO_METER_NUM as u128 / INCH_TO_METER_DEN as u128) as u64
}

/// Metres to inches on fixed-point values: multiply by 10_000 / 254.
///
/// The argument bound is what keeps the result inside a 64-bit word.
pub fn meter_to_inch(n: u64) -> (r: u64)
    requires
        n <= 460_000_000_000_000_000,
    ensures
        r == n * (INCH_TO_METER_DEN as int) / (INCH_TO_METER_NUM as int),
{
    proof {
        lemma_div_le(n as int * 10_000, 254, u64::MAX as int);
    }
    (n as u128 * INCH_TO_METER_DEN as u128 / INCH_TO_METER_NUM as u128) as u64
}

/// The energy-savings formula: display width and height in whole inches,
/// usage duration in fixed-point hours, brightness delta in fixed-point
/// nits; the result is fixed-point watt-hours.
pub open spec fn saved_energy_wh_spec(
    width_in: u32,
    height_in: u32,
    hours: u64,
    tech: DisplayTech,
    delta_nits: u64,
) -> int {
    let f = FP_ONE as int;
    let wm = (width_in as int * f) * 254 / 10_000;
    let hm = (height_in as int * f) * 254 / 10_000;
    let area = wm * hm / f;
    let lm1 = (PI_FP as int) * delta_nits / f;
    let lm = lm1 * area / f;
    let pw = lm * f / efficacy_spec(tech);
    pw * hours / f
}

/// Every stage of the formula is non-negative, and the result grows with
/// the brightness delta.
pub proof fn lemma_saved_energy_monotone(
    width_in: u32,
    height_in: u32,
    hours: u64,
    tech: DisplayTech,
    d1: u64,
    d2: u64,
)
    requires
        d1 <= d2,
    ensures
        0 <= saved_energy_wh_spec(width_in, height_in, hours, tech, d1) <= saved_energy_wh_spec(
            width_in,
            height_in,
            hours,
            tech,
            d2,
        ),
{
    let f = FP_ONE as int;
    let wm = (width_in as int * f) * 254 / 10_000;
    let hm = (height_in as int * f) * 254 / 10_000;
    lemma_div_pos_is_pos(width_in as int * f * 254, 10_000);
    lemma_div_pos_is_pos(height_in as int * f * 254, 10_000);
    lemma_mul_nonnegative(wm, hm);
    let area = wm * hm / f;
    lemma_div_pos_is_pos(wm * hm, f);
    let lm1a = (PI_FP as int) * d1 / f;
    let lm1b = (PI_FP as int) * d2 / f;
    lemma_div_pos_is_pos((PI_FP as int) * d1, f);
    lemma_div_is_ordered((PI_FP as int) * d1, (PI_FP as int) * d2, f);
    let lma = lm1a * area / f;
    let lmb = lm1b * area / f;
    lemma_mul_nonnegative(lm1a, area);
    lemma_div_pos_is_pos(lm1a * area, f);
    lemma_mul_inequality(lm1a, lm1b, area);
    lemma_div_is_ordered(lm1a * area, lm1b * area, f);
    let pwa = lma * f / efficacy_spec(tech);
    let pwb = lmb * f / efficacy_spec(tech);
    lemma_div_pos_is_pos(lma * f, efficacy_spec(tech));
    lemma_div_is_ordered(lma * f, lmb * f, efficacy_spec(tech));
    lemma_mul_nonnegative(pwa, hours as int);
    lemma_div_pos_is_pos(pwa * hours, f);
    lemma_mul_inequality(pwa, pwb, hours as int);
    lemma_div_is_ordered(pwa * hours, pwb * hours, f);
}

/// Estimated energy saved, in fixed-point watt-hours.
///
/// The delta is a nits difference already floored at zero upstream, so it
/// never exceeds the peak luminance; the formula bound is what machine
/// words force. A zero delta — dark mode saving nothing — yields zero, and
/// the result is never negative.
pub fn estimate_saved_energy_wh(
    width_in: u32,
    height_in: u32,
    hours: u64,
    tech: DisplayTech,
    delta_nits: u64,
) -> (r: u64)
    requires
        delta_nits <= L_MAX * FP_ONE,
        saved_energy_wh_spec(width_in, height_in, hours, tech, delta_nits) <= u64::MAX,
    ensures
        r == saved_energy_wh_spec(width_in, height_in, hours, tech, delta_nits),
        delta_nits == 0 ==> r == 0,
{
    let f: u128 = FP_ONE as u128;
    let wm: u128 = width_in as u128 * f * 254 / 10_000;
    let hm: u128 = height_in as u128 * f * 254 / 10_000;
    proof {
        lemma_div_le(width_in as int * FP_ONE * 254, 10_000, 200_000_000_000_000);
        lemma_div_le(height_in as int * FP_ONE * 254, 10_000, 200_000_000_000_000);
        assert(wm as int * hm <= 40_000_000_000_000_000_000_000_000_000) by (nonlinear_arith)
            requires
                0 <= wm as int <= 200_000_000_000_000,
                0 <= hm as int <= 200_000_000_000_000,
        ;
    }
    let area: u128 = wm * hm / f;
    let eff = efficacy_lm_per_w(tech);
    let lm1: u128 = PI_FP as u128 * delta_nits as u128 / f;
    proof {
        lemma_div_le(wm as int * hm, FP_ONE as int, 40_000_000_000_000_000_000_000);
        lemma_div_le(PI_FP as int * delta_nits, FP_ONE as int, 800_000_000);
        assert(lm1 as int * area <= 32_000_000_000_000_000_000_000_000_000_000) by (
        nonlinear_arith)
            requires
                0 <= lm1 as int <= 800_000_000,
                0 <= area as int <= 40_000_000_000_000_000_000_000,
        ;
    }
    let lm: u128 = lm1 * area / f;
    proof {
        lemma_div_le(lm1 as int * area, FP_ONE as int, 32_000_000_000_000_000_000_000_000);
    }
    let pw: u128 = lm * f / eff as u128;
    proof {
        lemma_div_pos_is_pos(lm as int * FP_ONE, eff as int);
        let spec_r = saved_energy_wh_spec(width_in, height_in, hours, tech, delta_nits);
        lemma_fundamental_div_mod(pw as int * hours, FP_ONE as int);
        vstd::arithmetic::div_mod::lemma_mod_bound(pw as int * hours, FP_ONE as int);
        assert(pw as int * hours == FP_ONE * spec_r + (pw as int * hours) % (FP_ONE as int));
        assert(pw as int * hours <= FP_ONE * (u64::MAX as int) + FP_ONE);
    }
    let energy: u128 = pw * hours as u128 / f;
    proof {
        lemma_div_pos_is_pos(pw as int * hours, FP_ONE as int);
        if delta_nits == 0 {
            assert(lm1 == 0);
            assert(lm1 as int * area == 0) by (nonlinear_arith)
                requires
                    lm1 as int == 0,
            ;
            assert(lm == 0);
            lemma_div_le(0, eff as int, 0);
            assert(pw == 0);
            assert(pw as int * hours == 0) by (nonlinear_arith)
                requires
                    pw as int == 0,
            ;
            assert(energy == 0);
        }
    }
    energy as u64
}

/// The difference between the buffer's absolute luminance and that of its
/// dark-mode transform, floored at zero.
pub open spec fn saved_nits_spec(s: Seq<u8>) -> int {
    let before = nits_spec(s);
    let after = nits_spec(dark_bytes_spec(s));
    if before > after {
        before - after
    } else {
        0
    }
}

/// A non-empty buffer of opaque white pixels — an all-white page — saves
/// the whole peak luminance: it sits at `L_MAX` nits and dark mode turns
/// it pure black.
pub proof fn lemma_saved_nits_all_white(s: Seq<u8>)
    requires
        s.len() % 4 == 0,
        s.len() > 0,
        forall|i: int|
            0 <= i < crate::luminance::pixels_of(s).len() ==> #[trigger] crate::luminance::pixels_of(
                s,
            )[i] == (255u8, 255u8, 255u8, 255u8),
    ensures
        saved_nits_spec(s) == L_MAX * FP_ONE,
{
    vstd::arithmetic::div_mod::lemma_fundamental_div_mod(s.len() as int, 4);
    assert(s.len() >= 4);
    assert(crate::luminance::uniform_rgb(s, 255, 255, 255));
    assert(crate::luminance::pixels_of(s)[0] == (s[0], s[1], s[2], s[3]));
    assert(s[3] == 255);
    crate::luminance::lemma_sum_bounds(s.skip(4));
    assert(crate::luminance::alpha_sum(s) >= crate::pixel::norm_fp(s[3]));
    assert(crate::pixel::norm_fp(255u8) == FP_ONE);
    crate::luminance::lemma_nits_all_white(s);
    let d = dark_bytes_spec(s);
    assert(d.len() == s.len());
    crate::dark::lemma_dark_bytes_pixels(s);
    crate::dark::lemma_dark_pixel_white_to_black();
    assert forall|i: int| 0 <= i < crate::luminance::pixels_of(d).len() implies {
        let p = #[trigger] crate::luminance::pixels_of(d)[i];
        p.0 == 0 && p.1 == 0 && p.2 == 0
    } by {
        assert(crate::luminance::pixels_of(s)[i] == (255u8, 255u8, 255u8, 255u8));
        assert(crate::luminance::pixels_of(d)[i] == crate::dark::dark_pixel_spec(
            255,
            255,
            255,
            255,
        ));
    }
    assert(crate::luminance::uniform_rgb(d, 0, 0, 0));
    crate::luminance::lemma_nits_all_black(d);
}

/// Nits saved by switching the buffer to dark mode: before-mode brightness
/// minus after-mode brightness, floored at zero.
pub fn estimate_saved_nits(pixels: &[u8]) -> (r: Result<u64, LumaError>)
    ensures
        (pixels@.len() % 4 == 0) <==> r is Ok,
        r matches Ok(d) ==> d == saved_nits_spec(pixels@) && d <= L_MAX * FP_ONE,
        r matches Err(e) ==> e == LumaError::InvalidBufferLength,
{
    match average_luma_in_nits(pixels) {
        Err(e) => Err(e),
        Ok(before) => {
            let transformed = match dark_mode(pixels) {
                Ok(out) => out,
                Err(_) => {
                    // unreachable: the buffer's length was already accepted
                    proof {
                        assert(false);
                    }
                    return Err(LumaError::InvalidBufferLength);
                },
            };
            let after = match average_luma_in_nits(transformed.as_slice()) {
                Ok(a) => a,
                Err(_) => {
                    // unreachable: the buffer's length was already accepted
                    proof {
                        assert(false);
                    }
                    return Err(LumaError::InvalidBufferLength);
                },
            };
            if before > after {
                Ok(before - after)
            } else {
                Ok(0)
            }
        },
    }
}

} // verus!
