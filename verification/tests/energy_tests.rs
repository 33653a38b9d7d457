//! The energy-savings model and the unit conversions.

use luma_energy::efficacy_lm_per_w;
use luma_energy::estimate_saved_energy_wh;
use luma_energy::inch_to_meter;
use luma_energy::meter_to_inch;
use luma_energy::DisplayTech;
use luma_energy::EFFICACY_LCD_LM_PER_W;
use luma_energy::EFFICACY_OLED_LM_PER_W;
use luma_energy::FP_ONE;

#[test]
fn inch_meter_roundtrip() {
    let inch_val: u64 = 13_370_000; // 13.37 inches in micro-units
    let meter_val = inch_to_meter(inch_val);
    let inch_back = meter_to_inch(meter_val);
    let diff = inch_back.abs_diff(inch_val) as f64 / FP_ONE as f64;
    assert!(diff < 1e-4, "Inch->Meter->Inch round-trip failed");
}

#[test]
fn inch_to_meter_exact() {
    // 10 inches are exactly 0.254 metres.
    assert_eq!(inch_to_meter(10_000_000), 254_000);
}

#[test]
fn meter_to_inch_exact() {
    // One metre is 10_000 / 254 inches, floored in micro-units.
    assert_eq!(meter_to_inch(1_000_000), 10_000_000_000 / 254);
}

#[test]
fn efficacy_constants_are_positive() {
    assert!(EFFICACY_LCD_LM_PER_W > 0);
    assert!(EFFICACY_OLED_LM_PER_W > 0);
    assert!(efficacy_lm_per_w(DisplayTech::LCD) > 0);
    assert!(efficacy_lm_per_w(DisplayTech::OLED) > 0);
}

#[test]
fn zero_delta_saves_nothing() {
    let e = estimate_saved_energy_wh(100, 100, 5_000_000, DisplayTech::LCD, 0);
    assert_eq!(e, 0);
    let e = estimate_saved_energy_wh(100, 100, 5_000_000, DisplayTech::OLED, 0);
    assert_eq!(e, 0);
}

#[test]
fn zero_area_or_duration_saves_nothing() {
    let full_delta = 250_000_000;
    assert_eq!(
        estimate_saved_energy_wh(0, 10, 1_000_000, DisplayTech::LCD, full_delta),
        0
    );
    assert_eq!(
        estimate_saved_energy_wh(10, 10, 0, DisplayTech::LCD, full_delta),
        0
    );
}

#[test]
fn energy_formula_exact_value() {
    // A 10 x 10 inch LCD at the full 250-nit delta for one hour:
    // area = 0.064516 m^2, flux = pi * 250 * area = 50.67 lm,
    // power = flux / 90, energy over one hour = 0.563008 Wh.
    let e = estimate_saved_energy_wh(10, 10, 1_000_000, DisplayTech::LCD, 250_000_000);
    assert_eq!(e, 563_008);
}

#[test]
fn oled_saves_more_per_nit_than_lcd() {
    // OLED efficacy is lower, so the same delta costs more power there.
    let lcd = estimate_saved_energy_wh(20, 12, 2_000_000, DisplayTech::LCD, 100_000_000);
    let oled = estimate_saved_energy_wh(20, 12, 2_000_000, DisplayTech::OLED, 100_000_000);
    assert!(oled > lcd);
}
