//! The sRGB opto-electronic transfer function and its inverse, in
//! fixed-point arithmetic.
//!
//! Inverse (encoded -> linear): `y = e / 12.92` on the toe, else
//! `y = ((e + 0.055) / 1.055)^2.4`. Forward (linear -> encoded):
//! `e = 12.92 * y` on the toe, else `e = 1.055 * y^(1/2.4) - 0.055`.
//! The fractional powers use exact integer floor roots:
//! `t^2.4 = t^2 * (t^2)^(1/5)` and `y^(1/2.4) = (y^(1/12))^5`, with
//! `y^(1/12)` taken as a cube root followed by two square roots.

use vstd::arithmetic::div_mod::lemma_div_pos_is_pos;
use vstd::arithmetic::mul::lemma_mul_inequality;
use vstd::arithmetic::mul::lemma_mul_inequality_converse;
use vstd::arithmetic::mul::lemma_mul_nonnegative;
use vstd::arithmetic::div_mod::lemma_fundamental_div_mod;
use vstd::arithmetic::div_mod::lemma_mod_bound;
use vstd::prelude::*;

use crate::constants::FP_ONE;
use crate::constants::SRGB_CUTOFF_ENCODED;
use crate::constants::SRGB_CUTOFF_LINEAR;
use crate::constants::SRGB_OFFSET;
use crate::constants::SRGB_SCALE;
use crate::constants::SRGB_SLOPE;
use crate::fixed::fp_cbrt;
use crate::fixed::lemma_iroot_exists;
use crate::fixed::lemma_powi_adds;
use crate::fixed::lemma_powi_base_monotone;
use crate::fixed::lemma_powi_distributes;
use crate::fixed::lemma_powi_exp_mul;
use crate::fixed::lemma_powi_nonneg;
use crate::fixed::lemma_powi_pos;
use crate::fixed::fp_root5;
use crate::fixed::fp_sqrt;
use crate::fixed::iroot;
use crate::fixed::is_iroot;
use crate::fixed::lemma_div_le;
use crate::fixed::lemma_iroot_is;
use crate::fixed::lemma_iroot_le;
use crate::fixed::lemma_powi_base_strict;
use crate::fixed::powi;

verus! {

/// Encoded -> linear, on fixed-point values in `[0, FP_ONE]`.
pub open spec fn inverse_transfer_spec(e: int) -> int {
    let f = FP_ONE as int;
    if e <= SRGB_CUTOFF_ENCODED as int {
        e * f / (SRGB_SLOPE as int)
    } else {
        let t = (e + SRGB_OFFSET as int) * f / (SRGB_SCALE as int);
        let u = t * t / f;
        u * iroot(5, u * f * f * f * f) / f
    }
}

/// Linear -> encoded, on fixed-point values in `[0, FP_ONE]`.
pub open spec fn forward_transfer_spec(y: int) -> int {
    let f = FP_ONE as int;
    if y <= SRGB_CUTOFF_LINEAR as int {
        y * (SRGB_SLOPE as int) / f
    } else {
        let c = iroot(3, y * f * f);
        let s1 = iroot(2, c * f);
        let s2 = iroot(2, s1 * f);
        let p2 = s2 * s2 / f;
        let p4 = p2 * p2 / f;
        let p5 = p4 * s2 / f;
        let raw = (SRGB_SCALE as int) * p5 / f;
        if raw >= SRGB_OFFSET as int {
            raw - SRGB_OFFSET as int
        } else {
            0
        }
    }
}

/// `FP_ONE` to the fifth power, spelled out for the root lemmas.
proof fn lemma_powi_fp_one()
    ensures
        powi(FP_ONE as int, 2) == 1_000_000_000_000,
        powi(FP_ONE as int, 3) == 1_000_000_000_000_000_000,
        powi(FP_ONE as int, 5) == 0xc9f2c9cd04674edea40000000,
{
    reveal_with_fuel(powi, 6);
}

/// Encoded -> linear: computes `inverse_transfer_spec` exactly.
pub fn inverse_transfer(e: u64) -> (r: u64)
    requires
        e <= FP_ONE,
    ensures
        r == inverse_transfer_spec(e as int),
        r <= FP_ONE,
{
    if e <= SRGB_CUTOFF_ENCODED {
        proof {
            lemma_div_pos_is_pos(e as int * FP_ONE, SRGB_SLOPE as int);
            lemma_div_le(e as int * FP_ONE, SRGB_SLOPE as int, FP_ONE as int);
        }
        e * FP_ONE / SRGB_SLOPE
    } else {
        let t: u64 = (e + SRGB_OFFSET) * FP_ONE / SRGB_SCALE;
        proof {
            lemma_div_le((e + SRGB_OFFSET) as int * FP_ONE, SRGB_SCALE as int, FP_ONE as int);
            assert(t as int * t <= 1_000_000_000_000) by (nonlinear_arith)
                requires
                    0 <= t as int <= 1_000_000,
            ;
        }
        let u: u64 = t * t / FP_ONE;
        proof {
            lemma_div_le(t as int * t, FP_ONE as int, FP_ONE as int);
        }
        let v: u64 = fp_root5(u);
        proof {
            assert(u as int * v <= 1_000_000_000_000) by (nonlinear_arith)
                requires
                    0 <= u as int <= 1_000_000,
                    0 <= v as int <= 1_000_000,
            ;
            lemma_div_le(u as int * v, FP_ONE as int, FP_ONE as int);
        }
        let r: u64 = u * v / FP_ONE;
        r
    }
}

/// Linear -> encoded: computes `forward_transfer_spec` exactly.
pub fn forward_transfer(y: u64) -> (r: u64)
    requires
        y <= FP_ONE,
    ensures
        r == forward_transfer_spec(y as int),
        r <= FP_ONE,
{
    if y <= SRGB_CUTOFF_LINEAR {
        proof {
            lemma_div_le(y as int * SRGB_SLOPE, FP_ONE as int, FP_ONE as int);
            lemma_div_pos_is_pos(y as int * SRGB_SLOPE, FP_ONE as int);
        }
        y * SRGB_SLOPE / FP_ONE
    } else {
        let c: u64 = fp_cbrt(y);
        let s1: u64 = fp_sqrt(c);
        let s2: u64 = fp_sqrt(s1);
        proof {
            assert(s2 as int * s2 <= 1_000_000_000_000) by (nonlinear_arith)
                requires
                    0 <= s2 as int <= 1_000_000,
            ;
        }
        let p2: u64 = s2 * s2 / FP_ONE;
        proof {
            lemma_div_le(s2 as int * s2, FP_ONE as int, FP_ONE as int);
            assert(p2 as int * p2 <= 1_000_000_000_000) by (nonlinear_arith)
                requires
                    0 <= p2 as int <= 1_000_000,
            ;
        }
        let p4: u64 = p2 * p2 / FP_ONE;
        proof {
            lemma_div_le(p2 as int * p2, FP_ONE as int, FP_ONE as int);
            assert(p4 as int * s2 <= 1_000_000_000_000) by (nonlinear_arith)
                requires
                    0 <= p4 as int <= 1_000_000,
                    0 <= s2 as int <= 1_000_000,
            ;
        }
        let p5: u64 = p4 * s2 / FP_ONE;
        proof {
            lemma_div_le(p4 as int * s2, FP_ONE as int, FP_ONE as int);
        }
        let raw: u64 = SRGB_SCALE * p5 / FP_ONE;
        proof {
            lemma_div_le(SRGB_SCALE as int * p5, FP_ONE as int, SRGB_SCALE as int);
        }
        if raw >= SRGB_OFFSET {
            raw - SRGB_OFFSET
        } else {
            0
        }
    }
}

/// On the linear toe of the curve the round trip is nearly exact: encoding
/// the decoded value loses at most 13 micro-units, and never overshoots.
pub proof fn lemma_transfer_round_trip_toe(e: int)
    requires
        0 <= e <= SRGB_CUTOFF_ENCODED,
    ensures
        forward_transfer_spec(inverse_transfer_spec(e)) <= e,
        e - forward_transfer_spec(inverse_transfer_spec(e)) <= 13,
{
    let f: int = FP_ONE as int;
    let s: int = SRGB_SLOPE as int;
    let y = e * f / s;
    assert(e * f < s * 3131) by (nonlinear_arith)
        requires
            e <= 40_450,
            s == 12_920_000,
            f == 1_000_000,
    ;
    lemma_div_pos_is_pos(e * f, s);
    vstd::arithmetic::div_mod::lemma_multiply_divide_lt(e * f, s, 3131);
    assert(y <= 3130);
    assert(inverse_transfer_spec(e) == y);
    assert(forward_transfer_spec(y) == y * s / f);
    let fwd = y * s / f;
    lemma_fundamental_div_mod(e * f, s);
    lemma_mod_bound(e * f, s);
    lemma_fundamental_div_mod(y * s, f);
    lemma_mod_bound(y * s, f);
    let r1 = (e * f) % s;
    let r2 = (y * s) % f;
    assert(e * f == s * y + r1);
    assert(y * s == f * fwd + r2);
    assert(f * (e - fwd) == r1 + r2) by (nonlinear_arith)
        requires
            e * f == s * y + r1,
            y * s == f * fwd + r2,
    ;
    assert(0 <= r1 + r2 < s + f);
}

/// The composed twelfth root (cube root, then two square roots) stays at
/// or below the exact twelfth root: `s2^12 <= y * f^11`.
proof fn lemma_twelfth_root_upper(y: int, c: int, s1: int, s2: int, f: int)
    requires
        0 <= y,
        f == 1_000_000,
        is_iroot(3, y * f * f, c),
        is_iroot(2, c * f, s1),
        is_iroot(2, s1 * f, s2),
    ensures
        powi(s2, 12) <= y * powi(f, 11),
{
    lemma_powi_exp_mul(s2, 2, 6);
    lemma_powi_nonneg(s2, 2);
    lemma_powi_base_monotone(powi(s2, 2), s1 * f, 6);
    lemma_powi_distributes(s1, f, 6);
    lemma_powi_exp_mul(s1, 2, 3);
    lemma_powi_nonneg(s1, 2);
    lemma_powi_base_monotone(powi(s1, 2), c * f, 3);
    lemma_powi_distributes(c, f, 3);
    lemma_powi_nonneg(f, 3);
    lemma_mul_inequality(powi(c, 3), y * (f * f), powi(f, 3));
    assert(powi(s1, 6) <= (y * (f * f)) * powi(f, 3));
    lemma_powi_nonneg(f, 6);
    lemma_mul_inequality(powi(s1, 6), (y * (f * f)) * powi(f, 3), powi(f, 6));
    assert(powi(s2, 12) <= ((y * (f * f)) * powi(f, 3)) * powi(f, 6));
    assert(powi(f, 2) == f * (f * 1)) by {
        reveal_with_fuel(powi, 3);
    }
    lemma_powi_adds(f, 2, 3);
    lemma_powi_adds(f, 5, 6);
    assert(((y * (f * f)) * powi(f, 3)) * powi(f, 6) == y * powi(f, 11)) by (nonlinear_arith)
        requires
            powi(f, 2) == f * (f * 1),
            powi(f, 5) == powi(f, 2) * powi(f, 3),
            powi(f, 11) == powi(f, 5) * powi(f, 6),
    ;
}

/// The floored fifth-power chain stays at or below the exact fifth power:
/// `p5 * f^4 <= s2^5`.
proof fn lemma_fifth_power_upper(s2: int, p2: int, p4: int, p5: int, f: int)
    requires
        0 <= s2,
        f == 1_000_000,
        p2 == s2 * s2 / f,
        p4 == p2 * p2 / f,
        p5 == p4 * s2 / f,
    ensures
        0 <= p5,
        p5 * powi(f, 4) <= powi(s2, 5),
{
    lemma_mul_nonnegative(s2, s2);
    lemma_div_pos_is_pos(s2 * s2, f);
    lemma_mul_nonnegative(p2, p2);
    lemma_div_pos_is_pos(p2 * p2, f);
    lemma_mul_nonnegative(p4, s2);
    lemma_div_pos_is_pos(p4 * s2, f);
    lemma_fundamental_div_mod(s2 * s2, f);
    lemma_mod_bound(s2 * s2, f);
    lemma_fundamental_div_mod(p2 * p2, f);
    lemma_mod_bound(p2 * p2, f);
    lemma_fundamental_div_mod(p4 * s2, f);
    lemma_mod_bound(p4 * s2, f);
    assert(p2 * f <= s2 * s2) by (nonlinear_arith)
        requires
            s2 * s2 == f * p2 + (s2 * s2) % f,
            0 <= (s2 * s2) % f,
    ;
    assert(p4 * f <= p2 * p2) by (nonlinear_arith)
        requires
            p2 * p2 == f * p4 + (p2 * p2) % f,
            0 <= (p2 * p2) % f,
    ;
    assert(p5 * f <= p4 * s2) by (nonlinear_arith)
        requires
            p4 * s2 == f * p5 + (p4 * s2) % f,
            0 <= (p4 * s2) % f,
    ;
    assert(p4 * (f * (f * f)) <= s2 * s2 * (s2 * s2)) by (nonlinear_arith)
        requires
            p4 * f <= p2 * p2,
            0 <= p2 * f <= s2 * s2,
            0 < f,
    ;
    assert(p4 * (f * (f * f)) * s2 <= s2 * s2 * (s2 * s2) * s2) by (nonlinear_arith)
        requires
            p4 * (f * (f * f)) <= s2 * s2 * (s2 * s2),
            0 <= s2,
    ;
    assert(p5 * (f * (f * (f * f))) <= p4 * (f * (f * f)) * s2) by (nonlinear_arith)
        requires
            p5 * f <= p4 * s2,
            0 < f,
    ;
    assert(powi(f, 4) == f * (f * (f * (f * 1)))) by {
        reveal_with_fuel(powi, 5);
    }
    assert(powi(s2, 5) == s2 * (s2 * (s2 * (s2 * (s2 * 1))))) by {
        reveal_with_fuel(powi, 6);
    }
    assert(p5 * powi(f, 4) <= powi(s2, 5)) by (nonlinear_arith)
        requires
            p5 * (f * (f * (f * f))) <= p4 * (f * (f * f)) * s2,
            p4 * (f * (f * f)) * s2 <= s2 * s2 * (s2 * s2) * s2,
            powi(f, 4) == f * (f * (f * (f * 1))),
            powi(s2, 5) == s2 * (s2 * (s2 * (s2 * (s2 * 1)))),
    ;
}

/// The decoded value's fifth power stays at or below the exact power of
/// the curve's base: `y^5 * f^7 <= t^12`.
proof fn lemma_decode_power_upper(t: int, u: int, v: int, y: int, f: int)
    requires
        0 <= t,
        f == 1_000_000,
        u == t * t / f,
        is_iroot(5, u * f * f * f * f, v),
        y == u * v / f,
    ensures
        0 <= y,
        powi(y, 5) * powi(f, 7) <= powi(t, 12),
{
    lemma_mul_nonnegative(t, t);
    lemma_div_pos_is_pos(t * t, f);
    lemma_mul_nonnegative(u, v);
    lemma_div_pos_is_pos(u * v, f);
    lemma_fundamental_div_mod(u * v, f);
    lemma_mod_bound(u * v, f);
    assert(y * f <= u * v) by (nonlinear_arith)
        requires
            u * v == f * y + (u * v) % f,
            0 <= (u * v) % f,
    ;
    lemma_mul_nonnegative(y, f);
    lemma_powi_base_monotone(y * f, u * v, 5);
    lemma_powi_distributes(y, f, 5);
    lemma_powi_distributes(u, v, 5);
    lemma_powi_nonneg(u, 5);
    lemma_mul_inequality(powi(v, 5), u * f * f * f * f, powi(u, 5));
    assert(powi(u, 1) == u * 1) by {
        reveal_with_fuel(powi, 2);
    }
    lemma_powi_adds(u, 5, 1);
    assert(powi(f, 1) == f * 1) by {
        reveal_with_fuel(powi, 2);
    }
    lemma_powi_adds(f, 4, 1);
    assert(powi(f, 4) == f * (f * (f * (f * 1)))) by {
        reveal_with_fuel(powi, 5);
    }
    assert((powi(y, 5) * f) * powi(f, 4) <= powi(u, 6) * powi(f, 4)) by (nonlinear_arith)
        requires
            powi(y, 5) * powi(f, 5) <= powi(u * v, 5),
            powi(u * v, 5) == powi(u, 5) * powi(v, 5),
            powi(v, 5) * powi(u, 5) <= (u * f * f * f * f) * powi(u, 5),
            powi(u, 6) == powi(u, 5) * (u * 1),
            powi(f, 5) == powi(f, 4) * (f * 1),
            powi(f, 4) == f * (f * (f * (f * 1))),
    ;
    lemma_powi_pos(f, 4);
    lemma_mul_inequality_converse(powi(y, 5) * f, powi(u, 6), powi(f, 4));
    lemma_fundamental_div_mod(t * t, f);
    lemma_mod_bound(t * t, f);
    assert(u * f <= t * t) by (nonlinear_arith)
        requires
            t * t == f * u + (t * t) % f,
            0 <= (t * t) % f,
    ;
    lemma_mul_nonnegative(u, f);
    lemma_powi_base_monotone(u * f, t * t, 6);
    lemma_powi_distributes(u, f, 6);
    assert(powi(t, 2) == t * (t * 1)) by {
        reveal_with_fuel(powi, 3);
    }
    lemma_powi_exp_mul(t, 2, 6);
    assert(powi(t * t, 6) == powi(t, 12)) by {
        assert(t * t == powi(t, 2));
    }
    lemma_powi_adds(f, 1, 6);
    lemma_powi_nonneg(f, 6);
    lemma_mul_inequality(powi(y, 5) * f, powi(u, 6), powi(f, 6));
    assert(powi(y, 5) * powi(f, 7) <= powi(u, 6) * powi(f, 6)) by (nonlinear_arith)
        requires
            (powi(y, 5) * f) * powi(f, 6) <= powi(u, 6) * powi(f, 6),
            powi(f, 7) == powi(f, 1) * powi(f, 6),
            powi(f, 1) == f * 1,
    ;
    assert(powi(u, 6) * powi(f, 6) <= powi(t, 12));
}

/// The full-range half of the round-trip contract: re-encoding the decoded
/// value never overshoots the original encoded value, anywhere in `[0, 1]`.
/// Every floor in the fixed-point pipeline rounds downward, so the composed
/// error is one-sided.
pub proof fn lemma_transfer_round_trip_no_overshoot(e: int)
    requires
        0 <= e <= FP_ONE,
    ensures
        forward_transfer_spec(inverse_transfer_spec(e)) <= e,
{
    let f: int = FP_ONE as int;
    if e <= SRGB_CUTOFF_ENCODED as int {
        lemma_transfer_round_trip_toe(e);
    } else {
        let g: int = SRGB_SCALE as int;
        let t = (e + SRGB_OFFSET as int) * f / g;
        let u = t * t / f;
        let v = iroot(5, u * f * f * f * f);
        let y = u * v / f;
        assert(inverse_transfer_spec(e) == y);
        lemma_div_le((e + SRGB_OFFSET as int) * f, g, f);
        assert(t * t <= 1_000_000_000_000) by (nonlinear_arith)
            requires
                0 <= t <= 1_000_000,
        ;
        lemma_div_le(t * t, f, f);
        lemma_powi_fp_one();
        lemma_iroot_exists(5, u * f * f * f * f);
        assert(is_iroot(5, u * f * f * f * f, v));
        lemma_iroot_le(5, u * f * f * f * f, f);
        assert(u * v <= 1_000_000_000_000) by (nonlinear_arith)
            requires
                0 <= u <= 1_000_000,
                0 <= v <= 1_000_000,
        ;
        lemma_mul_nonnegative(u, v);
        lemma_div_le(u * v, f, f);
        if y <= SRGB_CUTOFF_LINEAR as int {
            assert(forward_transfer_spec(y) == y * (SRGB_SLOPE as int) / f);
            lemma_div_pos_is_pos(y * (SRGB_SLOPE as int), f);
            lemma_div_le(y * (SRGB_SLOPE as int), f, 40_440);
        } else {
            let c = iroot(3, y * f * f);
            let s1 = iroot(2, c * f);
            let s2 = iroot(2, s1 * f);
            let p2 = s2 * s2 / f;
            let p4 = p2 * p2 / f;
            let p5 = p4 * s2 / f;
            let raw = g * p5 / f;
            lemma_iroot_exists(3, y * f * f);
            assert(is_iroot(3, y * f * f, c));
            lemma_iroot_le(3, y * f * f, f);
            lemma_iroot_exists(2, c * f);
            assert(is_iroot(2, c * f, s1));
            lemma_iroot_le(2, c * f, f);
            lemma_iroot_exists(2, s1 * f);
            assert(is_iroot(2, s1 * f, s2));
            lemma_iroot_le(2, s1 * f, f);
            lemma_twelfth_root_upper(y, c, s1, s2, f);
            lemma_fifth_power_upper(s2, p2, p4, p5, f);
            lemma_decode_power_upper(t, u, v, y, f);
            lemma_powi_nonneg(f, 4);
            lemma_mul_nonnegative(p5, powi(f, 4));
            lemma_powi_base_monotone(p5 * powi(f, 4), powi(s2, 5), 12);
            lemma_powi_exp_mul(s2, 5, 12);
            lemma_powi_exp_mul(s2, 12, 5);
            lemma_powi_nonneg(s2, 12);
            lemma_powi_base_monotone(powi(s2, 12), y * powi(f, 11), 5);
            lemma_powi_distributes(y, powi(f, 11), 5);
            lemma_powi_exp_mul(f, 11, 5);
            lemma_powi_distributes(p5, powi(f, 4), 12);
            lemma_powi_exp_mul(f, 4, 12);
            lemma_powi_adds(f, 7, 48);
            assert(powi(p5, 12) * powi(f, 48) <= (powi(y, 5) * powi(f, 7)) * powi(f, 48)) by (
            nonlinear_arith)
                requires
                    powi(p5, 12) * powi(f, 48) <= powi(y, 5) * powi(f, 55),
                    powi(f, 55) == powi(f, 7) * powi(f, 48),
            ;
            lemma_powi_pos(f, 48);
            lemma_mul_inequality_converse(
                powi(p5, 12),
                powi(y, 5) * powi(f, 7),
                powi(f, 48),
            );
            assert(powi(p5, 12) <= powi(t, 12));
            if p5 > t {
                lemma_powi_base_strict(t, p5, 12);
                assert(false);
            }
            lemma_fundamental_div_mod((e + SRGB_OFFSET as int) * f, g);
            lemma_mod_bound((e + SRGB_OFFSET as int) * f, g);
            assert(g * p5 <= (e + SRGB_OFFSET as int) * f) by (nonlinear_arith)
                requires
                    p5 <= t,
                    (e + SRGB_OFFSET as int) * f == g * t + ((e + SRGB_OFFSET as int) * f) % g,
                    0 <= ((e + SRGB_OFFSET as int) * f) % g,
                    0 < g,
            ;
            assert(0 <= g * p5) by (nonlinear_arith)
                requires
                    0 <= p5,
                    0 < g,
            ;
            lemma_div_le(g * p5, f, e + SRGB_OFFSET as int);
            assert(raw <= e + SRGB_OFFSET);
        }
    }
}

/// On the linear toe the opposite round trip is nearly exact too:
/// decoding the encoded value loses at most one micro-unit.
pub proof fn lemma_transfer_round_trip_toe_linear(y: int)
    requires
        0 <= y <= SRGB_CUTOFF_LINEAR,
    ensures
        inverse_transfer_spec(forward_transfer_spec(y)) <= y,
        y - inverse_transfer_spec(forward_transfer_spec(y)) <= 1,
{
    let f: int = FP_ONE as int;
    let s: int = SRGB_SLOPE as int;
    let e = y * s / f;
    lemma_div_pos_is_pos(y * s, f);
    lemma_div_le(y * s, f, 40_450);
    assert(forward_transfer_spec(y) == e);
    assert(inverse_transfer_spec(e) == e * f / s);
    let back = e * f / s;
    lemma_fundamental_div_mod(y * s, f);
    lemma_mod_bound(y * s, f);
    lemma_fundamental_div_mod(e * f, s);
    lemma_mod_bound(e * f, s);
    let r1 = (y * s) % f;
    let r2 = (e * f) % s;
    assert(y * s == f * e + r1);
    assert(e * f == s * back + r2);
    assert(s * (y - back) == r1 + r2) by (nonlinear_arith)
        requires
            y * s == f * e + r1,
            e * f == s * back + r2,
    ;
    assert(0 <= r1 + r2 < f + s);
}

/// Pure white decodes to exactly one linear unit.
pub proof fn lemma_inverse_transfer_white()
    ensures
        inverse_transfer_spec(FP_ONE as int) == FP_ONE,
{
    let f: int = FP_ONE as int;
    let t = (f + SRGB_OFFSET) * f / SRGB_SCALE as int;
    assert(t == f);
    let u = t * t / f;
    assert(t * t == 1_000_000_000_000) by (nonlinear_arith)
        requires
            t == 1_000_000,
    ;
    assert(u == f);
    lemma_powi_fp_one();
    assert(is_iroot(5, u * f * f * f * f, f)) by {
        lemma_powi_base_strict(f, f + 1, 5);
    }
    lemma_iroot_is(5, u * f * f * f * f, f);
    assert(u * iroot(5, u * f * f * f * f) / f == f) by (nonlinear_arith)
        requires
            u == 1_000_000,
            iroot(5, u * f * f * f * f) == 1_000_000,
            f == 1_000_000,
    ;
}

/// Pure black decodes to exactly zero.
pub proof fn lemma_inverse_transfer_black()
    ensures
        inverse_transfer_spec(0) == 0,
{
}

/// One linear unit encodes back to exactly pure white.
pub proof fn lemma_forward_transfer_white()
    ensures
        forward_transfer_spec(FP_ONE as int) == FP_ONE,
{
    let f: int = FP_ONE as int;
    lemma_powi_fp_one();
    assert(is_iroot(3, f * f * f, f)) by {
        lemma_powi_base_strict(f, f + 1, 3);
        assert(powi(f, 3) == f * f * f) by (nonlinear_arith)
            requires
                powi(f, 3) == 1_000_000_000_000_000_000,
                f == 1_000_000,
        ;
    }
    lemma_iroot_is(3, f * f * f, f);
    assert(is_iroot(2, f * f, f)) by {
        lemma_powi_base_strict(f, f + 1, 2);
        assert(powi(f, 2) == f * f) by (nonlinear_arith)
            requires
                powi(f, 2) == 1_000_000_000_000,
                f == 1_000_000,
        ;
    }
    lemma_iroot_is(2, f * f, f);
    assert(f * f / f == f) by (nonlinear_arith)
        requires
            f == 1_000_000,
    ;
}

} // verus!
