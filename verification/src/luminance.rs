//! Alpha-weighted relative luminance of an RGBA pixel buffer, and its
//! conversion to absolute luminance in nits.
//!
//! Per pixel, luma is the BT.709-weighted sum of the normalized channels,
//! computed in encoded (gamma) space; alpha weights each pixel's
//! contribution. The aggregate is `sum(luma * alpha) / sum(alpha)`, or zero
//! for a fully transparent (or empty) buffer.

use vstd::arithmetic::div_mod::lemma_div_multiples_vanish;
use vstd::arithmetic::div_mod::lemma_div_pos_is_pos;
use vstd::arithmetic::mul::lemma_mul_is_commutative;
use vstd::arithmetic::mul::lemma_mul_is_distributive_add_other_way;
use vstd::prelude::*;

use crate::constants::bt_709;
use crate::constants::FP_ONE;
use crate::constants::LUMA_WEIGHT_B;
use crate::constants::LUMA_WEIGHT_G;
use crate::constants::LUMA_WEIGHT_R;
use crate::constants::L_MAX;
use crate::fixed::lemma_div_le;
use crate::pixel::norm_fp;
use crate::pixel::Rgba;
use crate::transfer::inverse_transfer;
use crate::transfer::inverse_transfer_spec;

verus! {

/// The error a pixel-consuming operation raises on a malformed buffer.
#[derive(Clone, Copy, Debug, PartialEq, Eq, Structural)]
pub enum LumaError {
    /// The buffer's byte length is not a multiple of four.
    InvalidBufferLength,
}

/// Encoded-space luma of one pixel: the BT.709-weighted channel average.
pub open spec fn pixel_luma_fp(r: u8, g: u8, b: u8) -> int {
    (LUMA_WEIGHT_R as int * norm_fp(r) + LUMA_WEIGHT_G as int * norm_fp(g) + LUMA_WEIGHT_B as int
        * norm_fp(b)) / (FP_ONE as int)
}

/// Pixel luma stays within one fixed-point unit.
pub proof fn lemma_pixel_luma_bounds(r: u8, g: u8, b: u8)
    ensures
        0 <= pixel_luma_fp(r, g, b) <= FP_ONE,
{
    crate::pixel::lemma_norm_fp_bounds(r);
    crate::pixel::lemma_norm_fp_bounds(g);
    crate::pixel::lemma_norm_fp_bounds(b);
    let total = LUMA_WEIGHT_R as int * norm_fp(r) + LUMA_WEIGHT_G as int * norm_fp(g)
        + LUMA_WEIGHT_B as int * norm_fp(b);
    lemma_div_pos_is_pos(total, FP_ONE as int);
    lemma_div_le(total, FP_ONE as int, FP_ONE as int);
}

/// Sum of `pixel_luma * alpha` over the buffer, in squared micro-units.
pub open spec fn weighted_luma_sum(s: Seq<u8>) -> int
    decreases s.len(),
{
    if s.len() < 4 {
        0
    } else {
        pixel_luma_fp(s[0], s[1], s[2]) * norm_fp(s[3]) + weighted_luma_sum(s.skip(4))
    }
}

/// Sum of the normalized alphas over the buffer.
pub open spec fn alpha_sum(s: Seq<u8>) -> int
    decreases s.len(),
{
    if s.len() < 4 {
        0
    } else {
        norm_fp(s[3]) + alpha_sum(s.skip(4))
    }
}

/// The alpha-weighted average luma of the buffer, or zero when no pixel
/// carries weight.
pub open spec fn average_luma_spec(s: Seq<u8>) -> int {
    if alpha_sum(s) == 0 {
        0
    } else {
        weighted_luma_sum(s) / alpha_sum(s)
    }
}

/// Both sums are non-negative, and the weighted sum is at most
/// `FP_ONE` times the total weight.
pub proof fn lemma_sum_bounds(s: Seq<u8>)
    ensures
        0 <= alpha_sum(s),
        0 <= weighted_luma_sum(s) <= alpha_sum(s) * FP_ONE,
    decreases s.len(),
{
    if s.len() < 4 {
    } else {
        lemma_sum_bounds(s.skip(4));
        lemma_pixel_luma_bounds(s[0], s[1], s[2]);
        crate::pixel::lemma_norm_fp_bounds(s[3]);
        let y = pixel_luma_fp(s[0], s[1], s[2]);
        let a = norm_fp(s[3]);
        assert(0 <= y * a <= FP_ONE as int * a) by (nonlinear_arith)
            requires
                0 <= y <= FP_ONE as int,
                0 <= a,
        ;
        assert((a + alpha_sum(s.skip(4))) * FP_ONE == a * FP_ONE + alpha_sum(s.skip(4)) * FP_ONE)
            by {
            lemma_mul_is_distributive_add_other_way(
                FP_ONE as int,
                a,
                alpha_sum(s.skip(4)),
            );
        }
        assert(FP_ONE as int * a == a * FP_ONE) by {
            lemma_mul_is_commutative(FP_ONE as int, a);
        }
    }
}

/// The alpha-weighted average relative luminance of an RGBA buffer, as a
/// fixed-point value in `[0, FP_ONE]`.
///
/// The byte length must be a multiple of four; any other length is rejected
/// with `InvalidBufferLength` and never produces a value.
pub fn average_luma_relative(pixels: &[u8]) -> (r: Result<u64, LumaError>)
    ensures
        (pixels@.len() % 4 == 0) <==> r is Ok,
        r matches Ok(v) ==> v == average_luma_spec(pixels@) && v <= FP_ONE,
        r matches Err(e) ==> e == LumaError::InvalidBufferLength,
{
    if pixels.len() % 4 != 0 {
        return Err(LumaError::InvalidBufferLength);
    }
    let n = pixels.len() / 4;
    let w = bt_709();
    let mut num: u128 = 0;
    let mut den: u128 = 0;
    let mut i: usize = 0;
    proof {
        assert(pixels@.skip(0) =~= pixels@);
    }
    while i < n
        invariant
            pixels@.len() <= usize::MAX,
            pixels@.len() % 4 == 0,
            n == pixels@.len() / 4,
            i <= n,
            w.r == LUMA_WEIGHT_R && w.g == LUMA_WEIGHT_G && w.b == LUMA_WEIGHT_B,
            num + weighted_luma_sum(pixels@.skip(4 * i)) == weighted_luma_sum(pixels@),
            den + alpha_sum(pixels@.skip(4 * i)) == alpha_sum(pixels@),
            num <= den * FP_ONE,
            den <= i * FP_ONE,
        decreases n - i,
    {
        let ghost tail = pixels@.skip(4 * i as int);
        proof {
            vstd::arithmetic::div_mod::lemma_fundamental_div_mod(pixels@.len() as int, 4);
            assert(pixels@.len() == 4 * n);
            assert(4 * (i as int) + 4 <= 4 * (n as int));
            assert(tail.len() >= 4);
            lemma_sum_bounds(tail);
            lemma_sum_bounds(tail.skip(4));
        }
        let base = 4 * i;
        let px = Rgba::from_slice(&pixels[base..base + 4]);
        let (nr, ng, nb, na) = px.normalized();
        let y: u64 = (w.r * nr + w.g * ng + w.b * nb) / FP_ONE;
        proof {
            assert(px.r == tail[0] && px.g == tail[1] && px.b == tail[2] && px.a == tail[3]);
            lemma_pixel_luma_bounds(px.r, px.g, px.b);
            assert(y == pixel_luma_fp(tail[0], tail[1], tail[2]));
            assert(tail.skip(4) =~= pixels@.skip(4 * (i + 1)));
            assert(weighted_luma_sum(tail) == y * norm_fp(tail[3]) + weighted_luma_sum(
                tail.skip(4),
            ));
            assert(y as int * na <= 1_000_000_000_000) by (nonlinear_arith)
                requires
                    0 <= y as int <= 1_000_000,
                    0 <= na as int <= 1_000_000,
            ;
            assert(y as int * na <= FP_ONE as int * na) by (nonlinear_arith)
                requires
                    0 <= y as int <= FP_ONE as int,
                    0 <= na,
            ;
            assert(num + y as int * na <= (den + na) * FP_ONE) by (nonlinear_arith)
                requires
                    num <= den * FP_ONE as int,
                    y as int * na <= FP_ONE as int * na,
                    0 <= na,
            ;
            assert(den * FP_ONE <= i as int * 1_000_000 * 1_000_000) by (nonlinear_arith)
                requires
                    den <= i as int * FP_ONE as int,
                    FP_ONE == 1_000_000u64,
            ;
        }
        num = num + (y as u128) * (na as u128);
        den = den + na as u128;
        i = i + 1;
    }
    proof {
        assert(pixels@.skip(4 * n as int).len() == 0);
        assert(num == weighted_luma_sum(pixels@));
        assert(den == alpha_sum(pixels@));
    }
    if den == 0 {
        Ok(0)
    } else {
        proof {
            lemma_div_le(num as int, den as int, FP_ONE as int);
        }
        Ok((num / den) as u64)
    }
}

/// The buffer read as a sequence of pixel quadruples.
pub open spec fn pixels_of(s: Seq<u8>) -> Seq<(u8, u8, u8, u8)> {
    Seq::new((s.len() / 4) as nat, |i: int| (s[4 * i], s[4 * i + 1], s[4 * i + 2], s[4 * i + 3]))
}

/// Every pixel of the buffer carries the colour `(r, g, b)`; alphas are free.
pub open spec fn uniform_rgb(s: Seq<u8>, r: u8, g: u8, b: u8) -> bool {
    forall|i: int|
        0 <= i < pixels_of(s).len() ==> {
            let p = #[trigger] pixels_of(s)[i];
            p.0 == r && p.1 == g && p.2 == b
        }
}

/// A buffer of uniformly coloured pixels sums to the single-pixel luma
/// times the total alpha weight.
proof fn lemma_weighted_sum_uniform(s: Seq<u8>, r: u8, g: u8, b: u8)
    requires
        s.len() % 4 == 0,
        uniform_rgb(s, r, g, b),
    ensures
        weighted_luma_sum(s) == pixel_luma_fp(r, g, b) * alpha_sum(s),
    decreases s.len(),
{
    let y = pixel_luma_fp(r, g, b);
    if s.len() == 0 {
        assert(y * 0 == 0) by (nonlinear_arith);
    } else {
        vstd::arithmetic::div_mod::lemma_fundamental_div_mod(s.len() as int, 4);
        assert(s.len() >= 4);
        let t = s.skip(4);
        assert(t.len() % 4 == 0);
        assert forall|i: int| 0 <= i < pixels_of(t).len() implies {
            let p = #[trigger] pixels_of(t)[i];
            p.0 == r && p.1 == g && p.2 == b
        } by {
            assert(pixels_of(s)[i + 1] == (s[4 * (i + 1)], s[4 * (i + 1) + 1], s[4 * (i + 1) + 2],
            s[4 * (i + 1) + 3]));
            assert(pixels_of(t)[i] == (t[4 * i], t[4 * i + 1], t[4 * i + 2], t[4 * i + 3]));
            assert(t[4 * i] == s[4 * i + 4]);
            assert(t[4 * i + 1] == s[4 * i + 5]);
            assert(t[4 * i + 2] == s[4 * i + 6]);
        }
        lemma_weighted_sum_uniform(t, r, g, b);
        assert(pixels_of(s)[0] == (s[0], s[1], s[2], s[3]));
        assert(s[0] == r && s[1] == g && s[2] == b);
        assert(weighted_luma_sum(s) == y * norm_fp(s[3]) + y * alpha_sum(t));
        assert(y * norm_fp(s[3]) + y * alpha_sum(t) == y * (norm_fp(s[3]) + alpha_sum(t))) by {
            vstd::arithmetic::mul::lemma_mul_is_distributive_add(y, norm_fp(s[3]), alpha_sum(t));
        }
    }
}

/// A uniformly coloured buffer with any positive total alpha weight has the
/// single pixel's luma as its average: the alphas cancel out.
pub proof fn lemma_average_luma_uniform(s: Seq<u8>, r: u8, g: u8, b: u8)
    requires
        s.len() % 4 == 0,
        uniform_rgb(s, r, g, b),
        alpha_sum(s) > 0,
    ensures
        average_luma_spec(s) == pixel_luma_fp(r, g, b),
{
    lemma_weighted_sum_uniform(s, r, g, b);
    let y = pixel_luma_fp(r, g, b);
    let total = alpha_sum(s);
    lemma_mul_is_commutative(y, total);
    lemma_div_multiples_vanish(y, total);
    assert((total * y) / total == y);
}

/// An all-black buffer of any pixel count and any alphas has zero
/// average luminance.
pub proof fn lemma_luminance_all_black(s: Seq<u8>)
    requires
        s.len() % 4 == 0,
        uniform_rgb(s, 0, 0, 0),
    ensures
        average_luma_spec(s) == 0,
{
    lemma_sum_bounds(s);
    if alpha_sum(s) != 0 {
        lemma_average_luma_uniform(s, 0, 0, 0);
        assert(pixel_luma_fp(0, 0, 0) == 0);
    }
}

/// An all-white buffer with positive total alpha weight has average
/// luminance of exactly one unit.
pub proof fn lemma_luminance_all_white(s: Seq<u8>)
    requires
        s.len() % 4 == 0,
        uniform_rgb(s, 255, 255, 255),
        alpha_sum(s) > 0,
    ensures
        average_luma_spec(s) == FP_ONE,
{
    lemma_average_luma_uniform(s, 255, 255, 255);
    assert(norm_fp(255) == FP_ONE);
    assert(pixel_luma_fp(255, 255, 255) == FP_ONE);
}

/// The folding step of the weighted luma sum.
spec fn luma_fold_step() -> spec_fn((u8, u8, u8, u8), int) -> int {
    |p: (u8, u8, u8, u8), acc: int| acc + pixel_luma_fp(p.0, p.1, p.2) * norm_fp(p.3)
}

/// The folding step of the alpha sum.
spec fn alpha_fold_step() -> spec_fn((u8, u8, u8, u8), int) -> int {
    |p: (u8, u8, u8, u8), acc: int| acc + norm_fp(p.3)
}

/// The recursive sums agree with folds over the pixel quadruples.
proof fn lemma_sums_as_folds(s: Seq<u8>)
    requires
        s.len() % 4 == 0,
    ensures
        weighted_luma_sum(s) == pixels_of(s).fold_right(luma_fold_step(), 0),
        alpha_sum(s) == pixels_of(s).fold_right(alpha_fold_step(), 0),
    decreases s.len(),
{
    let ps = pixels_of(s);
    ps.lemma_fold_right_alt(luma_fold_step(), 0);
    ps.lemma_fold_right_alt(alpha_fold_step(), 0);
    if s.len() == 0 {
    } else {
        vstd::arithmetic::div_mod::lemma_fundamental_div_mod(s.len() as int, 4);
        assert(s.len() >= 4);
        let t = s.skip(4);
        assert(t.len() % 4 == 0);
        lemma_sums_as_folds(t);
        let rest = ps.subrange(1, ps.len() as int);
        assert(rest =~= pixels_of(t));
        pixels_of(t).lemma_fold_right_alt(luma_fold_step(), 0);
        pixels_of(t).lemma_fold_right_alt(alpha_fold_step(), 0);
        assert(ps.fold_right_alt(luma_fold_step(), 0) == luma_fold_step()(
            ps[0],
            rest.fold_right_alt(luma_fold_step(), 0),
        ));
        assert(ps.fold_right_alt(alpha_fold_step(), 0) == alpha_fold_step()(
            ps[0],
            rest.fold_right_alt(alpha_fold_step(), 0),
        ));
        assert(ps[0] == (s[0], s[1], s[2], s[3]));
    }
}

/// The aggregate luminance does not depend on the order of the pixels:
/// two buffers holding the same multiset of pixel quadruples have the same
/// average luminance.
pub proof fn lemma_average_luma_permutation(s1: Seq<u8>, s2: Seq<u8>)
    requires
        s1.len() % 4 == 0,
        s2.len() % 4 == 0,
        pixels_of(s1).to_multiset() == pixels_of(s2).to_multiset(),
    ensures
        average_luma_spec(s1) == average_luma_spec(s2),
{
    lemma_sums_as_folds(s1);
    lemma_sums_as_folds(s2);
    assert(vstd::seq_lib::commutative_foldr(luma_fold_step())) by {
        let f = luma_fold_step();
        assert forall|x: (u8, u8, u8, u8), y: (u8, u8, u8, u8), v: int| #[trigger] f(
            x,
            f(y, v),
        ) == f(y, f(x, v)) by {
        }
    }
    assert(vstd::seq_lib::commutative_foldr(alpha_fold_step())) by {
        let f = alpha_fold_step();
        assert forall|x: (u8, u8, u8, u8), y: (u8, u8, u8, u8), v: int| #[trigger] f(
            x,
            f(y, v),
        ) == f(y, f(x, v)) by {
        }
    }
    vstd::seq_lib::lemma_fold_right_permutation(
        pixels_of(s1),
        pixels_of(s2),
        luma_fold_step(),
        0,
    );
    vstd::seq_lib::lemma_fold_right_permutation(
        pixels_of(s1),
        pixels_of(s2),
        alpha_fold_step(),
        0,
    );
}

/// Relative luminance mapped to absolute luminance: the aggregate luma is
/// decoded to linear light and scaled by the peak luminance `L_MAX`.
pub open spec fn nits_spec(s: Seq<u8>) -> int {
    inverse_transfer_spec(average_luma_spec(s)) * (L_MAX as int)
}

/// An all-white opaque-weighted buffer is at peak brightness: exactly
/// `L_MAX` nits.
pub proof fn lemma_nits_all_white(s: Seq<u8>)
    requires
        s.len() % 4 == 0,
        uniform_rgb(s, 255, 255, 255),
        alpha_sum(s) > 0,
    ensures
        nits_spec(s) == L_MAX * FP_ONE,
{
    lemma_luminance_all_white(s);
    crate::transfer::lemma_inverse_transfer_white();
}

/// An all-black buffer has zero absolute luminance.
pub proof fn lemma_nits_all_black(s: Seq<u8>)
    requires
        s.len() % 4 == 0,
        uniform_rgb(s, 0, 0, 0),
    ensures
        nits_spec(s) == 0,
{
    lemma_luminance_all_black(s);
    crate::transfer::lemma_inverse_transfer_black();
}

/// The absolute luminance of the buffer in fixed-point nits (micro-nits).
pub fn average_luma_in_nits(pixels: &[u8]) -> (r: Result<u64, LumaError>)
    ensures
        (pixels@.len() % 4 == 0) <==> r is Ok,
        r matches Ok(v) ==> v == nits_spec(pixels@) && v <= L_MAX * FP_ONE,
        r matches Err(e) ==> e == LumaError::InvalidBufferLength,
{
    match average_luma_relative(pixels) {
        Ok(y) => {
            let lin = inverse_transfer(y);
            Ok(lin * L_MAX)
        },
        Err(e) => Err(e),
    }
}

} // verus!
