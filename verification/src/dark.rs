//! The dark-mode transform: a per-pixel, luma-inverting recolouring that
//! preserves hue/chroma ratios while inverting perceived brightness.
//!
//! Per pixel: nearly transparent pixels pass through bit-exact; otherwise
//! the channels are decoded to linear light, their weighted luma `L` is
//! taken, near-black pixels are forced to linear white, and all others are
//! scaled by `(1 - L) / L` and clamped; finally the channels are re-encoded,
//! scaled to 8 bits and rounded. The alpha channel is always copied.

use vstd::arithmetic::div_mod::lemma_div_pos_is_pos;
use vstd::arithmetic::div_mod::lemma_multiply_divide_lt;
use vstd::prelude::*;

use crate::constants::bt_709;
use crate::constants::ALPHA_THRESHOLD;
use crate::constants::BLACK_THRESHOLD;
use crate::constants::FP_ONE;
use crate::constants::LUMA_WEIGHT_B;
use crate::constants::LUMA_WEIGHT_G;
use crate::constants::LUMA_WEIGHT_R;
use crate::fixed::lemma_div_le;
use crate::luminance::pixels_of;
use crate::luminance::LumaError;
use crate::pixel::norm_fp;
use crate::pixel::Rgba;
use crate::transfer::forward_transfer;
use crate::transfer::forward_transfer_spec;
use crate::transfer::inverse_transfer;
use crate::transfer::inverse_transfer_spec;

verus! {

/// A pixel below the transparency threshold is passed through unchanged.
pub open spec fn transparent_fp(a: u8) -> bool {
    norm_fp(a) < ALPHA_THRESHOLD as int
}

/// Weighted luma of three linear-light channels.
pub open spec fn linear_luma_fp(rl: int, gl: int, bl: int) -> int {
    (LUMA_WEIGHT_R as int * rl + LUMA_WEIGHT_G as int * gl + LUMA_WEIGHT_B as int * bl) / (
    FP_ONE as int)
}

/// One linear channel scaled by the inversion factor `(1 - L) / L`,
/// clamped to one unit.
pub open spec fn invert_channel_spec(c: int, lum: int) -> int {
    let sc = (FP_ONE as int - lum) * (FP_ONE as int) / lum;
    let t = c * sc / (FP_ONE as int);
    if t > FP_ONE as int {
        FP_ONE as int
    } else {
        t
    }
}

/// A linear channel re-encoded, scaled to 8 bits and rounded to nearest.
pub open spec fn encode_channel_spec(lin: int) -> u8 {
    ((forward_transfer_spec(lin) * 255 + 500_000) / 1_000_000) as u8
}

/// The dark-mode output for one pixel.
pub open spec fn dark_pixel_spec(r: u8, g: u8, b: u8, a: u8) -> (u8, u8, u8, u8) {
    if transparent_fp(a) {
        (r, g, b, a)
    } else {
        let rl = inverse_transfer_spec(norm_fp(r));
        let gl = inverse_transfer_spec(norm_fp(g));
        let bl = inverse_transfer_spec(norm_fp(b));
        let lum = linear_luma_fp(rl, gl, bl);
        if lum < BLACK_THRESHOLD as int {
            let w = encode_channel_spec(FP_ONE as int);
            (w, w, w, a)
        } else {
            (
                encode_channel_spec(invert_channel_spec(rl, lum)),
                encode_channel_spec(invert_channel_spec(gl, lum)),
                encode_channel_spec(invert_channel_spec(bl, lum)),
                a,
            )
        }
    }
}

/// The dark-mode output for a whole buffer, byte for byte.
pub open spec fn dark_bytes_spec(s: Seq<u8>) -> Seq<u8> {
    Seq::new(
        s.len(),
        |j: int|
            {
                let q = j / 4;
                let p = dark_pixel_spec(s[4 * q], s[4 * q + 1], s[4 * q + 2], s[4 * q + 3]);
                if j % 4 == 0 {
                    p.0
                } else if j % 4 == 1 {
                    p.1
                } else if j % 4 == 2 {
                    p.2
                } else {
                    p.3
                }
            },
    )
}

/// Re-encodes one linear channel as a rounded 8-bit value.
fn encode_channel(lin: u64) -> (c: u8)
    requires
        lin <= FP_ONE,
    ensures
        c == encode_channel_spec(lin as int),
{
    let e = forward_transfer(lin);
    let scaled: u64 = e * 255 + 500_000;
    proof {
        lemma_div_pos_is_pos(scaled as int, 1_000_000);
        lemma_multiply_divide_lt(scaled as int, 1_000_000, 256);
    }
    (scaled / 1_000_000) as u8
}

/// Applies the inversion factor of a pixel with luma `lum` to one channel.
fn invert_channel(c: u64, lum: u64) -> (r: u64)
    requires
        c <= FP_ONE,
        BLACK_THRESHOLD <= lum <= FP_ONE,
    ensures
        r == invert_channel_spec(c as int, lum as int),
        r <= FP_ONE,
{
    let sc: u64 = (FP_ONE - lum) * FP_ONE / lum;
    proof {
        assert((FP_ONE - lum) as int * FP_ONE <= lum * 19_000_000);
        lemma_div_le((FP_ONE - lum) as int * FP_ONE, lum as int, 19_000_000);
        assert(c as int * sc <= 19_000_000_000_000) by (nonlinear_arith)
            requires
                0 <= c as int <= 1_000_000,
                0 <= sc as int <= 19_000_000,
        ;
    }
    let t: u64 = c * sc / FP_ONE;
    if t > FP_ONE {
        FP_ONE
    } else {
        t
    }
}

/// The dark-mode output for one pixel sample.
pub fn dark_pixel(px: Rgba) -> (q: (u8, u8, u8, u8))
    ensures
        q == dark_pixel_spec(px.r, px.g, px.b, px.a),
{
    let (nr, ng, nb, na) = px.normalized();
    if na < ALPHA_THRESHOLD {
        (px.r, px.g, px.b, px.a)
    } else {
        let w = bt_709();
        let rl = inverse_transfer(nr);
        let gl = inverse_transfer(ng);
        let bl = inverse_transfer(nb);
        let total: u64 = w.r * rl + w.g * gl + w.b * bl;
        proof {
            lemma_div_pos_is_pos(total as int, FP_ONE as int);
            lemma_div_le(total as int, FP_ONE as int, FP_ONE as int);
        }
        let lum: u64 = total / FP_ONE;
        if lum < BLACK_THRESHOLD {
            let white = encode_channel(FP_ONE);
            (white, white, white, px.a)
        } else {
            (
                encode_channel(invert_channel(rl, lum)),
                encode_channel(invert_channel(gl, lum)),
                encode_channel(invert_channel(bl, lum)),
                px.a,
            )
        }
    }
}

/// The dark-mode transform of a whole buffer.
///
/// The byte length must be a multiple of four; any other length is rejected
/// with `InvalidBufferLength`. The output has exactly the input's length
/// (an empty buffer yields an empty output), and is byte for byte the
/// per-pixel transform of the input.
pub fn dark_mode(pixels: &[u8]) -> (res: Result<Vec<u8>, LumaError>)
    ensures
        (pixels@.len() % 4 == 0) <==> res is Ok,
        res matches Ok(out) ==> out@ == dark_bytes_spec(pixels@) && out@.len() == pixels@.len(),
        res matches Err(e) ==> e == LumaError::InvalidBufferLength,
{
    if pixels.len() % 4 != 0 {
        return Err(LumaError::InvalidBufferLength);
    }
    let n = pixels.len() / 4;
    let mut out: Vec<u8> = Vec::new();
    let mut i: usize = 0;
    while i < n
        invariant
            pixels@.len() <= usize::MAX,
            pixels@.len() % 4 == 0,
            n == pixels@.len() / 4,
            i <= n,
            out@.len() == 4 * i,
            forall|j: int| 0 <= j < 4 * i ==> out@[j] == dark_bytes_spec(pixels@)[j],
        decreases n - i,
    {
        proof {
            vstd::arithmetic::div_mod::lemma_fundamental_div_mod(pixels@.len() as int, 4);
            assert(pixels@.len() == 4 * n);
            assert(4 * (i as int) + 4 <= 4 * (n as int));
        }
        let base = 4 * i;
        let px = Rgba::from_slice(&pixels[base..base + 4]);
        let q = dark_pixel(px);
        out.push(q.0);
        out.push(q.1);
        out.push(q.2);
        out.push(q.3);
        proof {
            let s = pixels@;
            let bi = 4 * i as int;
            assert(px.r == s[bi] && px.g == s[bi + 1] && px.b == s[bi + 2] && px.a == s[bi + 3]);
            vstd::arithmetic::div_mod::lemma_fundamental_div_mod_converse(bi, 4, i as int, 0);
            vstd::arithmetic::div_mod::lemma_fundamental_div_mod_converse(bi + 1, 4, i as int, 1);
            vstd::arithmetic::div_mod::lemma_fundamental_div_mod_converse(bi + 2, 4, i as int, 2);
            vstd::arithmetic::div_mod::lemma_fundamental_div_mod_converse(bi + 3, 4, i as int, 3);
        }
        i = i + 1;
    }
    proof {
        assert(out@ =~= dark_bytes_spec(pixels@));
    }
    Ok(out)
}

/// An opaque white pixel — a bright background — inverts to pure black.
pub proof fn lemma_dark_pixel_white_to_black()
    ensures
        dark_pixel_spec(255, 255, 255, 255) == (0u8, 0u8, 0u8, 255u8),
{
    let f = FP_ONE as int;
    assert(norm_fp(255) == f);
    crate::transfer::lemma_inverse_transfer_white();
    let lum = linear_luma_fp(f, f, f);
    assert(lum == f);
    let sc = (f - lum) * f / lum;
    assert(sc == 0);
    assert(f * 0int == 0) by (nonlinear_arith);
    assert(invert_channel_spec(f, lum) == 0);
    assert(forward_transfer_spec(0) == 0);
    assert(encode_channel_spec(0) == 0);
}

/// An opaque black pixel — dark text — inverts to pure white.
pub proof fn lemma_dark_pixel_black_to_white()
    ensures
        dark_pixel_spec(0, 0, 0, 255) == (255u8, 255u8, 255u8, 255u8),
{
    assert(norm_fp(0) == 0);
    assert(inverse_transfer_spec(0) == 0);
    assert(linear_luma_fp(0, 0, 0) == 0);
    crate::transfer::lemma_forward_transfer_white();
    assert(encode_channel_spec(FP_ONE as int) == 255);
}

/// The transform never touches the alpha channel of any pixel.
pub proof fn lemma_dark_pixel_preserves_alpha(r: u8, g: u8, b: u8, a: u8)
    ensures
        dark_pixel_spec(r, g, b, a).3 == a,
{
}

/// A pixel below the transparency threshold comes out bit-exact.
pub proof fn lemma_dark_pixel_transparent(r: u8, g: u8, b: u8, a: u8)
    requires
        transparent_fp(a),
    ensures
        dark_pixel_spec(r, g, b, a) == (r, g, b, a),
{
}

/// The transformed buffer, read as pixels, is the per-pixel transform of
/// the input's pixels.
pub proof fn lemma_dark_bytes_pixels(s: Seq<u8>)
    requires
        s.len() % 4 == 0,
    ensures
        pixels_of(dark_bytes_spec(s)).len() == pixels_of(s).len(),
        forall|i: int|
            0 <= i < pixels_of(s).len() ==> #[trigger] pixels_of(dark_bytes_spec(s))[i]
                == dark_pixel_spec(
                pixels_of(s)[i].0,
                pixels_of(s)[i].1,
                pixels_of(s)[i].2,
                pixels_of(s)[i].3,
            ),
{
    let d = dark_bytes_spec(s);
    assert forall|i: int| 0 <= i < pixels_of(s).len() implies #[trigger] pixels_of(d)[i]
        == dark_pixel_spec(
        pixels_of(s)[i].0,
        pixels_of(s)[i].1,
        pixels_of(s)[i].2,
        pixels_of(s)[i].3,
    ) by {
        vstd::arithmetic::div_mod::lemma_fundamental_div_mod_converse(4 * i, 4, i, 0);
        vstd::arithmetic::div_mod::lemma_fundamental_div_mod_converse(4 * i + 1, 4, i, 1);
        vstd::arithmetic::div_mod::lemma_fundamental_div_mod_converse(4 * i + 2, 4, i, 2);
        vstd::arithmetic::div_mod::lemma_fundamental_div_mod_converse(4 * i + 3, 4, i, 3);
        assert(d[4 * i] == dark_pixel_spec(s[4 * i], s[4 * i + 1], s[4 * i + 2], s[4 * i + 3]).0);
        assert(d[4 * i + 1] == dark_pixel_spec(
            s[4 * i],
            s[4 * i + 1],
            s[4 * i + 2],
            s[4 * i + 3],
        ).1);
        assert(d[4 * i + 2] == dark_pixel_spec(
            s[4 * i],
            s[4 * i + 1],
            s[4 * i + 2],
            s[4 * i + 3],
        ).2);
        assert(d[4 * i + 3] == dark_pixel_spec(
            s[4 * i],
            s[4 * i + 1],
            s[4 * i + 2],
            s[4 * i + 3],
        ).3);
    }
}

/// Alpha is preserved across the whole-buffer transform.
pub proof fn lemma_dark_mode_preserves_alpha(s: Seq<u8>)
    requires
        s.len() % 4 == 0,
    ensures
        forall|i: int|
            0 <= i < pixels_of(s).len() ==> (#[trigger] pixels_of(dark_bytes_spec(s))[i]).3
                == pixels_of(s)[i].3,
{
    lemma_dark_bytes_pixels(s);
}

/// Pixels below the transparency threshold survive the whole-buffer
/// transform bit-exact.
pub proof fn lemma_dark_mode_transparent_fixed(s: Seq<u8>)
    requires
        s.len() % 4 == 0,
    ensures
        forall|i: int|
            0 <= i < pixels_of(s).len() && transparent_fp(pixels_of(s)[i].3)
                ==> #[trigger] pixels_of(dark_bytes_spec(s))[i] == pixels_of(s)[i],
{
    lemma_dark_bytes_pixels(s);
}

} // verus!
