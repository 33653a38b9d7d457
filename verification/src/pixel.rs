//! An RGBA pixel sample and its normalization to fixed-point channels.

use vstd::prelude::*;

use crate::constants::FP_ONE;

verus! {

/// The fixed-point normalization of an 8-bit channel: `c / 255` in micro-units.
pub open spec fn norm_fp(c: u8) -> int {
    c * FP_ONE / 255
}

/// A normalized channel never exceeds one unit.
pub proof fn lemma_norm_fp_bounds(c: u8)
    ensures
        0 <= norm_fp(c) <= FP_ONE,
{
    assert(c * FP_ONE <= 255 * FP_ONE) by (nonlinear_arith)
        requires
            c <= 255;
}

/// One pixel sample: four 8-bit channels, straight (non-premultiplied) alpha.
#[derive(Clone, Copy, Debug, PartialEq, Eq, Structural)]
pub struct Rgba {
    pub r: u8,
    pub g: u8,
    pub b: u8,
    pub a: u8,
}

impl Rgba {
    /// Reads one pixel out of a four-byte slice, in R, G, B, A order.
    pub fn from_slice(chunk: &[u8]) -> (p: Rgba)
        requires
            chunk@.len() == 4,
        ensures
            p.r == chunk@[0],
            p.g == chunk@[1],
            p.b == chunk@[2],
            p.a == chunk@[3],
    {
        Rgba { r: chunk[0], g: chunk[1], b: chunk[2], a: chunk[3] }
    }

    /// The four channels normalized to fixed-point values in `[0, FP_ONE]`.
    pub fn normalized(&self) -> (n: (u64, u64, u64, u64))
        ensures
            n.0 == norm_fp(self.r),
            n.1 == norm_fp(self.g),
            n.2 == norm_fp(self.b),
            n.3 == norm_fp(self.a),
            n.0 <= FP_ONE,
            n.1 <= FP_ONE,
            n.2 <= FP_ONE,
            n.3 <= FP_ONE,
    {
        proof {
            lemma_norm_fp_bounds(self.r);
            lemma_norm_fp_bounds(self.g);
            lemma_norm_fp_bounds(self.b);
            lemma_norm_fp_bounds(self.a);
        }
        (
            self.r as u64 * FP_ONE / 255,
            self.g as u64 * FP_ONE / 255,
            self.b as u64 * FP_ONE / 255,
            self.a as u64 * FP_ONE / 255,
        )
    }
}

} // verus!
