//! Fixed-point helpers: integer powers, floor roots, and their exec
//! counterparts used by the sRGB transfer curve.
//!
//! A fixed-point value `x` stands for the real number `x / FP_ONE`. The
//! fractional powers of the transfer curve (gamma 2.4 = 12/5) reduce to
//! integer floor roots: `iroot(e, x)` is the unique `r >= 0` with
//! `r^e <= x < (r+1)^e`.

use vstd::arithmetic::div_mod::lemma_div_is_ordered;
use vstd::arithmetic::div_mod::lemma_div_multiples_vanish;
use vstd::arithmetic::div_mod::lemma_div_pos_is_pos;
use vstd::prelude::*;

use crate::constants::FP_ONE;

verus! {

/// `b` to the power `e`, by repeated multiplication.
pub open spec fn powi(b: int, e: nat) -> int
    decreases e,
{
    if e == 0 {
        1
    } else {
        b * powi(b, (e - 1) as nat)
    }
}

/// A non-negative base gives a non-negative power.
pub proof fn lemma_powi_nonneg(b: int, e: nat)
    requires
        b >= 0,
    ensures
        powi(b, e) >= 0,
    decreases e,
{
    if e > 0 {
        lemma_powi_nonneg(b, (e - 1) as nat);
        assert(b * powi(b, (e - 1) as nat) >= 0) by (nonlinear_arith)
            requires
                b >= 0,
                powi(b, (e - 1) as nat) >= 0;
    }
}

/// A base of at least one gives a power of at least one.
pub proof fn lemma_powi_pos(b: int, e: nat)
    requires
        b >= 1,
    ensures
        powi(b, e) >= 1,
    decreases e,
{
    if e > 0 {
        lemma_powi_pos(b, (e - 1) as nat);
        assert(b * powi(b, (e - 1) as nat) >= 1) by (nonlinear_arith)
            requires
                b >= 1,
                powi(b, (e - 1) as nat) >= 1;
    }
}

/// Powers are monotone in a non-negative base.
pub proof fn lemma_powi_base_monotone(a: int, b: int, e: nat)
    requires
        0 <= a <= b,
    ensures
        powi(a, e) <= powi(b, e),
    decreases e,
{
    if e > 0 {
        lemma_powi_base_monotone(a, b, (e - 1) as nat);
        lemma_powi_nonneg(a, (e - 1) as nat);
        lemma_powi_nonneg(b, (e - 1) as nat);
        assert(a * powi(a, (e - 1) as nat) <= b * powi(b, (e - 1) as nat)) by (nonlinear_arith)
            requires
                0 <= a <= b,
                0 <= powi(a, (e - 1) as nat) <= powi(b, (e - 1) as nat);
    }
}

/// Powers with a positive exponent are strictly monotone in the base.
pub proof fn lemma_powi_base_strict(a: int, b: int, e: nat)
    requires
        0 <= a < b,
        e >= 1,
    ensures
        powi(a, e) < powi(b, e),
    decreases e,
{
    if e == 1 {
        assert(powi(a, 1) == a * powi(a, 0));
        assert(powi(b, 1) == b * powi(b, 0));
    } else {
        lemma_powi_base_strict(a, b, (e - 1) as nat);
        lemma_powi_nonneg(a, (e - 1) as nat);
        lemma_powi_pos(b, (e - 1) as nat);
        assert(a * powi(a, (e - 1) as nat) < b * powi(b, (e - 1) as nat)) by (nonlinear_arith)
            requires
                0 <= a < b,
                0 <= powi(a, (e - 1) as nat),
                powi(a, (e - 1) as nat) < powi(b, (e - 1) as nat),
                powi(b, (e - 1) as nat) >= 1;
    }
}

/// Powers add over exponent sums.
pub proof fn lemma_powi_adds(b: int, m: nat, n: nat)
    ensures
        powi(b, m + n) == powi(b, m) * powi(b, n),
    decreases m,
{
    if m == 0 {
    } else {
        lemma_powi_adds(b, (m - 1) as nat, n);
        assert(b * (powi(b, (m - 1) as nat) * powi(b, n)) == (b * powi(b, (m - 1) as nat)) * powi(
            b,
            n,
        )) by (nonlinear_arith);
    }
}

/// Powers multiply over exponent products.
pub proof fn lemma_powi_exp_mul(b: int, m: nat, n: nat)
    ensures
        powi(b, m * n) == powi(powi(b, m), n),
    decreases n,
{
    if n == 0 {
        assert(m * 0 == 0) by (nonlinear_arith);
    } else {
        lemma_powi_exp_mul(b, m, (n - 1) as nat);
        assert(m * n == m * (n - 1) + m) by (nonlinear_arith);
        lemma_powi_adds(b, (m * (n - 1)) as nat, m);
        assert(powi(powi(b, m), n) == powi(b, m) * powi(powi(b, m), (n - 1) as nat));
        assert(powi(b, (m * (n - 1)) as nat) * powi(b, m) == powi(b, m) * powi(
            b,
            (m * (n - 1)) as nat,
        )) by (nonlinear_arith);
    }
}

/// Powers distribute over a product base.
pub proof fn lemma_powi_distributes(a: int, b: int, e: nat)
    ensures
        powi(a * b, e) == powi(a, e) * powi(b, e),
    decreases e,
{
    if e > 0 {
        lemma_powi_distributes(a, b, (e - 1) as nat);
        assert((a * b) * (powi(a, (e - 1) as nat) * powi(b, (e - 1) as nat)) == (a * powi(
            a,
            (e - 1) as nat,
        )) * (b * powi(b, (e - 1) as nat))) by (nonlinear_arith);
    }
}

/// `r` is the floor `e`-th root of `x`.
pub open spec fn is_iroot(e: nat, x: int, r: int) -> bool {
    &&& 0 <= r
    &&& powi(r, e) <= x
    &&& x < powi(r + 1, e)
}

/// Every non-negative integer has a floor `e`-th root.
pub proof fn lemma_iroot_exists(e: nat, x: int)
    requires
        e >= 1,
        x >= 0,
    ensures
        exists|r: int| #[trigger] is_iroot(e, x, r),
    decreases x,
{
    if x == 0 {
        assert(powi(0, e) == 0) by {
            assert(powi(0, e) == 0 * powi(0, (e - 1) as nat));
        }
        assert(powi(1, e) == 1) by {
            lemma_powi_one(e);
        }
        assert(is_iroot(e, 0, 0));
    } else {
        lemma_iroot_exists(e, x - 1);
        let r = choose|r: int| #[trigger] is_iroot(e, x - 1, r);
        if x < powi(r + 1, e) {
            assert(is_iroot(e, x, r));
        } else {
            assert(x == powi(r + 1, e));
            lemma_powi_base_strict(r + 1, r + 2, e);
            assert(is_iroot(e, x, r + 1));
        }
    }
}

/// One to any power is one.
pub proof fn lemma_powi_one(e: nat)
    ensures
        powi(1, e) == 1,
    decreases e,
{
    if e > 0 {
        lemma_powi_one((e - 1) as nat);
    }
}

/// The floor root is unique.
pub proof fn lemma_iroot_unique(e: nat, x: int, r1: int, r2: int)
    requires
        e >= 1,
        is_iroot(e, x, r1),
        is_iroot(e, x, r2),
    ensures
        r1 == r2,
{
    if r1 < r2 {
        lemma_powi_base_monotone(r1 + 1, r2, e);
        assert(false);
    }
    if r2 < r1 {
        lemma_powi_base_monotone(r2 + 1, r1, e);
        assert(false);
    }
}

/// The floor `e`-th root of `x`.
pub open spec fn iroot(e: nat, x: int) -> int {
    choose|r: int| #[trigger] is_iroot(e, x, r)
}

/// Pins the value of `iroot` from the defining inequalities.
pub proof fn lemma_iroot_is(e: nat, x: int, r: int)
    requires
        e >= 1,
        is_iroot(e, x, r),
    ensures
        iroot(e, x) == r,
{
    lemma_iroot_unique(e, x, iroot(e, x), r);
}

/// An upper bound on the root from an upper bound on the radicand.
pub proof fn lemma_iroot_le(e: nat, x: int, m: int)
    requires
        e >= 1,
        0 <= x,
        0 <= m,
        x <= powi(m, e),
    ensures
        0 <= iroot(e, x) <= m,
{
    lemma_iroot_exists(e, x);
    let r = iroot(e, x);
    assert(is_iroot(e, x, r));
    if r > m {
        lemma_powi_base_strict(m, r, e);
        assert(false);
    }
}

/// Floor division bound: if `a <= b * c` then `a / b <= c`.
pub proof fn lemma_div_le(a: int, b: int, c: int)
    requires
        0 <= a,
        0 < b,
        0 <= c,
        a <= b * c,
    ensures
        0 <= a / b <= c,
{
    lemma_div_pos_is_pos(a, b);
    lemma_div_is_ordered(a, b * c, b);
    lemma_div_multiples_vanish(c, b);
}

/// The fixed-point square root: the floor root of `x * FP_ONE`.
///
/// For `x` standing for a real `v` in `[0, 1]`, the result stands for
/// the largest multiple of one micro-unit whose square is at most `v`.
pub fn fp_sqrt(x: u64) -> (r: u64)
    requires
        x <= FP_ONE,
    ensures
        r == iroot(2, x * FP_ONE),
        r <= FP_ONE,
{
    let target: u64 = x * FP_ONE;
    let mut lo: u64 = 0;
    let mut hi: u64 = FP_ONE + 1;
    proof {
        assert((FP_ONE + 1) * (FP_ONE + 1) > target) by (nonlinear_arith)
            requires
                target <= FP_ONE * FP_ONE;
    }
    while lo + 1 < hi
        invariant
            lo < hi <= FP_ONE + 1,
            target <= FP_ONE * FP_ONE,
            lo * lo <= target,
            target < hi * hi,
        decreases hi - lo,
    {
        let mid = lo + (hi - lo) / 2;
        proof {
            let mi: int = mid as int;
            assert(mi * mi <= 2_000_000_000_000) by (nonlinear_arith)
                requires
                    0 <= mi <= 1_000_001,
            ;
        }
        if mid * mid <= target {
            lo = mid;
        } else {
            hi = mid;
        }
    }
    proof {
        assert(powi(lo as int, 2) == lo * lo) by {
            reveal_with_fuel(powi, 3);
        }
        assert(powi(lo as int + 1, 2) == (lo + 1) * (lo + 1)) by {
            reveal_with_fuel(powi, 3);
        }
        lemma_iroot_is(2, target as int, lo as int);
    }
    lo
}

/// The fixed-point cube root: the floor root of `x * FP_ONE * FP_ONE`.
pub fn fp_cbrt(x: u64) -> (r: u64)
    requires
        x <= FP_ONE,
    ensures
        r == iroot(3, x * FP_ONE * FP_ONE),
        r <= FP_ONE,
{
    let target: u64 = x * FP_ONE * FP_ONE;
    let mut lo: u64 = 0;
    let mut hi: u64 = FP_ONE + 1;
    proof {
        assert((FP_ONE + 1) * (FP_ONE + 1) * (FP_ONE + 1) > target) by (nonlinear_arith)
            requires
                target <= FP_ONE * FP_ONE * FP_ONE;
    }
    while lo + 1 < hi
        invariant
            lo < hi <= FP_ONE + 1,
            target <= FP_ONE * FP_ONE * FP_ONE,
            lo * lo * lo <= target,
            target < hi * hi * hi,
        decreases hi - lo,
    {
        let mid = lo + (hi - lo) / 2;
        proof {
            let mi: int = mid as int;
            assert(mi * mi <= 1_000_000_000_000 && mi * mi * mi <= 1_000_000_000_000_000_000) by (
            nonlinear_arith)
                requires
                    0 <= mi <= 1_000_000,
            ;
        }
        if mid * mid * mid <= target {
            lo = mid;
        } else {
            hi = mid;
        }
    }
    proof {
        assert(powi(lo as int, 3) == lo * (lo * lo)) by {
            reveal_with_fuel(powi, 4);
        }
        assert(lo * (lo * lo) == lo * lo * lo) by (nonlinear_arith);
        assert(powi(lo as int + 1, 3) == (lo + 1) * ((lo + 1) * (lo + 1))) by {
            reveal_with_fuel(powi, 4);
        }
        assert((lo + 1) * ((lo + 1) * (lo + 1)) == (lo + 1) * (lo + 1) * (lo + 1)) by (
        nonlinear_arith);
        lemma_iroot_is(3, target as int, lo as int);
    }
    lo
}

/// The fixed-point fifth root: the floor root of `x * FP_ONE^4`.
pub fn fp_root5(x: u64) -> (r: u64)
    requires
        x <= FP_ONE,
    ensures
        r == iroot(5, x * FP_ONE * FP_ONE * FP_ONE * FP_ONE),
        r <= FP_ONE,
{
    let fp: u128 = FP_ONE as u128;
    let target: u128 = x as u128 * fp * fp * fp * fp;
    let mut lo: u64 = 0;
    let mut hi: u64 = FP_ONE + 1;
    proof {
        let f1: int = FP_ONE + 1;
        assert(f1 * f1 * f1 * f1 * f1 > target) by (nonlinear_arith)
            requires
                f1 == FP_ONE + 1,
                target <= FP_ONE * (FP_ONE as int * FP_ONE * FP_ONE * FP_ONE),
        ;
    }
    while lo + 1 < hi
        invariant
            lo < hi <= FP_ONE + 1,
            target <= FP_ONE * (FP_ONE as int * FP_ONE * FP_ONE * FP_ONE),
            lo as int * lo * lo * lo * lo <= target,
            target < hi as int * hi * hi * hi * hi,
        decreases hi - lo,
    {
        let mid = lo + (hi - lo) / 2;
        let m: u128 = mid as u128;
        proof {
            let mi: int = m as int;
            assert(mi <= 1_000_000);
            assert(mi * mi <= 0x10000000000000000000000000000 && mi * mi * mi
                <= 0x10000000000000000000000000000 && mi * mi * mi * mi
                <= 0x10000000000000000000000000000 && mi * mi * mi * mi * mi
                <= 0x10000000000000000000000000000) by (nonlinear_arith)
                requires
                    0 <= mi <= 1_000_000,
            ;
        }
        if m * m * m * m * m <= target {
            lo = mid;
        } else {
            hi = mid;
        }
    }
    proof {
        let l: int = lo as int;
        assert(powi(l, 5) == l * (l * (l * (l * l)))) by {
            reveal_with_fuel(powi, 6);
        }
        assert(l * (l * (l * (l * l))) == l * l * l * l * l) by (nonlinear_arith);
        assert(powi(l + 1, 5) == (l + 1) * ((l + 1) * ((l + 1) * ((l + 1) * (l + 1))))) by {
            reveal_with_fuel(powi, 6);
        }
        assert((l + 1) * ((l + 1) * ((l + 1) * ((l + 1) * (l + 1)))) == (l + 1) * (l + 1) * (l + 1)
            * (l + 1) * (l + 1)) by (nonlinear_arith);
        lemma_iroot_is(5, target as int, l);
    }
    lo
}

} // verus!
