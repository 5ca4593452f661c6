//! Integer square roots and index arithmetic shared by the overlay
//! generators and the blend primitives.
//!
//! Radial effects need the distance of a pixel from the image center, and
//! the gamma codec needs to invert squaring; both reduce to the floor and
//! ceiling of a square root, defined here as spec functions together with
//! the lemmas that pin the executable search down to them.

use vstd::prelude::*;

verus! {

/// The largest `f` with `f * f <= n`.
pub open spec fn spec_floor_sqrt(n: nat) -> nat
    decreases n,
{
    if n == 0 {
        0
    } else {
        let p: nat = spec_floor_sqrt((n - 1) as nat);
        if (p + 1) * (p + 1) <= n {
            p + 1
        } else {
            p
        }
    }
}

/// The smallest `c` with `c * c >= n`.
pub open spec fn spec_ceil_sqrt(n: nat) -> nat {
    let f: nat = spec_floor_sqrt(n);
    if f * f == n {
        f
    } else {
        f + 1
    }
}

pub proof fn lemma_floor_sqrt_bounds(n: nat)
    ensures
        spec_floor_sqrt(n) * spec_floor_sqrt(n) <= n,
        n < (spec_floor_sqrt(n) + 1) * (spec_floor_sqrt(n) + 1),
    decreases n,
{
    if n == 0 {
        assert(spec_floor_sqrt(0) == 0);
        assert(n < (spec_floor_sqrt(n) + 1) * (spec_floor_sqrt(n) + 1)) by (nonlinear_arith)
            requires
                n == 0,
                spec_floor_sqrt(n) == 0,
        ;
    } else {
        lemma_floor_sqrt_bounds((n - 1) as nat);
        let p: nat = spec_floor_sqrt((n - 1) as nat);
        if (p + 1) * (p + 1) <= n {
            assert(spec_floor_sqrt(n) == p + 1);
            assert(n < (p + 2) * (p + 2)) by (nonlinear_arith)
                requires
                    n - 1 < (p + 1) * (p + 1),
            ;
        } else {
            assert(spec_floor_sqrt(n) == p);
        }
    }
}

/// Any `f` whose square brackets `n` is the floor square root.
pub proof fn lemma_floor_sqrt_unique(n: nat, f: nat)
    requires
        f * f <= n,
        n < (f + 1) * (f + 1),
    ensures
        f == spec_floor_sqrt(n),
{
    lemma_floor_sqrt_bounds(n);
    let g: nat = spec_floor_sqrt(n);
    if f < g {
        assert((f + 1) * (f + 1) <= g * g) by (nonlinear_arith)
            requires
                f + 1 <= g,
        ;
    } else if g < f {
        assert((g + 1) * (g + 1) <= f * f) by (nonlinear_arith)
            requires
                g + 1 <= f,
        ;
    }
}

pub proof fn lemma_ceil_sqrt_bounds(n: nat)
    ensures
        n <= spec_ceil_sqrt(n) * spec_ceil_sqrt(n),
        spec_ceil_sqrt(n) > 0 ==> (spec_ceil_sqrt(n) - 1) * (spec_ceil_sqrt(n) - 1) < n,
{
    lemma_floor_sqrt_bounds(n);
    let f: nat = spec_floor_sqrt(n);
    if f * f == n {
        if f > 0 {
            assert((f - 1) * (f - 1) < f * f) by (nonlinear_arith)
                requires
                    f > 0,
            ;
        }
    }
}

pub proof fn lemma_ceil_sqrt_monotone(m: nat, n: nat)
    requires
        m <= n,
    ensures
        spec_ceil_sqrt(m) <= spec_ceil_sqrt(n),
{
    lemma_ceil_sqrt_bounds(m);
    lemma_ceil_sqrt_bounds(n);
    let a: nat = spec_ceil_sqrt(m);
    let b: nat = spec_ceil_sqrt(n);
    if b < a {
        assert(b * b <= (a - 1) * (a - 1)) by (nonlinear_arith)
            requires
                b <= a - 1,
                0 <= b,
        ;
        assert(a > 0);
        assert(false);
    }
}

/// Squares of one byte stay below the square of the next byte, so the
/// ceiling distance of a pixel exceeds a ring bound exactly when its
/// squared distance does.
pub proof fn lemma_ceil_sqrt_above(n: nat, r: nat)
    requires
        n > r * r,
    ensures
        spec_ceil_sqrt(n) > r,
{
    lemma_ceil_sqrt_bounds(n);
    let c: nat = spec_ceil_sqrt(n);
    if c <= r {
        assert(c * c <= r * r) by (nonlinear_arith)
            requires
                0 <= c <= r,
        ;
        assert(false);
    }
}

/// Executable floor square root by bisection.
pub fn floor_sqrt_u128(n: u128) -> (f: u64)
    requires
        n < 0x40000000000000000u128,
    ensures
        f as nat == spec_floor_sqrt(n as nat),
        (f as u128) * (f as u128) <= n,
{
    let mut lo: u64 = 0;
    let mut hi: u64 = 0x200000000;
    proof {
        assert((0x200000000u128 + 1) * (0x200000000u128 + 1) > 0x40000000000000000u128)
            by (nonlinear_arith);
    }
    while lo < hi
        invariant
            lo <= hi,
            hi <= 0x200000000,
            (lo as u128) * (lo as u128) <= n,
            n < ((hi as u128) + 1) * ((hi as u128) + 1),
        decreases hi - lo,
    {
        let mid: u64 = lo + (hi - lo + 1) / 2;
        proof {
            assert((mid as u128) * (mid as u128) <= 0x40000000000000000u128) by (nonlinear_arith)
                requires
                    mid as u128 <= 0x200000000u128,
            ;
        }
        let sq: u128 = (mid as u128) * (mid as u128);
        if sq <= n {
            lo = mid;
        } else {
            hi = mid - 1;
        }
    }
    proof {
        lemma_floor_sqrt_unique(n as nat, lo as nat);
    }
    lo
}

/// Executable ceiling square root.
pub fn ceil_sqrt_u128(n: u128) -> (c: u64)
    requires
        n < 0x40000000000000000u128,
    ensures
        c as nat == spec_ceil_sqrt(n as nat),
{
    let f: u64 = floor_sqrt_u128(n);
    proof {
        lemma_floor_sqrt_bounds(n as nat);
        assert((f as u128) * (f as u128) < 0x40000000000000000u128);
        assert(f < 0x200000000u64) by (nonlinear_arith)
            requires
                (f as u128) * (f as u128) < 0x40000000000000000u128,
        ;
    }
    if (f as u128) * (f as u128) == n {
        f
    } else {
        f + 1
    }
}

/// A pixel coordinate inside the image maps to a channel index inside the
/// flat buffer.
pub proof fn lemma_rgb_index_bound(x: int, y: int, w: int, h: int) by (nonlinear_arith)
    requires
        0 <= x < w,
        0 <= y < h,
    ensures
        0 <= y * w + x < w * h,
        0 <= (y * w + x) * 3 + 2 < w * h * 3,
{
}

/// A flat channel index decodes back into an in-range pixel coordinate
/// and channel, and the coordinate re-encodes to the same index.
pub proof fn lemma_flat_pixel_decode(w: int, h: int, j: int)
    requires
        0 <= j,
        j < w * h * 3,
        0 <= w,
        0 <= h,
    ensures
        0 < w,
        0 < h,
        0 <= j % 3 < 3,
        0 <= (j / 3) % w < w,
        0 <= (j / 3) / w < h,
        (((j / 3) / w) * w + (j / 3) % w) * 3 + j % 3 == j,
        0 <= j / 3 < w * h,
{
    assert(0 < w && 0 < h) by (nonlinear_arith)
        requires
            0 <= w,
            0 <= h,
            0 < w * h * 3,
    ;
    vstd::arithmetic::div_mod::lemma_fundamental_div_mod(j, 3);
    vstd::arithmetic::div_mod::lemma_mod_bound(j, 3);
    vstd::arithmetic::div_mod::lemma_div_pos_is_pos(j, 3);
    let p: int = j / 3;
    assert(p < w * h) by (nonlinear_arith)
        requires
            j == 3 * p + j % 3,
            0 <= j % 3 < 3,
            j < w * h * 3,
    ;
    vstd::arithmetic::div_mod::lemma_fundamental_div_mod(p, w);
    vstd::arithmetic::div_mod::lemma_mod_bound(p, w);
    vstd::arithmetic::div_mod::lemma_div_pos_is_pos(p, w);
    assert(p / w < h) by (nonlinear_arith)
        requires
            p == w * (p / w) + p % w,
            0 <= p % w < w,
            0 <= p < w * h,
            0 <= p / w,
    ;
    assert(((p / w) * w + p % w) * 3 + j % 3 == j) by (nonlinear_arith)
        requires
            p == w * (p / w) + p % w,
            j == 3 * p + j % 3,
    ;
}

} // verus!
