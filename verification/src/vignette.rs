//! Vignette overlay generator.
//!
//! The mask is a single-channel buffer around the image center: fully
//! transparent (255) inside an inner disk of roughly a third of the
//! radius, fading ring by ring to fully darkening (0) at and beyond the
//! radius.  Each pixel's intensity depends only on its distance from the
//! center, so the gradient is stated per squared distance and proved
//! monotonically non-increasing outwards.
//!
//! Optional dithering perturbs interior gradient values by a small random
//! offset to break up banding; boundary values (0 and 255) are kept
//! exact, so the inner disk and the outside stay clean.

use vstd::prelude::*;
use vstd::arithmetic::div_mod::lemma_div_is_ordered;
use vstd::arithmetic::div_mod::lemma_div_multiples_vanish_fancy;
use vstd::arithmetic::div_mod::lemma_div_pos_is_pos;
use vstd::arithmetic::div_mod::lemma_fundamental_div_mod_converse;

use crate::buffer::GrayBuffer;
use crate::math::ceil_sqrt_u128;
use crate::math::lemma_ceil_sqrt_above;
use crate::math::lemma_ceil_sqrt_monotone;
use crate::math::spec_ceil_sqrt;
use crate::math::spec_floor_sqrt;
use crate::rng::rand_in_range;

verus! {

/// The fully transparent inner disk's radius: a third of the vignette
/// radius, rounded to nearest.
pub open spec fn spec_inner_radius(radius: int) -> int {
    (33 * radius + 50) / 100
}

/// Gradient intensity of ring `i`, counted from the radius inwards over a
/// band of `outer` rings: `255 * i / outer` rounded to nearest.
pub open spec fn spec_gradient_value(outer: int, i: int) -> int {
    (510 * i + outer) / (2 * outer)
}

/// Squared distance of pixel `(x, y)` from the buffer's geometric center.
pub open spec fn spec_dist_sq(x: int, y: int, width: int, height: int) -> int {
    let cx: int = width / 2;
    let cy: int = height / 2;
    (x - cx) * (x - cx) + (y - cy) * (y - cy)
}

/// The undithered mask intensity for a pixel at squared center distance
/// `dd`: 255 on the inner disk, the ring gradient inside the band, 0 at
/// distance `radius` and beyond.  A radius too small to leave a band
/// degenerates to the inner disk alone.
pub open spec fn spec_mask_value(dd: int, radius: int) -> int
    recommends
        0 <= dd,
        0 <= radius,
{
    let inner: int = spec_inner_radius(radius);
    let outer: int = radius - inner;
    let c: int = spec_ceil_sqrt(dd as nat) as int;
    if c <= inner {
        255
    } else if outer >= 1 && c < radius {
        spec_gradient_value(outer, radius - c)
    } else {
        0
    }
}

/// How a dithered intensity may relate to the undithered one: boundary
/// values stay exact, interior values move by at most the dither range.
pub open spec fn spec_dither_ok(orig: int, v: int, noise: bool) -> bool {
    if !noise || orig == 0 || orig == 255 {
        v == orig
    } else {
        orig - 10 <= v <= orig + 9 && 0 <= v <= 255
    }
}

pub proof fn lemma_inner_radius_bounds(radius: int)
    requires
        0 <= radius,
    ensures
        0 <= spec_inner_radius(radius) <= radius,
        radius >= 1 ==> spec_inner_radius(radius) < radius,
{
    lemma_div_pos_is_pos(33 * radius + 50, 100);
    if radius >= 1 {
        assert((100 * (radius - 1) + 99) / 100 == radius - 1) by {
            lemma_div_multiples_vanish_fancy(radius - 1, 99, 100);
        }
        lemma_div_is_ordered(33 * radius + 50, 100 * (radius - 1) + 99, 100);
    } else {
        assert((100 * 0 + 50) / 100 == 0) by {
            lemma_div_multiples_vanish_fancy(0, 50, 100);
        }
    }
}

pub proof fn lemma_gradient_bounds(outer: int, i: int)
    requires
        1 <= outer,
        0 <= i <= outer,
    ensures
        0 <= spec_gradient_value(outer, i) <= 255,
        i == outer ==> spec_gradient_value(outer, i) == 255,
{
    lemma_div_pos_is_pos(510 * i + outer, 2 * outer);
    assert(((2 * outer) * 255 + outer) / (2 * outer) == 255) by {
        lemma_div_multiples_vanish_fancy(255, outer, 2 * outer);
    }
    assert(510 * i + outer <= (2 * outer) * 255 + outer) by (nonlinear_arith)
        requires
            i <= outer,
    ;
    lemma_div_is_ordered(510 * i + outer, (2 * outer) * 255 + outer, 2 * outer);
    if i == outer {
        assert(510 * i + outer == (2 * outer) * 255 + outer) by (nonlinear_arith)
            requires
                i == outer,
        ;
    }
}

pub proof fn lemma_gradient_monotone(outer: int, i1: int, i2: int)
    requires
        1 <= outer,
        i1 <= i2,
    ensures
        spec_gradient_value(outer, i1) <= spec_gradient_value(outer, i2),
{
    lemma_div_is_ordered(510 * i1 + outer, 510 * i2 + outer, 2 * outer);
}

/// A squared distance is never negative.
pub proof fn lemma_dist_sq_nonneg(x: int, y: int, w: int, h: int)
    ensures
        spec_dist_sq(x, y, w, h) >= 0,
{
    let cx: int = w / 2;
    let cy: int = h / 2;
    assert((x - cx) * (x - cx) + (y - cy) * (y - cy) >= 0) by (nonlinear_arith);
}

/// Every undithered mask intensity is a byte.
pub proof fn lemma_mask_range(dd: int, radius: int)
    requires
        0 <= dd,
        0 <= radius,
    ensures
        0 <= spec_mask_value(dd, radius) <= 255,
{
    let inner: int = spec_inner_radius(radius);
    let outer: int = radius - inner;
    let c: int = spec_ceil_sqrt(dd as nat) as int;
    if c <= inner {
    } else if outer >= 1 && c < radius {
        lemma_inner_radius_bounds(radius);
        lemma_gradient_bounds(outer, radius - c);
    }
}

/// The vignette gradient is monotonically non-increasing in distance from
/// the center: a pixel farther out is never brighter than one closer in.
pub proof fn lemma_mask_monotone(radius: int, dd1: int, dd2: int)
    requires
        0 <= radius,
        0 <= dd1 <= dd2,
    ensures
        spec_mask_value(dd2, radius) <= spec_mask_value(dd1, radius),
{
    lemma_ceil_sqrt_monotone(dd1 as nat, dd2 as nat);
    lemma_inner_radius_bounds(radius);
    let inner: int = spec_inner_radius(radius);
    let outer: int = radius - inner;
    let c1: int = spec_ceil_sqrt(dd1 as nat) as int;
    let c2: int = spec_ceil_sqrt(dd2 as nat) as int;
    lemma_mask_range(dd1, radius);
    lemma_mask_range(dd2, radius);
    if c2 <= inner {
    } else if outer >= 1 && c2 < radius {
        if c1 <= inner {
            lemma_gradient_bounds(outer, radius - c2);
        } else {
            lemma_gradient_monotone(outer, radius - c2, radius - c1);
        }
    }
}

/// Dithering preserves the outward fade up to its tolerance: across any
/// dither-tolerant mask, a pixel farther from the center exceeds one
/// nearer by at most the two-sided dither range.
pub proof fn lemma_mask_monotone_dithered(radius: int, dd1: int, dd2: int, v1: int, v2: int)
    requires
        0 <= radius,
        0 <= dd1 <= dd2,
        spec_dither_ok(spec_mask_value(dd1, radius), v1, true),
        spec_dither_ok(spec_mask_value(dd2, radius), v2, true),
    ensures
        v2 <= v1 + 19,
{
    lemma_mask_monotone(radius, dd1, dd2);
}

/// At the center the mask is fully transparent.
pub proof fn lemma_mask_center(radius: int)
    requires
        0 <= radius,
    ensures
        spec_mask_value(0, radius) == 255,
{
    lemma_inner_radius_bounds(radius);
    assert(spec_floor_sqrt(0) == 0);
    assert(0int * 0 == 0) by (nonlinear_arith);
    assert(spec_ceil_sqrt(0) == 0);
}

/// At squared distances beyond the radius the mask darkens fully.
pub proof fn lemma_mask_beyond_radius(radius: int, dd: int)
    requires
        0 <= radius,
        dd > radius * radius,
    ensures
        spec_mask_value(dd, radius) == 0,
{
    lemma_ceil_sqrt_above(dd as nat, radius as nat);
    lemma_inner_radius_bounds(radius);
}

/// The undithered mask intensity of a pixel at squared distance `dd`.
fn mask_value_at(dd: u128, radius: u32) -> (v: u8)
    requires
        dd < 0x40000000000000000u128,
    ensures
        v as int == spec_mask_value(dd as int, radius as int),
{
    proof {
        lemma_inner_radius_bounds(radius as int);
    }
    let inner: u32 = ((33u64 * radius as u64 + 50) / 100) as u32;
    let c: u64 = ceil_sqrt_u128(dd);
    if c <= inner as u64 {
        255
    } else if inner < radius && c < radius as u64 {
        let outer: u64 = (radius - inner) as u64;
        let i: u64 = radius as u64 - c;
        proof {
            lemma_gradient_bounds(outer as int, i as int);
        }
        (((510 * i + outer) / (2 * outer)) as u8)
    } else {
        0
    }
}

/// Perturb every interior intensity by a small signed random offset,
/// clamped back into byte range, to break up banding.  Exact boundary
/// values (0 and 255) are left untouched.
pub fn gradient_noise(buffer: &mut GrayBuffer)
    requires
        old(buffer).wf(),
    ensures
        final(buffer).wf(),
        final(buffer).width == old(buffer).width,
        final(buffer).height == old(buffer).height,
        forall|k: int|
            0 <= k < old(buffer).data@.len() ==> spec_dither_ok(
                old(buffer).data@[k] as int,
                final(buffer).data@[k] as int,
                true,
            ),
{
    let total: usize = buffer.data.len();
    let mut k: usize = 0;
    while k < total
        invariant
            k <= total,
            total == old(buffer).data@.len(),
            buffer.wf(),
            buffer.width == old(buffer).width,
            buffer.height == old(buffer).height,
            buffer.data@.len() == old(buffer).data@.len(),
            forall|j: int|
                0 <= j < k ==> spec_dither_ok(
                    old(buffer).data@[j] as int,
                    buffer.data@[j] as int,
                    true,
                ),
            forall|j: int| k <= j < total ==> buffer.data@[j] == old(buffer).data@[j],
        decreases total - k,
    {
        let p: u8 = buffer.data[k];
        if p != 0 && p != 255 {
            let offset: i32 = rand_in_range(-10, 10);
            let moved: i32 = p as i32 + offset;
            let v: u8 = if moved < 0 {
                0
            } else if moved > 255 {
                255
            } else {
                moved as u8
            };
            buffer.data.set(k, v);
        }
        k = k + 1;
    }
}

/// Generate the vignette mask for an image of the given size.
///
/// Without noise every pixel holds exactly the gradient value for its
/// distance from the center; with noise each interior pixel may deviate
/// by at most the dither range, and boundary pixels stay exact.
pub fn create_vignette(width: u32, height: u32, radius: u32, noise: bool) -> (mask: GrayBuffer)
    requires
        width as int * height as int <= usize::MAX as int,
    ensures
        mask.wf(),
        mask.width == width,
        mask.height == height,
        forall|x: int, y: int|
            0 <= x < width && 0 <= y < height ==> spec_dither_ok(
                spec_mask_value(
                    spec_dist_sq(x, y, width as int, height as int),
                    radius as int,
                ),
                mask.data@[y * width as int + x] as int,
                noise,
            ),
{
    let cx: u32 = width / 2;
    let cy: u32 = height / 2;
    let mut data: Vec<u8> = Vec::new();
    let mut y: u32 = 0;
    while y < height
        invariant
            y <= height,
            width as int * height as int <= usize::MAX as int,
            cx == width / 2,
            cy == height / 2,
            data@.len() == y * width as int,
            forall|j: int|
                0 <= j < data@.len() ==> #[trigger] data@[j] as int == spec_mask_value(
                    spec_dist_sq(
                        j % (width as int),
                        j / (width as int),
                        width as int,
                        height as int,
                    ),
                    radius as int,
                ),
        decreases height - y,
    {
        let mut x: u32 = 0;
        while x < width
            invariant
                x <= width,
                y < height,
                width as int * height as int <= usize::MAX as int,
                cx == width / 2,
                cy == height / 2,
                data@.len() == y * width as int + x,
                forall|j: int|
                    0 <= j < data@.len() ==> #[trigger] data@[j] as int == spec_mask_value(
                        spec_dist_sq(
                            j % (width as int),
                            j / (width as int),
                            width as int,
                            height as int,
                        ),
                        radius as int,
                    ),
            decreases width - x,
        {
            let dx: i128 = x as i128 - cx as i128;
            let dy: i128 = y as i128 - cy as i128;
            proof {
                assert(0 <= dx * dx < 0x20000000000000000i128 && 0 <= dy * dy
                    < 0x20000000000000000i128) by (nonlinear_arith)
                    requires
                        -0x100000000 < dx < 0x100000000,
                        -0x100000000 < dy < 0x100000000,
                ;
                assert(data@.len() < width as int * height as int) by (nonlinear_arith)
                    requires
                        data@.len() == y * width as int + x,
                        0 <= x < width,
                        0 <= y < height,
                ;
                lemma_fundamental_div_mod_converse(
                    y * width as int + x,
                    width as int,
                    y as int,
                    x as int,
                );
            }
            let dd: u128 = (dx * dx + dy * dy) as u128;
            let v: u8 = mask_value_at(dd, radius);
            data.push(v);
            x = x + 1;
        }
        proof {
            assert((y + 1) * width as int == y * width as int + width) by (nonlinear_arith);
        }
        y = y + 1;
    }
    proof {
        assert(height as int * width as int == width as int * height as int)
            by (nonlinear_arith);
    }
    let mut mask: GrayBuffer = GrayBuffer { width, height, data };
    let ghost undithered = mask;
    proof {
        assert forall|x: int, y: int| 0 <= x < width && 0 <= y < height implies mask.data@[y
            * width as int + x] as int == spec_mask_value(
            spec_dist_sq(x, y, width as int, height as int),
            radius as int,
        ) by {
            crate::math::lemma_rgb_index_bound(x, y, width as int, height as int);
            lemma_fundamental_div_mod_converse(y * (width as int) + x, width as int, y, x);
        }
    }
    if noise {
        gradient_noise(&mut mask);
        proof {
            assert forall|x: int, y: int| 0 <= x < width && 0 <= y < height implies
                spec_dither_ok(
                spec_mask_value(
                    spec_dist_sq(x, y, width as int, height as int),
                    radius as int,
                ),
                mask.data@[y * width as int + x] as int,
                noise,
            ) by {
                crate::math::lemma_rgb_index_bound(x, y, width as int, height as int);
                let k: int = y * width as int + x;
                assert(spec_dither_ok(
                    undithered.data@[k] as int,
                    mask.data@[k] as int,
                    true,
                ));
            }
        }
    }
    mask
}

} // verus!
