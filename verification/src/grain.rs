//! Film-grain overlay generator.
//!
//! The overlay starts as a white field, the identity of the Multiply
//! blend, so that unperturbed pixels leave the base image untouched.
//! Each pixel independently rolls against the strength and, on a hit,
//! darkens all three of its channels by the same random amount, after
//! which a light blur softens the single-pixel noise into grain.
//!
//! Each call draws fresh randomness, so two calls with equal parameters
//! differ by design; what holds of every outcome is the deviation bound:
//! no channel falls below white minus the maximal perturbation.

use vstd::prelude::*;
use vstd::arithmetic::div_mod::lemma_fundamental_div_mod_converse;

use crate::blur::blur3;
use crate::blur::lemma_blur3_flat_bounds;
use crate::blur::spec_blur3_seq;
use crate::buffer::RgbBuffer;
use crate::rng::rand_in_range;

verus! {

/// A raw noise field that one roll of the generator could have produced:
/// white, except that some pixels are darkened into the band by a single
/// amount shared by their three channels.
pub open spec fn spec_grain_field_ok(field: Seq<u8>, w: int, h: int, strength: int) -> bool {
    &&& field.len() == w * h * 3
    &&& forall|k: int| 0 <= k < field.len() ==> 206 <= #[trigger] field[k] as int <= 255
    &&& forall|k: int| 0 <= k < field.len() ==> #[trigger] field[k] == field[3 * (k / 3)]
    &&& strength == 0 ==> forall|k: int| 0 <= k < field.len() ==> #[trigger] field[k] == 255u8
}

/// Generate a grain overlay for an image of the given size.
///
/// `noise_amount` is the percentage of pixels perturbed.  The result is
/// the softened form of some per-pixel noise field: every channel stays
/// within the strength-derived band below white, and a zero strength
/// yields the all-white identity overlay exactly.
pub fn film_grain(width: u32, height: u32, noise_amount: u8) -> (grain: RgbBuffer)
    requires
        width as int * height as int * 3 <= usize::MAX as int,
        noise_amount <= 100,
    ensures
        grain.wf(),
        grain.width == width,
        grain.height == height,
        forall|k: int| 0 <= k < grain.data@.len() ==> 206 <= #[trigger] grain.data@[k] as int <= 255,
        noise_amount == 0 ==> forall|k: int|
            0 <= k < grain.data@.len() ==> #[trigger] grain.data@[k] == 255u8,
        exists|field: Seq<u8>|
            spec_grain_field_ok(field, width as int, height as int, noise_amount as int)
                && grain.data@ == spec_blur3_seq(field, width as int, height as int),
{
    let total_px: usize = (width as u64 * height as u64) as usize;
    let mut data: Vec<u8> = Vec::new();
    let mut i: usize = 0;
    while i < total_px
        invariant
            i <= total_px,
            total_px == width as int * height as int,
            width as int * height as int * 3 <= usize::MAX as int,
            noise_amount <= 100,
            data@.len() == 3 * i,
            forall|k: int| 0 <= k < data@.len() ==> 206 <= #[trigger] data@[k] as int <= 255,
            forall|k: int| 0 <= k < data@.len() ==> #[trigger] data@[k] == data@[3 * (k / 3)],
            noise_amount == 0 ==> forall|k: int|
                0 <= k < data@.len() ==> #[trigger] data@[k] == 255u8,
        decreases total_px - i,
    {
        let roll: i32 = rand_in_range(0, 100);
        let v: u8 = if roll < noise_amount as i32 {
            let delta: i32 = rand_in_range(0, 50);
            (255 - delta) as u8
        } else {
            255
        };
        data.push(v);
        data.push(v);
        data.push(v);
        proof {
            lemma_fundamental_div_mod_converse(3 * i as int, 3, i as int, 0);
            lemma_fundamental_div_mod_converse(3 * i as int + 1, 3, i as int, 1);
            lemma_fundamental_div_mod_converse(3 * i as int + 2, 3, i as int, 2);
            assert forall|k: int| 0 <= k < data@.len() implies #[trigger] data@[k] == data@[3 * (
            k / 3)] by {
                vstd::arithmetic::div_mod::lemma_fundamental_div_mod(k, 3);
                vstd::arithmetic::div_mod::lemma_mod_bound(k, 3);
            }
        }
        i = i + 1;
    }
    proof {
        assert(3 * (width as int * height as int) == width as int * height as int * 3)
            by (nonlinear_arith);
    }
    let field: RgbBuffer = RgbBuffer { width, height, data };
    let out: RgbBuffer = blur3(&field);
    proof {
        assert forall|k: int| 0 <= k < out.data@.len() implies 206 <= #[trigger] out.data@[
            k] as int <= 255 by {
            lemma_blur3_flat_bounds(field.data@, width as int, height as int, k, 206, 255);
        }
        if noise_amount == 0 {
            assert forall|k: int| 0 <= k < out.data@.len() implies #[trigger] out.data@[k]
                == 255u8 by {
                lemma_blur3_flat_bounds(field.data@, width as int, height as int, k, 255, 255);
            }
        }
        assert(spec_grain_field_ok(
            field.data@,
            width as int,
            height as int,
            noise_amount as int,
        ));
        assert(out.data@ == spec_blur3_seq(field.data@, width as int, height as int));
    }
    out
}

} // verus!
