//! Bleach-bypass overlay generator.
//!
//! The effect approximates skipping the bleach bath in film development:
//! a softened copy of the base image is desaturated to its luma and its
//! contrast doubled around mid gray.  Composited with the Overlay blend
//! mode it raises contrast rather than darkening.  Degenerate geometry
//! (a zero-sized image) yields no overlay instead of failing.

use vstd::prelude::*;
use vstd::arithmetic::div_mod::lemma_div_is_ordered;
use vstd::arithmetic::div_mod::lemma_div_multiples_vanish_fancy;
use vstd::arithmetic::div_mod::lemma_div_pos_is_pos;
use vstd::arithmetic::div_mod::lemma_fundamental_div_mod_converse;

use crate::blur::blur3;
use crate::blur::spec_blur3_seq;
use crate::buffer::RgbBuffer;

verus! {

/// Luma of a pixel under the standard-definition weighting, rounded down.
pub open spec fn spec_luma(r: int, g: int, b: int) -> int {
    (299 * r + 587 * g + 114 * b) / 1000
}

/// Double the distance from mid gray, clamped back into byte range.
pub open spec fn spec_contrast_boost(v: int) -> int {
    let stretched: int = 128 + 2 * (v - 128);
    if stretched < 0 {
        0
    } else if stretched > 255 {
        255
    } else {
        stretched
    }
}

/// The overlay byte at flat channel index `j`: the contrast-boosted luma
/// of `j`'s pixel, replicated into every channel.
pub open spec fn spec_bleach_at(data: Seq<u8>, j: int) -> int {
    let p: int = 3 * (j / 3);
    spec_contrast_boost(spec_luma(data[p] as int, data[p + 1] as int, data[p + 2] as int))
}

/// `n` passes of the softening blur.
pub open spec fn spec_blur_iter(data: Seq<u8>, w: int, h: int, n: nat) -> Seq<u8>
    decreases n,
{
    if n == 0 {
        data
    } else {
        spec_blur3_seq(spec_blur_iter(data, w, h, (n - 1) as nat), w, h)
    }
}

pub proof fn lemma_luma_range(r: int, g: int, b: int)
    requires
        0 <= r <= 255,
        0 <= g <= 255,
        0 <= b <= 255,
    ensures
        0 <= spec_luma(r, g, b) <= 255,
{
    lemma_div_pos_is_pos(299 * r + 587 * g + 114 * b, 1000);
    assert((1000 * 255 + 0) / 1000 == 255) by {
        lemma_div_multiples_vanish_fancy(255, 0, 1000);
    }
    assert(1000int * 255 == 255000) by (nonlinear_arith);
    lemma_div_is_ordered(299 * r + 587 * g + 114 * b, 255000, 1000);
}

/// Generate the bleach-bypass overlay for a base image, or nothing for a
/// degenerate (zero-sized) image.
///
/// The base is softened by `blur_passes` rounds of the light blur, then
/// every pixel is replaced by its contrast-boosted luma.
pub fn bleach_bypass(base_image: &RgbBuffer, blur_passes: u8) -> (overlay: Option<RgbBuffer>)
    requires
        base_image.wf(),
    ensures
        (overlay is None) <==> (base_image.width == 0 || base_image.height == 0),
        overlay matches Some(o) ==> o.wf() && o.width == base_image.width && o.height
            == base_image.height,
        overlay matches Some(o) ==> forall|j: int|
            0 <= j < o.data@.len() ==> #[trigger] o.data@[j] as int == spec_bleach_at(
                spec_blur_iter(
                    base_image.data@,
                    base_image.width as int,
                    base_image.height as int,
                    blur_passes as nat,
                ),
                j,
            ),
{
    if base_image.width == 0 || base_image.height == 0 {
        return None;
    }
    let w: u32 = base_image.width;
    let h: u32 = base_image.height;
    let mut blurred: RgbBuffer = base_image.duplicate();
    let mut pass: u8 = 0;
    while pass < blur_passes
        invariant
            pass <= blur_passes,
            base_image.wf(),
            base_image.width == w,
            base_image.height == h,
            blurred.wf(),
            blurred.width == w,
            blurred.height == h,
            blurred.data@ == spec_blur_iter(base_image.data@, w as int, h as int, pass as nat),
        decreases blur_passes - pass,
    {
        blurred = blur3(&blurred);
        pass = pass + 1;
    }
    let len_b: usize = blurred.data.len();
    proof {
        assert(3 * (w as int * h as int) == w as int * h as int * 3) by (nonlinear_arith);
        assert((w as u64 as int) * (h as u64 as int) <= 0xffffffffffffffff)
            by (nonlinear_arith)
            requires
                w <= 0xffffffffu32,
                h <= 0xffffffffu32,
        ;
    }
    let total_px: usize = (w as u64 * h as u64) as usize;
    let mut data: Vec<u8> = Vec::new();
    let mut i: usize = 0;
    while i < total_px
        invariant
            i <= total_px,
            total_px == w as int * h as int,
            blurred.wf(),
            blurred.width == w,
            blurred.height == h,
            blurred.data@.len() == 3 * (w as int * h as int),
            3 * (w as int * h as int) <= usize::MAX as int,
            data@.len() == 3 * i,
            forall|j: int|
                0 <= j < data@.len() ==> #[trigger] data@[j] as int == spec_bleach_at(
                    blurred.data@,
                    j,
                ),
        decreases total_px - i,
    {
        let r: u8 = blurred.data[3 * i];
        let g: u8 = blurred.data[3 * i + 1];
        let b: u8 = blurred.data[3 * i + 2];
        let lum: u32 = (299 * r as u32 + 587 * g as u32 + 114 * b as u32) / 1000;
        proof {
            lemma_luma_range(r as int, g as int, b as int);
        }
        let stretched: i32 = 128 + 2 * (lum as i32 - 128);
        let v: u8 = if stretched < 0 {
            0
        } else if stretched > 255 {
            255
        } else {
            stretched as u8
        };
        proof {
            lemma_fundamental_div_mod_converse(3 * i as int, 3, i as int, 0);
            lemma_fundamental_div_mod_converse(3 * i as int + 1, 3, i as int, 1);
            lemma_fundamental_div_mod_converse(3 * i as int + 2, 3, i as int, 2);
        }
        data.push(v);
        data.push(v);
        data.push(v);
        i = i + 1;
    }
    let overlay: RgbBuffer = RgbBuffer { width: w, height: h, data };
    proof {
        assert(blurred.data@ == spec_blur_iter(
            base_image.data@,
            w as int,
            h as int,
            blur_passes as nat,
        ));
    }
    Some(overlay)
}

} // verus!
