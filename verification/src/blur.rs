//! A light softening blur: one pass of a 3x3 binomial kernel with edge
//! replication.
//!
//! The overlay generators use it to soften single-pixel noise into a
//! believable texture; the kernel radius is deliberately small.  The
//! result at every channel is the rounded weighted average of the 3x3
//! neighborhood, so a buffer whose bytes lie in a band stays in that
//! band, which keeps the grain generator's deviation bound intact.

use vstd::prelude::*;
use vstd::arithmetic::div_mod::lemma_div_is_ordered;
use vstd::arithmetic::div_mod::lemma_div_multiples_vanish_fancy;

use crate::buffer::RgbBuffer;
use crate::math::lemma_flat_pixel_decode;
use crate::math::lemma_rgb_index_bound;

verus! {

/// A coordinate clamped into `0 ..= hi`: neighbors of border pixels fall
/// back on the border pixel itself.
pub open spec fn spec_clamp_coord(v: int, hi: int) -> int {
    if v < 0 {
        0
    } else if v > hi {
        hi
    } else {
        v
    }
}

/// The byte of channel `c` of pixel `(x, y)` in a flat buffer of width `w`.
pub open spec fn spec_px(data: Seq<u8>, w: int, x: int, y: int, c: int) -> int {
    data[(y * w + x) * 3 + c] as int
}

/// The blurred value of channel `c` at `(x, y)`: the 3x3 binomial
/// weighting (corners 1, edges 2, center 4, total 16) of the clamped
/// neighborhood, rounded to nearest.
pub open spec fn spec_blur3_at(data: Seq<u8>, w: int, h: int, x: int, y: int, c: int) -> int {
    let xl: int = spec_clamp_coord(x - 1, w - 1);
    let xr: int = spec_clamp_coord(x + 1, w - 1);
    let yu: int = spec_clamp_coord(y - 1, h - 1);
    let yd: int = spec_clamp_coord(y + 1, h - 1);
    let s: int = spec_px(data, w, xl, yu, c) + 2 * spec_px(data, w, x, yu, c) + spec_px(
        data,
        w,
        xr,
        yu,
        c,
    ) + 2 * spec_px(data, w, xl, y, c) + 4 * spec_px(data, w, x, y, c) + 2 * spec_px(
        data,
        w,
        xr,
        y,
        c,
    ) + spec_px(data, w, xl, yd, c) + 2 * spec_px(data, w, x, yd, c) + spec_px(
        data,
        w,
        xr,
        yd,
        c,
    );
    (s + 8) / 16
}

/// The blurred value at flat channel index `j`.
pub open spec fn spec_blur3_flat(data: Seq<u8>, w: int, h: int, j: int) -> int {
    spec_blur3_at(data, w, h, (j / 3) % w, (j / 3) / w, j % 3)
}

/// One whole blurred buffer.
pub open spec fn spec_blur3_seq(data: Seq<u8>, w: int, h: int) -> Seq<u8> {
    Seq::new(data.len(), |j: int| spec_blur3_flat(data, w, h, j) as u8)
}

/// A weighted average stays inside any band that holds all its inputs.
pub proof fn lemma_blur3_at_bounds(
    data: Seq<u8>,
    w: int,
    h: int,
    x: int,
    y: int,
    c: int,
    lo: int,
    hi: int,
)
    requires
        data.len() == w * h * 3,
        0 <= x < w,
        0 <= y < h,
        0 <= c < 3,
        0 <= lo <= hi <= 255,
        forall|k: int| 0 <= k < data.len() ==> lo <= #[trigger] data[k] as int <= hi,
    ensures
        lo <= spec_blur3_at(data, w, h, x, y, c) <= hi,
{
    let xl: int = spec_clamp_coord(x - 1, w - 1);
    let xr: int = spec_clamp_coord(x + 1, w - 1);
    let yu: int = spec_clamp_coord(y - 1, h - 1);
    let yd: int = spec_clamp_coord(y + 1, h - 1);
    lemma_rgb_index_bound(xl, yu, w, h);
    lemma_rgb_index_bound(x, yu, w, h);
    lemma_rgb_index_bound(xr, yu, w, h);
    lemma_rgb_index_bound(xl, y, w, h);
    lemma_rgb_index_bound(x, y, w, h);
    lemma_rgb_index_bound(xr, y, w, h);
    lemma_rgb_index_bound(xl, yd, w, h);
    lemma_rgb_index_bound(x, yd, w, h);
    lemma_rgb_index_bound(xr, yd, w, h);
    let s: int = spec_px(data, w, xl, yu, c) + 2 * spec_px(data, w, x, yu, c) + spec_px(
        data,
        w,
        xr,
        yu,
        c,
    ) + 2 * spec_px(data, w, xl, y, c) + 4 * spec_px(data, w, x, y, c) + 2 * spec_px(
        data,
        w,
        xr,
        y,
        c,
    ) + spec_px(data, w, xl, yd, c) + 2 * spec_px(data, w, x, yd, c) + spec_px(
        data,
        w,
        xr,
        yd,
        c,
    );
    assert(16 * lo <= s <= 16 * hi);
    assert((16 * lo + 8) / 16 == lo) by {
        lemma_div_multiples_vanish_fancy(lo, 8, 16);
    }
    assert((16 * hi + 8) / 16 == hi) by {
        lemma_div_multiples_vanish_fancy(hi, 8, 16);
    }
    lemma_div_is_ordered(16 * lo + 8, s + 8, 16);
    lemma_div_is_ordered(s + 8, 16 * hi + 8, 16);
}

/// The banded bound, stated per flat index.
pub proof fn lemma_blur3_flat_bounds(data: Seq<u8>, w: int, h: int, j: int, lo: int, hi: int)
    requires
        data.len() == w * h * 3,
        0 <= j < data.len(),
        0 <= w,
        0 <= h,
        0 <= lo <= hi <= 255,
        forall|k: int| 0 <= k < data.len() ==> lo <= #[trigger] data[k] as int <= hi,
    ensures
        lo <= spec_blur3_flat(data, w, h, j) <= hi,
{
    lemma_flat_pixel_decode(w, h, j);
    lemma_blur3_at_bounds(data, w, h, (j / 3) % w, (j / 3) / w, j % 3, lo, hi);
}

/// Blur a buffer with one pass of the 3x3 kernel.
#[verifier::rlimit(100)]
pub fn blur3(src: &RgbBuffer) -> (out: RgbBuffer)
    requires
        src.wf(),
    ensures
        out.wf(),
        out.width == src.width,
        out.height == src.height,
        out.data@ == spec_blur3_seq(src.data@, src.width as int, src.height as int),
        forall|j: int|
            0 <= j < out.data@.len() ==> #[trigger] out.data@[j] as int == spec_blur3_flat(
                src.data@,
                src.width as int,
                src.height as int,
                j,
            ),
{
    let w: u32 = src.width;
    let h: u32 = src.height;
    let total: usize = src.data.len();
    let mut data: Vec<u8> = Vec::new();
    let mut j: usize = 0;
    while j < total
        invariant
            j <= total,
            total == w as int * h as int * 3,
            src.wf(),
            src.width == w,
            src.height == h,
            data@.len() == j,
            forall|jj: int|
                0 <= jj < j ==> #[trigger] data@[jj] as int == spec_blur3_flat(
                    src.data@,
                    w as int,
                    h as int,
                    jj,
                ),
        decreases total - j,
    {
        proof {
            lemma_flat_pixel_decode(w as int, h as int, j as int);
        }
        let p: usize = j / 3;
        let c: u32 = (j % 3) as u32;
        let x: u32 = (p % w as usize) as u32;
        let y: u32 = (p / w as usize) as u32;
        let xl: u32 = if x == 0 {
            0
        } else {
            x - 1
        };
        let xr: u32 = if x + 1 >= w {
            w - 1
        } else {
            x + 1
        };
        let yu: u32 = if y == 0 {
            0
        } else {
            y - 1
        };
        let yd: u32 = if y + 1 >= h {
            h - 1
        } else {
            y + 1
        };
        let s: u32 = src.get(xl, yu, c) as u32 + 2 * src.get(x, yu, c) as u32 + src.get(
            xr,
            yu,
            c,
        ) as u32 + 2 * src.get(xl, y, c) as u32 + 4 * src.get(x, y, c) as u32 + 2 * src.get(
            xr,
            y,
            c,
        ) as u32 + src.get(xl, yd, c) as u32 + 2 * src.get(x, yd, c) as u32 + src.get(
            xr,
            yd,
            c,
        ) as u32;
        let v: u8 = ((s + 8) / 16) as u8;
        proof {
            assert(v as int == spec_blur3_at(
                src.data@,
                w as int,
                h as int,
                x as int,
                y as int,
                c as int,
            ));
            assert(v as int == spec_blur3_flat(src.data@, w as int, h as int, j as int));
        }
        data.push(v);
        j = j + 1;
    }
    let out: RgbBuffer = RgbBuffer { width: w, height: h, data };
    proof {
        assert(out.data@ =~= spec_blur3_seq(src.data@, w as int, h as int)) by {
            assert forall|jj: int| 0 <= jj < out.data@.len() implies out.data@[jj]
                == spec_blur3_seq(src.data@, w as int, h as int)[jj] by {
                lemma_blur3_flat_bounds(src.data@, w as int, h as int, jj, 0, 255);
            }
        }
    }
    out
}

} // verus!
