//! Color-space blend primitives.
//!
//! Pixels are stored gamma-encoded.  Blending happens in linear light:
//! a channel byte `s` is decoded to `s * s` (a fixed-point linear value in
//! `0 ..= 65025`), the blend operator and the opacity fade are applied
//! there, and the result is re-encoded as the nearest byte whose square
//! matches.  The decode/encode pair round-trips exactly, which is what
//! makes the identity laws below hold bit-for-bit.
//!
//! The base pixel is treated as opaque; the overlay pixel carries the
//! effect's opacity, a fade weight in `0 ..= 100` hundredths.

use vstd::prelude::*;
use vstd::arithmetic::div_mod::lemma_div_is_ordered;
use vstd::arithmetic::div_mod::lemma_div_multiples_vanish_fancy;
use vstd::arithmetic::div_mod::lemma_div_pos_is_pos;

use crate::buffer::RgbBuffer;
use crate::math::lemma_floor_sqrt_bounds;
use crate::math::lemma_floor_sqrt_unique;
use crate::math::spec_floor_sqrt;

verus! {

/// The photographic operator combining a base and an overlay channel in
/// linear light.
#[derive(Clone, Copy, Debug)]
pub enum BlendMode {
    Multiply,
    Overlay,
}

/// Decode a gamma-encoded channel byte to fixed-point linear light.
/// White (255) decodes to 65025, the fixed-point one.
pub open spec fn spec_lin(s: int) -> int {
    s * s
}

/// Re-encode a linear value as the nearest byte whose square matches.
/// Ties cannot arise: consecutive squares are never equidistant from an
/// integer.
pub open spec fn spec_enc(v: int) -> int
    recommends
        0 <= v <= 65025,
{
    let f: int = spec_floor_sqrt(v as nat) as int;
    if v - f * f <= (f + 1) * (f + 1) - v {
        f
    } else {
        f + 1
    }
}

/// Multiply blend in linear light, rounded to the nearest fixed-point
/// value: `base * top` with the product renormalized by white.
pub open spec fn spec_multiply(lb: int, lt: int) -> int {
    (lb * lt + 32512) / 65025
}

/// Overlay blend in linear light: multiply against the doubled base where
/// the base is at most half white, screen above it.
pub open spec fn spec_overlay(lb: int, lt: int) -> int {
    if 2 * lb <= 65025 {
        (2 * lb * lt + 32512) / 65025
    } else {
        65025 - (2 * (65025 - lb) * (65025 - lt) + 32512) / 65025
    }
}

pub open spec fn spec_blend_op(mode: BlendMode, lb: int, lt: int) -> int {
    match mode {
        BlendMode::Multiply => spec_multiply(lb, lt),
        BlendMode::Overlay => spec_overlay(lb, lt),
    }
}

/// Fade the blended value towards the untouched base by the overlay's
/// opacity `alpha` (in hundredths), rounded to nearest.
pub open spec fn spec_mix(lb: int, bl: int, alpha: int) -> int {
    (alpha * bl + (100 - alpha) * lb + 50) / 100
}

/// One channel of the full blend pipeline: decode both bytes, blend,
/// fade by opacity, re-encode.
pub open spec fn spec_blend_channel(b: int, t: int, alpha: int, mode: BlendMode) -> int {
    spec_enc(spec_mix(spec_lin(b), spec_blend_op(mode, spec_lin(b), spec_lin(t)), alpha))
}

pub proof fn lemma_lin_range(s: int)
    requires
        0 <= s <= 255,
    ensures
        0 <= spec_lin(s) <= 65025,
{
    assert(0 <= s * s <= 65025) by (nonlinear_arith)
        requires
            0 <= s <= 255,
    ;
}

pub proof fn lemma_blend_op_range(mode: BlendMode, lb: int, lt: int)
    requires
        0 <= lb <= 65025,
        0 <= lt <= 65025,
    ensures
        0 <= spec_blend_op(mode, lb, lt) <= 65025,
{
    assert((65025 * 65025 + 32512) / 65025 == 65025) by {
        lemma_div_multiples_vanish_fancy(65025, 32512, 65025);
    }
    assert((65025 * 65024 + 32512) / 65025 == 65024) by {
        lemma_div_multiples_vanish_fancy(65024, 32512, 65025);
    }
    match mode {
        BlendMode::Multiply => {
            assert(0 <= lb * lt <= 65025 * 65025) by (nonlinear_arith)
                requires
                    0 <= lb <= 65025,
                    0 <= lt <= 65025,
            ;
            lemma_div_pos_is_pos(lb * lt + 32512, 65025);
            lemma_div_is_ordered(lb * lt + 32512, 65025int * 65025 + 32512, 65025);
        },
        BlendMode::Overlay => {
            if 2 * lb <= 65025 {
                assert(0 <= 2 * lb * lt <= 65025 * 65025) by (nonlinear_arith)
                    requires
                        0 <= 2 * lb <= 65025,
                        0 <= lt <= 65025,
                ;
                lemma_div_pos_is_pos(2 * lb * lt + 32512, 65025);
                lemma_div_is_ordered(2 * lb * lt + 32512, 65025int * 65025 + 32512, 65025);
            } else {
                let u: int = 65025 - lb;
                let v: int = 65025 - lt;
                assert(0 <= 2 * u * v <= 65025 * 65024) by (nonlinear_arith)
                    requires
                        0 <= 2 * u <= 65024,
                        0 <= v <= 65025,
                ;
                lemma_div_pos_is_pos(2 * u * v + 32512, 65025);
                lemma_div_is_ordered(2 * u * v + 32512, 65025int * 65024 + 32512, 65025);
            }
        },
    }
}

pub proof fn lemma_mix_range(lb: int, bl: int, alpha: int)
    requires
        0 <= lb <= 65025,
        0 <= bl <= 65025,
        0 <= alpha <= 100,
    ensures
        0 <= spec_mix(lb, bl, alpha) <= 65025,
{
    assert(0 <= alpha * bl + (100 - alpha) * lb <= 100 * 65025) by (nonlinear_arith)
        requires
            0 <= lb <= 65025,
            0 <= bl <= 65025,
            0 <= alpha <= 100,
    ;
    assert((100 * 65025 + 50) / 100 == 65025) by {
        lemma_div_multiples_vanish_fancy(65025, 50, 100);
    }
    lemma_div_pos_is_pos(alpha * bl + (100 - alpha) * lb + 50, 100);
    lemma_div_is_ordered(alpha * bl + (100 - alpha) * lb + 50, 100int * 65025 + 50, 100);
}

pub proof fn lemma_enc_range(v: int)
    requires
        0 <= v <= 65025,
    ensures
        0 <= spec_enc(v) <= 255,
{
    lemma_floor_sqrt_bounds(v as nat);
    let f: int = spec_floor_sqrt(v as nat) as int;
    assert(f <= 255) by (nonlinear_arith)
        requires
            f * f <= v,
            v <= 65025,
            f >= 0,
    ;
    if f == 255 {
        assert(v - f * f <= (f + 1) * (f + 1) - v) by (nonlinear_arith)
            requires
                f == 255,
                v <= 65025,
                v < (f + 1) * (f + 1),
    ;
    }
}

/// Decoding then re-encoding a byte gives the byte back.
pub proof fn lemma_enc_lin(s: int)
    requires
        0 <= s <= 255,
    ensures
        spec_enc(spec_lin(s)) == s,
{
    assert(s * s <= s * s && s * s < (s + 1) * (s + 1)) by (nonlinear_arith)
        requires
            0 <= s,
    ;
    lemma_floor_sqrt_unique((s * s) as nat, s as nat);
}

/// Blending with opacity zero leaves the base channel unchanged, for
/// either blend mode.
pub proof fn lemma_blend_opacity_zero(b: int, t: int, mode: BlendMode)
    requires
        0 <= b <= 255,
        0 <= t <= 255,
    ensures
        spec_blend_channel(b, t, 0, mode) == b,
{
    let lb: int = spec_lin(b);
    let bl: int = spec_blend_op(mode, lb, spec_lin(t));
    assert(0 * bl == 0) by (nonlinear_arith);
    assert((100 * lb + 50) / 100 == lb) by {
        lemma_div_multiples_vanish_fancy(lb, 50, 100);
    }
    assert(spec_mix(lb, bl, 0) == lb);
    lemma_enc_lin(b);
}

/// Multiplying by a fully white overlay leaves the base channel
/// unchanged, whatever the opacity.
pub proof fn lemma_multiply_white(b: int, alpha: int)
    requires
        0 <= b <= 255,
        0 <= alpha <= 100,
    ensures
        spec_blend_channel(b, 255, alpha, BlendMode::Multiply) == b,
{
    let lb: int = spec_lin(b);
    lemma_lin_range(b);
    assert(spec_lin(255) == 65025) by (nonlinear_arith);
    assert((lb * 65025 + 32512) / 65025 == lb) by {
        lemma_div_multiples_vanish_fancy(lb, 32512, 65025);
        assert(65025 * lb == lb * 65025) by (nonlinear_arith);
    }
    assert(spec_multiply(lb, 65025) == lb);
    assert(alpha * lb + (100 - alpha) * lb == 100 * lb) by (nonlinear_arith);
    assert((100 * lb + 50) / 100 == lb) by {
        lemma_div_multiples_vanish_fancy(lb, 50, 100);
    }
    assert(spec_mix(lb, lb, alpha) == lb);
    lemma_enc_lin(b);
}

/// Multiplying by a fully black overlay at full opacity drives the
/// channel to black.
pub proof fn lemma_multiply_black(b: int)
    requires
        0 <= b <= 255,
    ensures
        spec_blend_channel(b, 0, 100, BlendMode::Multiply) == 0,
{
    let lb: int = spec_lin(b);
    assert(spec_lin(0) == 0) by (nonlinear_arith);
    assert(lb * 0 == 0) by (nonlinear_arith);
    assert((0 + 32512) / 65025 == 0) by {
        lemma_div_multiples_vanish_fancy(0, 32512, 65025);
    }
    assert(spec_multiply(lb, 0) == 0);
    assert(100 * 0 == 0 && (100 - 100) * lb == 0) by (nonlinear_arith);
    assert((0 + 50) / 100 == 0) by {
        lemma_div_multiples_vanish_fancy(0, 50, 100);
    }
    assert(spec_mix(lb, 0, 100) == 0);
    assert(spec_floor_sqrt(0) == 0);
    assert(spec_enc(0) == 0) by (nonlinear_arith)
        requires
            spec_floor_sqrt(0) == 0,
            spec_enc(0) == (if 0 - 0 * 0 <= (0 + 1) * (0 + 1) - 0 {
                0int
            } else {
                1int
            }),
    ;
}

/// Re-encode a fixed-point linear value as the nearest channel byte.
fn enc_gamma(v: u64) -> (s: u8)
    requires
        v <= 65025,
    ensures
        s as int == spec_enc(v as int),
{
    let n: u32 = v as u32;
    let mut lo: u32 = 0;
    let mut hi: u32 = 255;
    proof {
        assert(256int * 256 > 65025) by (nonlinear_arith);
    }
    while lo < hi
        invariant
            lo <= hi,
            hi <= 255,
            n <= 65025,
            lo * lo <= n,
            n < (hi + 1) * (hi + 1),
        decreases hi - lo,
    {
        let mid: u32 = lo + (hi - lo + 1) / 2;
        proof {
            assert(mid as int * mid as int <= 65536) by (nonlinear_arith)
                requires
                    mid <= 256,
            ;
        }
        if mid * mid <= n {
            lo = mid;
        } else {
            hi = mid - 1;
        }
    }
    let f: u32 = lo;
    proof {
        lemma_floor_sqrt_unique(n as nat, f as nat);
        lemma_floor_sqrt_bounds(v as nat);
        assert((f as int + 1) * (f as int + 1) <= 65536) by (nonlinear_arith)
            requires
                f <= 255,
        ;
    }
    if v - (f * f) as u64 <= ((f + 1) * (f + 1)) as u64 - v {
        f as u8
    } else {
        proof {
            lemma_enc_range(v as int);
        }
        (f + 1) as u8
    }
}

/// One channel of the blend pipeline on bytes.
pub fn blend_channel(b: u8, t: u8, alpha: u8, mode: BlendMode) -> (r: u8)
    requires
        alpha <= 100,
    ensures
        r as int == spec_blend_channel(b as int, t as int, alpha as int, mode),
{
    proof {
        lemma_lin_range(b as int);
        lemma_lin_range(t as int);
    }
    let lb: u64 = b as u64 * b as u64;
    let lt: u64 = t as u64 * t as u64;
    proof {
        lemma_blend_op_range(mode, lb as int, lt as int);
    }
    let bl: u64 = match mode {
        BlendMode::Multiply => (lb * lt + 32512) / 65025,
        BlendMode::Overlay => {
            if 2 * lb <= 65025 {
                (2 * lb * lt + 32512) / 65025
            } else {
                proof {
                    assert(0 <= 2 * (65025 - lb as int) * (65025 - lt as int) <= 65025
                        * 65024) by (nonlinear_arith)
                        requires
                            2 * lb as int > 65025,
                            lb <= 65025,
                            lt <= 65025,
                    ;
                    lemma_div_pos_is_pos(
                        2 * (65025 - lb as int) * (65025 - lt as int) + 32512,
                        65025,
                    );
                    lemma_div_is_ordered(
                        2 * (65025 - lb as int) * (65025 - lt as int) + 32512,
                        65025int * 65024 + 32512,
                        65025,
                    );
                    assert((65025 * 65024 + 32512) / 65025 == 65024) by {
                        lemma_div_multiples_vanish_fancy(65024, 32512, 65025);
                    }
                }
                65025 - (2 * (65025 - lb) * (65025 - lt) + 32512) / 65025
            }
        },
    };
    proof {
        lemma_mix_range(lb as int, bl as int, alpha as int);
    }
    let mixed: u64 = (alpha as u64 * bl + (100 - alpha as u64) * lb + 50) / 100;
    enc_gamma(mixed)
}

/// Blend an overlay onto a base image channel by channel.
///
/// Every channel of the result is the blend of the corresponding base and
/// overlay channels; opacity zero leaves the base bytes untouched.
pub fn palette_blend(base_image: &mut RgbBuffer, top_image: &RgbBuffer, alpha: u8, mode: BlendMode)
    requires
        old(base_image).wf(),
        top_image.wf(),
        old(base_image).width == top_image.width,
        old(base_image).height == top_image.height,
        alpha <= 100,
    ensures
        final(base_image).wf(),
        final(base_image).width == old(base_image).width,
        final(base_image).height == old(base_image).height,
        final(base_image).data@.len() == old(base_image).data@.len(),
        forall|k: int|
            0 <= k < old(base_image).data@.len() ==> final(base_image).data@[k] as int
                == spec_blend_channel(
                old(base_image).data@[k] as int,
                top_image.data@[k] as int,
                alpha as int,
                mode,
            ),
        alpha == 0 ==> final(base_image).data@ == old(base_image).data@,
{
    let total: usize = base_image.data.len();
    let mut k: usize = 0;
    while k < total
        invariant
            k <= total,
            total == old(base_image).data@.len(),
            base_image.wf(),
            base_image.width == old(base_image).width,
            base_image.height == old(base_image).height,
            base_image.data@.len() == old(base_image).data@.len(),
            top_image.wf(),
            top_image.width == old(base_image).width,
            top_image.height == old(base_image).height,
            alpha <= 100,
            forall|j: int|
                0 <= j < k ==> base_image.data@[j] as int == spec_blend_channel(
                    old(base_image).data@[j] as int,
                    top_image.data@[j] as int,
                    alpha as int,
                    mode,
                ),
            forall|j: int| k <= j < total ==> base_image.data@[j] == old(base_image).data@[j],
        decreases total - k,
    {
        let b: u8 = base_image.data[k];
        let t: u8 = top_image.data[k];
        let v: u8 = blend_channel(b, t, alpha, mode);
        base_image.data.set(k, v);
        k = k + 1;
    }
    proof {
        if alpha == 0 {
            assert forall|j: int| 0 <= j < total implies base_image.data@[j] == old(
                base_image,
            ).data@[j] by {
                lemma_blend_opacity_zero(
                    old(base_image).data@[j] as int,
                    top_image.data@[j] as int,
                    mode,
                );
            }
            assert(base_image.data@ =~= old(base_image).data@);
        }
    }
}

} // verus!
