//! Composite pipeline: fold an ordered stack of effect overlays onto a
//! base image.
//!
//! Effects are applied in a fixed canonical order -- bleach-bypass, then
//! vignette, then film grain -- regardless of how the caller assembled
//! the stack, so the grain always sits on top as the final developed-film
//! layer.  Only enabled effects contribute.  The caller's image is never
//! mutated; the pipeline returns a fresh buffer.
//!
//! Randomness enters only through vignette dithering and the grain
//! field, so the contract quantifies over those two buffers: some mask
//! within dither tolerance and some in-band grain field explain the
//! output exactly.  With dithering off and grain disabled the output is
//! pinned to a single deterministic buffer.

use vstd::prelude::*;

use crate::bleach::bleach_bypass;
use crate::bleach::spec_bleach_at;
use crate::bleach::spec_blur_iter;
use crate::blend::palette_blend;
use crate::blend::spec_blend_channel;
use crate::blend::BlendMode;
use crate::buffer::GrayBuffer;
use crate::buffer::RgbBuffer;
use crate::grain::film_grain;
use crate::scale::scaled_radius;
use crate::scale::spec_scaled_radius;
use crate::vignette::create_vignette;
use crate::vignette::spec_dist_sq;
use crate::vignette::spec_dither_ok;
use crate::vignette::spec_mask_value;

verus! {

/// Vignette parameters: the radius as tuned on the preview, the blend
/// opacity in hundredths, and whether to dither the gradient.
#[derive(Clone, Copy, Debug)]
pub struct VignetteSettings {
    pub radius: u32,
    pub alpha: u8,
    pub dither: bool,
}

/// Film-grain parameters: the percentage of perturbed pixels and the
/// blend opacity in hundredths.
#[derive(Clone, Copy, Debug)]
pub struct FilmGrainSettings {
    pub strength: u8,
    pub alpha: u8,
}

/// Bleach-bypass parameters: how many softening passes to run and the
/// blend opacity in hundredths.
#[derive(Clone, Copy, Debug)]
pub struct BleachBypassSettings {
    pub blur_passes: u8,
    pub alpha: u8,
}

/// The immutable stack of effect settings handed into one composite
/// call; a `None` entry is a disabled effect.
#[derive(Clone, Copy, Debug)]
pub struct EffectStack {
    pub bleachbypass: Option<BleachBypassSettings>,
    pub vignette: Option<VignetteSettings>,
    pub filmgrain: Option<FilmGrainSettings>,
}

impl EffectStack {
    /// Every opacity is a valid fade weight and the grain strength is a
    /// percentage.
    pub open spec fn wf(self) -> bool {
        &&& (self.bleachbypass matches Some(s) ==> s.alpha <= 100)
        &&& (self.vignette matches Some(s) ==> s.alpha <= 100)
        &&& (self.filmgrain matches Some(s) ==> s.alpha <= 100 && s.strength <= 100)
    }

    pub open spec fn all_disabled(self) -> bool {
        self.bleachbypass is None && self.vignette is None && self.filmgrain is None
    }

    /// A stack with every effect disabled.
    pub fn disabled() -> (stack: EffectStack)
        ensures
            stack.all_disabled(),
            stack.wf(),
    {
        EffectStack { bleachbypass: None, vignette: None, filmgrain: None }
    }
}

/// Channel-wise blend of a whole overlay onto a whole base buffer.
pub open spec fn spec_blend_seq(base: Seq<u8>, top: Seq<u8>, alpha: int, mode: BlendMode) -> Seq<
    u8,
> {
    Seq::new(
        base.len(),
        |k: int| spec_blend_channel(base[k] as int, top[k] as int, alpha, mode) as u8,
    )
}

/// Multiply a single-channel mask onto a base buffer: channel `k` blends
/// against the mask byte of its pixel.
pub open spec fn spec_apply_mask(base: Seq<u8>, mask: Seq<u8>, alpha: int) -> Seq<u8> {
    Seq::new(
        base.len(),
        |k: int|
            spec_blend_channel(base[k] as int, mask[k / 3] as int, alpha, BlendMode::Multiply) as u8,
    )
}

/// The buffer after the bleach-bypass stage: unchanged when the effect
/// is disabled or the image is degenerate, otherwise the overlay blend
/// of the contrast-boosted softened copy.
pub open spec fn spec_after_bleach(base: Seq<u8>, w: int, h: int, effects: EffectStack) -> Seq<
    u8,
> {
    match effects.bleachbypass {
        Option::None => base,
        Option::Some(s) => {
            if w == 0 || h == 0 {
                base
            } else {
                spec_blend_seq(
                    base,
                    Seq::new(
                        base.len(),
                        |j: int|
                            spec_bleach_at(
                                spec_blur_iter(base, w, h, s.blur_passes as nat),
                                j,
                            ) as u8,
                    ),
                    s.alpha as int,
                    BlendMode::Overlay,
                )
            }
        },
    }
}

/// The vignette radius the pipeline actually uses: the tuned radius on a
/// preview, the scale-adapted radius on the full image.
pub open spec fn spec_resolved_radius(
    effects: EffectStack,
    w: u32,
    h: u32,
    preview_size: int,
    preview: bool,
) -> int {
    match effects.vignette {
        Option::None => 0,
        Option::Some(v) => {
            if preview {
                v.radius as int
            } else {
                spec_scaled_radius(v.radius as int, w, h, preview_size)
            }
        },
    }
}

/// A mask buffer that the vignette generator could have produced: the
/// exact gradient at every pixel, up to dither tolerance when dithering
/// was requested.
pub open spec fn spec_vignette_mask_ok(
    mask: Seq<u8>,
    w: int,
    h: int,
    radius: int,
    dither: bool,
) -> bool {
    &&& mask.len() == w * h
    &&& forall|x: int, y: int|
        0 <= x < w && 0 <= y < h ==> spec_dither_ok(
            spec_mask_value(spec_dist_sq(x, y, w, h), radius),
            mask[y * w + x] as int,
            dither,
        )
}

/// A grain field that the grain generator could have produced: all
/// channels inside the strength-derived band below white, and exactly
/// white at zero strength.
pub open spec fn spec_grain_ok(grain: Seq<u8>, w: int, h: int, strength: int) -> bool {
    &&& grain.len() == w * h * 3
    &&& forall|k: int| 0 <= k < grain.len() ==> 206 <= #[trigger] grain[k] as int <= 255
    &&& strength == 0 ==> forall|k: int| 0 <= k < grain.len() ==> #[trigger] grain[k] as int == 255
}

/// The exact, undithered vignette mask for the given geometry.
pub open spec fn spec_exact_mask(w: int, h: int, radius: int) -> Seq<u8> {
    Seq::new(
        (w * h) as nat,
        |k: int| spec_mask_value(spec_dist_sq(k % w, k / w, w, h), radius) as u8,
    )
}

/// The composited buffer, given the mask and grain buffers that the
/// random stages produced.
pub open spec fn spec_composite_with(
    base: Seq<u8>,
    w: u32,
    h: u32,
    effects: EffectStack,
    mask: Seq<u8>,
    grain: Seq<u8>,
) -> Seq<u8> {
    let s1: Seq<u8> = spec_after_bleach(base, w as int, h as int, effects);
    let s2: Seq<u8> = match effects.vignette {
        Option::None => s1,
        Option::Some(v) => spec_apply_mask(s1, mask, v.alpha as int),
    };
    match effects.filmgrain {
        Option::None => s2,
        Option::Some(g) => spec_blend_seq(s2, grain, g.alpha as int, BlendMode::Multiply),
    }
}

/// Inside the inner disk the vignette leaves the image unchanged: every
/// dither-tolerant mask is fully transparent there, and multiplying by
/// full transparency is the identity at any opacity.
pub proof fn lemma_vignette_keeps_inner_disk(
    mask: Seq<u8>,
    w: int,
    h: int,
    radius: int,
    dither: bool,
    base: Seq<u8>,
    alpha: int,
    x: int,
    y: int,
    c: int,
)
    requires
        spec_vignette_mask_ok(mask, w, h, radius, dither),
        base.len() == w * h * 3,
        0 <= x < w,
        0 <= y < h,
        0 <= c < 3,
        0 <= radius,
        0 <= alpha <= 100,
        crate::math::spec_ceil_sqrt(spec_dist_sq(x, y, w, h) as nat)
            <= crate::vignette::spec_inner_radius(radius),
    ensures
        spec_apply_mask(base, mask, alpha)[(y * w + x) * 3 + c] == base[(y * w + x) * 3 + c],
{
    crate::math::lemma_rgb_index_bound(x, y, w, h);
    assert(spec_mask_value(spec_dist_sq(x, y, w, h), radius) == 255);
    assert(mask[y * w + x] as int == 255);
    let k: int = (y * w + x) * 3 + c;
    vstd::arithmetic::div_mod::lemma_fundamental_div_mod_converse(k, 3, y * w + x, c);
    crate::blend::lemma_multiply_white(base[k] as int, alpha);
}

/// Composite the enabled effects onto a base image, in canonical order.
///
/// The output has the base image's dimensions and never aliases it.
/// With every effect disabled it is pixel-identical to the base.  In
/// general some dither-tolerant mask and some in-band grain field
/// explain the output exactly; when grain is off and dithering is off
/// the output is the unique deterministic composite.
pub fn composite(
    base_image: &RgbBuffer,
    effects: &EffectStack,
    preview_size: u32,
    preview: bool,
) -> (out: RgbBuffer)
    requires
        base_image.wf(),
        effects.wf(),
        preview_size >= 1,
    ensures
        out.wf(),
        out.width == base_image.width,
        out.height == base_image.height,
        effects.all_disabled() ==> out.data@ == base_image.data@,
        exists|mask: Seq<u8>, grain: Seq<u8>|
            {
                &&& (effects.vignette matches Some(v) ==> spec_vignette_mask_ok(
                    mask,
                    base_image.width as int,
                    base_image.height as int,
                    spec_resolved_radius(
                        *effects,
                        base_image.width,
                        base_image.height,
                        preview_size as int,
                        preview,
                    ),
                    v.dither,
                ))
                &&& (effects.filmgrain matches Some(g) ==> spec_grain_ok(
                    grain,
                    base_image.width as int,
                    base_image.height as int,
                    g.strength as int,
                ))
                &&& out.data@ == spec_composite_with(
                    base_image.data@,
                    base_image.width,
                    base_image.height,
                    *effects,
                    mask,
                    grain,
                )
            },
        (effects.filmgrain is None && (effects.vignette matches Some(v) ==> !v.dither))
            ==> out.data@ == spec_composite_with(
            base_image.data@,
            base_image.width,
            base_image.height,
            *effects,
            spec_exact_mask(
                base_image.width as int,
                base_image.height as int,
                spec_resolved_radius(
                    *effects,
                    base_image.width,
                    base_image.height,
                    preview_size as int,
                    preview,
                ),
            ),
            Seq::<u8>::empty(),
        ),
{
    let w: u32 = base_image.width;
    let h: u32 = base_image.height;
    let mut out: RgbBuffer = base_image.duplicate();
    let ghost base_seq = base_image.data@;

    // Bleach-bypass layer.
    if let Some(bb) = &effects.bleachbypass {
        let overlay: Option<RgbBuffer> = bleach_bypass(&out, bb.blur_passes);
        if let Some(overlay) = overlay {
            palette_blend(&mut out, &overlay, bb.alpha, BlendMode::Overlay);
            proof {
                assert(out.data@ =~= spec_after_bleach(base_seq, w as int, h as int, *effects));
            }
        }
    }
    proof {
        assert(out.data@ == spec_after_bleach(base_seq, w as int, h as int, *effects));
    }
    let ghost s1 = out.data@;

    // Vignette layer.
    let ghost mut mask_seq: Seq<u8> = Seq::empty();
    if let Some(vg) = &effects.vignette {
        let radius: u32 = if preview {
            vg.radius
        } else {
            scaled_radius(vg.radius, w, h, preview_size)
        };
        let cap: usize = out.data.len();
        proof {
            assert(w as int * h as int <= cap as int);
        }
        let mask: GrayBuffer = create_vignette(w, h, radius, vg.dither);
        let mask_rgb: RgbBuffer = mask.to_rgb();
        palette_blend(&mut out, &mask_rgb, vg.alpha, BlendMode::Multiply);
        proof {
            mask_seq = mask.data@;
            assert(radius as int == spec_resolved_radius(
                *effects,
                w,
                h,
                preview_size as int,
                preview,
            ));
            assert(spec_vignette_mask_ok(
                mask_seq,
                w as int,
                h as int,
                radius as int,
                vg.dither,
            ));
            assert(out.data@ =~= spec_apply_mask(s1, mask_seq, vg.alpha as int));
        }
    }
    let ghost s2 = out.data@;

    // Film-grain layer.
    let ghost mut grain_seq: Seq<u8> = Seq::empty();
    if let Some(fg) = &effects.filmgrain {
        let cap: usize = out.data.len();
        proof {
            assert(w as int * h as int * 3 <= cap as int);
        }
        let grain: RgbBuffer = film_grain(w, h, fg.strength);
        palette_blend(&mut out, &grain, fg.alpha, BlendMode::Multiply);
        proof {
            grain_seq = grain.data@;
            assert(spec_grain_ok(grain_seq, w as int, h as int, fg.strength as int));
            assert(out.data@ =~= spec_blend_seq(s2, grain_seq, fg.alpha as int,
                BlendMode::Multiply));
        }
    }

    proof {
        assert(out.data@ == spec_composite_with(base_seq, w, h, *effects, mask_seq, grain_seq));
        if effects.filmgrain is None && (effects.vignette matches Some(v) ==> !v.dither) {
            if effects.vignette matches Some(v) {
                let radius: int = spec_resolved_radius(
                    *effects,
                    w,
                    h,
                    preview_size as int,
                    preview,
                );
                assert(mask_seq =~= spec_exact_mask(w as int, h as int, radius)) by {
                    assert forall|k: int| 0 <= k < mask_seq.len() implies mask_seq[k]
                        == spec_exact_mask(w as int, h as int, radius)[k] by {
                        vstd::arithmetic::div_mod::lemma_fundamental_div_mod(k, w as int);
                        vstd::arithmetic::div_mod::lemma_mod_bound(k, w as int);
                        vstd::arithmetic::div_mod::lemma_div_pos_is_pos(k, w as int);
                        assert(((k / (w as int)) * (w as int) + k % (w as int)) == k)
                            by (nonlinear_arith)
                            requires
                                k == (w as int) * (k / (w as int)) + k % (w as int),
                        ;
                        assert((k / (w as int)) < h as int) by (nonlinear_arith)
                            requires
                                k == (w as int) * (k / (w as int)) + k % (w as int),
                                0 <= k % (w as int) < w as int,
                                0 <= k < (w as int) * (h as int),
                                0 <= k / (w as int),
                        ;
                        crate::vignette::lemma_dist_sq_nonneg(
                            k % w as int,
                            k / w as int,
                            w as int,
                            h as int,
                        );
                        crate::vignette::lemma_mask_range(
                            spec_dist_sq(k % w as int, k / w as int, w as int, h as int),
                            radius,
                        );
                    }
                }
            }
        }
    }
    out
}

} // verus!
