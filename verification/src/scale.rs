//! Scale adapter: maps a parameter tuned against a preview-sized thumbnail
//! to the equivalent parameter at full resolution.
//!
//! A thumbnail is bounded by `reference_size` on its longer axis, so the
//! full image is `max(width, height) / reference_size` times larger than
//! the preview the user tuned against.  Scaling a radius by that factor
//! keeps the vignette's proportional coverage identical between preview
//! and full-resolution output.

use vstd::prelude::*;

verus! {

/// The longer of the two image axes, the one a thumbnail bound applies to.
pub open spec fn spec_longer_axis(width: u32, height: u32) -> int {
    if width > height {
        width as int
    } else {
        height as int
    }
}

/// The radius that covers the same proportion of the full image as
/// `preview_radius` covers of a thumbnail bounded by `reference_size`,
/// saturating at `u32::MAX`.
pub open spec fn spec_scaled_radius(
    preview_radius: int,
    width: u32,
    height: u32,
    reference_size: int,
) -> int
    recommends
        reference_size >= 1,
{
    let exact = preview_radius * spec_longer_axis(width, height) / reference_size;
    if exact > u32::MAX as int {
        u32::MAX as int
    } else {
        exact
    }
}

/// Resolve a preview-tuned vignette radius at the full image's resolution.
///
/// `reference_size` must be the exact bound the thumbnail was generated
/// with; the scale factor is `max(width, height) / reference_size`.
pub fn scaled_radius(preview_radius: u32, width: u32, height: u32, reference_size: u32) -> (r:
    u32)
    requires
        reference_size >= 1,
    ensures
        r == spec_scaled_radius(preview_radius as int, width, height, reference_size as int),
{
    let longer: u64 = if width > height {
        width as u64
    } else {
        height as u64
    };
    assert((preview_radius as u64) * longer <= u64::MAX) by (nonlinear_arith)
        requires
            preview_radius <= u32::MAX,
            longer <= u32::MAX,
    ;
    let scaled: u64 = (preview_radius as u64) * longer / (reference_size as u64);
    if scaled > u32::MAX as u64 {
        u32::MAX
    } else {
        scaled as u32
    }
}

} // verus!
