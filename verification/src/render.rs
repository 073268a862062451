//! Render-pass helpers.

use vstd::prelude::*;

verus! {

/// `a - b`, or 0 when `b` is larger.
pub open spec fn sat_sub(a: u32, b: u32) -> u32 {
    if a >= b { (a - b) as u32 } else { 0 }
}

/// The smaller of two sizes.
pub open spec fn min_u32(a: u32, b: u32) -> u32 {
    if a <= b { a } else { b }
}

/// Width and height of a scissor rectangle at (`x`, `y`) clamped to a render target of size
/// `target` (width, height). During DPI or scale transitions the tracked logical size can
/// briefly disagree with the swapchain; a rectangle reaching past the target is cut at its
/// edge (to nothing when it starts past the edge), so the pass survives the transient state.
pub fn clamp_scissor_rect(target: (u32, u32), x: u32, y: u32, w: u32, h: u32) -> (r: (u32, u32))
    ensures
        r.0 == min_u32(w, sat_sub(target.0, x)),
        r.1 == min_u32(h, sat_sub(target.1, y)),
        r.0 <= w,
        r.1 <= h,
        x <= target.0 ==> x + r.0 <= target.0,
        y <= target.1 ==> y + r.1 <= target.1,
        x + w <= target.0 ==> r.0 == w,
        y + h <= target.1 ==> r.1 == h,
{
    let w = if w <= target.0.saturating_sub(x) { w } else { target.0.saturating_sub(x) };
    let h = if h <= target.1.saturating_sub(y) { h } else { target.1.saturating_sub(y) };
    (w, h)
}

} // verus!
