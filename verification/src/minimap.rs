//! Placement of the minimap in the top right corner of the window.
use vstd::prelude::*;

verus! {

/// Horizontal position, in physical pixels, of a minimap `minimap_width`
/// wide that keeps `margin` pixels from the right edge of a window `width`
/// wide; never left of the window's edge.  The computation is done on `i32`
/// values, as the viewport's placement is.
pub fn minimap_viewport_x(width: u32, minimap_width: u32, margin: u32) -> (x: u32)
    requires
        i32::MIN <= (minimap_width as i32) + (margin as i32) <= i32::MAX,
        i32::MIN <= (width as i32) - ((minimap_width as i32) + (margin as i32)) <= i32::MAX,
    ensures
        x == (if (width as i32) - ((minimap_width as i32) + (margin as i32)) > 0 {
            ((width as i32) - ((minimap_width as i32) + (margin as i32))) as u32
        } else {
            0u32
        }),
{
    let w = width as i32;
    let m = minimap_width as i32;
    let g = margin as i32;
    let d = w - (m + g);
    if d > 0 {
        d as u32
    } else {
        0
    }
}

} // verus!
