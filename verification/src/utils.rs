//! Small colour helpers shared by the overlay surfaces.

use vstd::prelude::*;

verus! {

/// An RGB colour word reordered into the BGR layout the OS drawing
/// primitives take.
pub open spec fn spec_rgb_to_bgr(hex: u32) -> u32 {
    ((hex & 0xFF) << 16) | (((hex >> 8) & 0xFF) << 8) | ((hex >> 16) & 0xFF)
}

/// Reorders an RGB colour word into BGR.
pub fn rgb_to_bgr_hex(hex: u32) -> (r: u32)
    ensures
        r == spec_rgb_to_bgr(hex),
{
    let red = (hex >> 16) & 0xFF;
    let green = (hex >> 8) & 0xFF;
    let blue = hex & 0xFF;
    (blue << 16) | (green << 8) | red
}

} // verus!
