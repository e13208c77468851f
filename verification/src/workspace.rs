//! The displays attached to the machine.

use vstd::prelude::*;

use crate::binary64::Real;

verus! {

/// A rectangle in the global pixel space.
#[derive(Debug, Clone, Copy, PartialEq, Eq, Structural)]
pub struct PixelFrame {
    pub x: Real,
    pub y: Real,
    pub width: Real,
    pub height: Real,
}

impl PixelFrame {
    /// The rectangle with this corner and this size.
    pub fn new(x: Real, y: Real, width: Real, height: Real) -> (r: Self)
        ensures
            r == (PixelFrame { x, y, width, height }),
    {
        PixelFrame { x, y, width, height }
    }
}

/// One display.
#[derive(Debug, Clone, Copy, PartialEq, Eq, Structural)]
pub struct DisplayInfo {
    pub display_id: u32,
    /// Where the display lies in the global pixel space.
    pub frame: PixelFrame,
    /// Physical pixels per point.
    pub scale_factor: Real,
    pub is_main: bool,
}

} // verus!
