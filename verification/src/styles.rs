//! Win32 window style words, read when deciding whether a window is
//! eligible for management.

use vstd::prelude::*;

verus! {

/// The style bit for a window with a title bar.
pub const WS_CAPTION: u32 = 0x00C0_0000;

/// The style bit for a window with a sizing border.
pub const WS_THICKFRAME: u32 = 0x0004_0000;

/// The extended style bit for a window with a raised edge.
pub const WS_EX_WINDOWEDGE: u32 = 0x0000_0100;

/// The extended style bit for a window with a dialog frame.
pub const WS_EX_DLGMODALFRAME: u32 = 0x0000_0001;

/// The extended style bit for a layered window.
pub const WS_EX_LAYERED: u32 = 0x0008_0000;

/// A window's style word.
#[derive(Debug, Clone, Copy, PartialEq, Eq, Structural)]
pub struct WindowStyle {
    /// The raw style bits.
    pub bits: u32,
}

/// A window's extended style word.
#[derive(Debug, Clone, Copy, PartialEq, Eq, Structural)]
pub struct ExtendedWindowStyle {
    /// The raw extended style bits.
    pub bits: u32,
}

/// Whether every bit of `mask` is set in `bits`.
pub open spec fn spec_has_bits(bits: u32, mask: u32) -> bool {
    bits & mask == mask
}

impl WindowStyle {
    /// Whether every bit of `mask` is set.
    pub fn contains(self, mask: u32) -> (r: bool)
        ensures
            r == spec_has_bits(self.bits, mask),
    {
        self.bits & mask == mask
    }
}

impl ExtendedWindowStyle {
    /// Whether every bit of `mask` is set.
    pub fn contains(self, mask: u32) -> (r: bool)
        ensures
            r == spec_has_bits(self.bits, mask),
    {
        self.bits & mask == mask
    }
}

} // verus!
