//! Layout selection as the state core sees it.
//!
//! The concrete tiling math lives in an outside layout provider; the core
//! only records which layout is selected, which axis flip applies, and,
//! for custom layouts, where the designated primary container sits.

use vstd::prelude::*;

verus! {

/// The built-in layouts.
#[derive(Debug, Clone, Copy, PartialEq, Eq, Structural)]
pub enum DefaultLayout {
    /// Binary space partitioning.
    BSP,
    /// Equal columns.
    Columns,
    /// Equal rows.
    Rows,
    /// One main pane with a vertical stack.
    VerticalStack,
    /// One main pane with a horizontal stack.
    HorizontalStack,
    /// A centered main pane with side stacks, for ultrawide displays.
    UltrawideVerticalStack,
}

/// What the core reads of a custom layout definition: the container
/// position its primary column resolves to, when it has one.
#[derive(Debug, Clone, Copy, PartialEq, Eq, Structural)]
pub struct CustomLayout {
    /// The container index of the designated primary column, if any.
    pub primary_container_idx: Option<usize>,
}

/// The selected layout of a workspace.
#[derive(Debug, Clone, Copy, PartialEq, Eq, Structural)]
pub enum Layout {
    /// One of the built-in layouts.
    Default(DefaultLayout),
    /// A custom layout definition.
    Custom(CustomLayout),
}

/// An axis flip applied on top of the selected layout.
#[derive(Debug, Clone, Copy, PartialEq, Eq, Structural)]
pub enum Axis {
    /// Mirror along the horizontal axis.
    Horizontal,
    /// Mirror along the vertical axis.
    Vertical,
    /// Mirror along both axes.
    HorizontalAndVertical,
}

/// A direction in which focus cycles through a ring.
#[derive(Debug, Clone, Copy, PartialEq, Eq, Structural)]
pub enum CycleDirection {
    /// Towards the previous index, wrapping at the front.
    Previous,
    /// Towards the next index, wrapping at the back.
    Next,
}

impl CycleDirection {
    /// The index one step in this direction from `idx` in a ring of
    /// `len` elements, wrapping around. A cursor at or beyond `len` is
    /// first brought into range by the same wrap.
    pub fn next_idx(&self, idx: usize, len: usize) -> (r: usize)
        requires
            len > 0,
        ensures
            ({
                let i = idx as int % len as int;
                match self {
                    CycleDirection::Previous => r == if i == 0 {
                        len - 1
                    } else {
                        i - 1
                    },
                    CycleDirection::Next => r == if i + 1 == len {
                        0int
                    } else {
                        i + 1
                    },
                }
            }),
    {
        let i = idx % len;
        match self {
            CycleDirection::Previous => {
                if i == 0 {
                    len - 1
                } else {
                    i - 1
                }
            },
            CycleDirection::Next => {
                if i + 1 == len {
                    0
                } else {
                    i + 1
                }
            },
        }
    }
}

} // verus!
