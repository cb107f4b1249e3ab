//! Rectangles in screen coordinates.
//!
//! A `Rect` records a top-left corner (`left`, `top`) and an extent
//! (`right`, `bottom`), matching the convention of the OS binding layer:
//! `right` and `bottom` hold the width and height, not absolute edges.

use vstd::prelude::*;

verus! {

/// Bound on the coordinate magnitudes of rectangles handed into the
/// library, loose enough that padding arithmetic cannot overflow `i32`.
pub const RECT_COORD_LIMIT: i32 = 0x1000_0000;

/// Bound on intermediate coordinate magnitudes for which one more
/// padding application cannot overflow `i32`.
pub const RECT_COORD_SAFE_LIMIT: i32 = 0x4000_0000;

#[derive(Debug, Clone, Copy, PartialEq, Eq, Structural)]
pub struct Rect {
    /// The left edge of the rectangle.
    pub left: i32,
    /// The top edge of the rectangle.
    pub top: i32,
    /// The width of the rectangle.
    pub right: i32,
    /// The height of the rectangle.
    pub bottom: i32,
}

impl Default for Rect {
    fn default() -> (r: Self)
        ensures
            r == (Rect { left: 0, top: 0, right: 0, bottom: 0 }),
    {
        Rect { left: 0, top: 0, right: 0, bottom: 0 }
    }
}

impl Rect {
    /// All four fields have magnitude at most `bound`.
    pub open spec fn bounded_by(self, bound: int) -> bool {
        &&& -bound <= self.left <= bound
        &&& -bound <= self.top <= bound
        &&& -bound <= self.right <= bound
        &&& -bound <= self.bottom <= bound
    }

    /// The rectangle `self` shrunk by `padding` on every side: the origin
    /// moves right and down by `padding` and the extent loses `2 * padding`.
    pub open spec fn spec_padded(self, padding: int) -> Rect {
        Rect {
            left: (self.left + padding) as i32,
            top: (self.top + padding) as i32,
            right: (self.right - 2 * padding) as i32,
            bottom: (self.bottom - 2 * padding) as i32,
        }
    }

    /// Shrinks the rectangle by `padding` on every side; `None` leaves it
    /// unchanged.
    pub fn add_padding(&mut self, padding: Option<i32>)
        requires
            old(self).bounded_by(RECT_COORD_SAFE_LIMIT as int),
            padding is Some ==> -RECT_COORD_LIMIT <= padding->0 <= RECT_COORD_LIMIT,
        ensures
            match padding {
                Some(p) => *final(self) == old(self).spec_padded(p as int),
                None => *final(self) == *old(self),
            },
    {
        if let Some(padding) = padding {
            self.left = self.left + padding;
            self.top = self.top + padding;
            self.right = self.right - 2 * padding;
            self.bottom = self.bottom - 2 * padding;
        }
    }

    /// Moves the left edge right by `padding`, narrowing the rectangle.
    pub fn left_padding(&mut self, padding: i32)
        requires
            old(self).left + padding <= i32::MAX,
            old(self).left + padding >= i32::MIN,
        ensures
            *final(self) == (Rect { left: (old(self).left + padding) as i32, ..*old(self) }),
    {
        self.left = self.left + padding;
    }

    /// Shrinks the width by `padding`, narrowing the rectangle from the right.
    pub fn right_padding(&mut self, padding: i32)
        requires
            old(self).right - padding <= i32::MAX,
            old(self).right - padding >= i32::MIN,
        ensures
            *final(self) == (Rect { right: (old(self).right - padding) as i32, ..*old(self) }),
    {
        self.right = self.right - padding;
    }

    /// Whether `point` lies inside the rectangle, edges included.
    pub open spec fn spec_contains_point(self, point: (i32, i32)) -> bool {
        &&& point.0 >= self.left
        &&& point.0 <= self.left + self.right
        &&& point.1 >= self.top
        &&& point.1 <= self.top + self.bottom
    }

    /// Point-in-rectangle test used for cursor hit-testing.
    pub fn contains_point(&self, point: (i32, i32)) -> (r: bool)
        requires
            self.bounded_by(RECT_COORD_LIMIT as int),
        ensures
            r == self.spec_contains_point(point),
    {
        point.0 >= self.left && point.0 <= self.left + self.right && point.1 >= self.top
            && point.1 <= self.top + self.bottom
    }
}

} // verus!
