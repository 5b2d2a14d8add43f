//! Screen rectangles, with the arithmetic of ratatui's `Rect`.

use vstd::prelude::*;

verus! {

/// A rectangle of terminal cells.
#[derive(PartialEq, Eq, Structural, Clone, Copy, Debug)]
pub struct Rect {
    pub x: u16,
    pub y: u16,
    pub width: u16,
    pub height: u16,
}

pub open spec fn sat_add_u16(a: u16, b: u16) -> u16 {
    if a + b > u16::MAX {
        u16::MAX
    } else {
        (a + b) as u16
    }
}

pub open spec fn sat_sub_u16(a: u16, b: u16) -> u16 {
    if a >= b {
        (a - b) as u16
    } else {
        0
    }
}

pub open spec fn min_u16(a: u16, b: u16) -> u16 {
    if a <= b {
        a
    } else {
        b
    }
}

pub open spec fn max_u16(a: u16, b: u16) -> u16 {
    if a >= b {
        a
    } else {
        b
    }
}

pub open spec fn rect_right(r: Rect) -> u16 {
    sat_add_u16(r.x, r.width)
}

pub open spec fn rect_bottom(r: Rect) -> u16 {
    sat_add_u16(r.y, r.height)
}

pub open spec fn rect_intersection(a: Rect, b: Rect) -> Rect {
    let x1 = max_u16(a.x, b.x);
    let y1 = max_u16(a.y, b.y);
    let x2 = min_u16(rect_right(a), rect_right(b));
    let y2 = min_u16(rect_bottom(a), rect_bottom(b));
    Rect { x: x1, y: y1, width: sat_sub_u16(x2, x1), height: sat_sub_u16(y2, y1) }
}

pub open spec fn rect_contains(r: Rect, x: u16, y: u16) -> bool {
    x >= r.x && x < rect_right(r) && y >= r.y && y < rect_bottom(r)
}

pub open spec fn rect_new(x: u16, y: u16, width: u16, height: u16) -> Rect {
    Rect {
        x,
        y,
        width: min_u16(width, (u16::MAX - x) as u16),
        height: min_u16(height, (u16::MAX - y) as u16),
    }
}

impl Rect {
    /// A rectangle; its width and height are clamped so that it ends within `u16`.
    pub fn new(x: u16, y: u16, width: u16, height: u16) -> (r: Rect)
        ensures
            r == rect_new(x, y, width, height),
    {
        let max_width = u16::MAX - x;
        let max_height = u16::MAX - y;
        Rect {
            x,
            y,
            width: if width > max_width {
                max_width
            } else {
                width
            },
            height: if height > max_height {
                max_height
            } else {
                height
            },
        }
    }

    /// The first column right of the rectangle, at most `u16::MAX`.
    pub fn right(self) -> (r: u16)
        ensures
            r == rect_right(self),
    {
        self.x.saturating_add(self.width)
    }

    /// The first row below the rectangle, at most `u16::MAX`.
    pub fn bottom(self) -> (r: u16)
        ensures
            r == rect_bottom(self),
    {
        self.y.saturating_add(self.height)
    }

    /// The rectangle covers no cell.
    pub fn is_empty(self) -> (r: bool)
        ensures
            r == (self.width == 0 || self.height == 0),
    {
        self.width == 0 || self.height == 0
    }

    /// The cells both rectangles cover.
    pub fn intersection(self, other: Rect) -> (r: Rect)
        ensures
            r == rect_intersection(self, other),
    {
        let x1 = if self.x >= other.x {
            self.x
        } else {
            other.x
        };
        let y1 = if self.y >= other.y {
            self.y
        } else {
            other.y
        };
        let x2 = if self.right() <= other.right() {
            self.right()
        } else {
            other.right()
        };
        let y2 = if self.bottom() <= other.bottom() {
            self.bottom()
        } else {
            other.bottom()
        };
        Rect { x: x1, y: y1, width: x2.saturating_sub(x1), height: y2.saturating_sub(y1) }
    }

    /// Whether cell (`x`, `y`) lies in the rectangle.
    pub fn contains(self, x: u16, y: u16) -> (r: bool)
        ensures
            r == rect_contains(self, x, y),
    {
        x >= self.x && x < self.right() && y >= self.y && y < self.bottom()
    }
}

} // verus!
