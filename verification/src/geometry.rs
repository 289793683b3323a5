//! Places on the screen.

use vstd::prelude::*;

verus! {

#[derive(Clone, Copy, Debug, PartialEq, Eq, Structural)]
pub struct Position {
    pub x: u16,
    pub y: u16,
}

/// A rectangle of cells.
#[derive(Clone, Copy, Debug, PartialEq, Eq, Structural)]
pub struct Rect {
    pub x: u16,
    pub y: u16,
    pub width: u16,
    pub height: u16,
}

pub open spec fn clamped_extent(origin: u16, extent: u16) -> u16 {
    if extent > u16::MAX - origin {
        (u16::MAX - origin) as u16
    } else {
        extent
    }
}

/// A rectangle whose far edges stay within the range of coordinates.
pub open spec fn rect_at(x: u16, y: u16, width: u16, height: u16) -> Rect {
    Rect { x, y, width: clamped_extent(x, width), height: clamped_extent(y, height) }
}

pub open spec fn edge(origin: u16, extent: u16) -> u16 {
    if origin + extent <= u16::MAX {
        (origin + extent) as u16
    } else {
        u16::MAX
    }
}

impl Rect {
    pub fn new(x: u16, y: u16, width: u16, height: u16) -> (r: Self)
        ensures
            r == rect_at(x, y, width, height),
    {
        let max_width: u16 = u16::MAX - x;
        let max_height: u16 = u16::MAX - y;
        Rect {
            x,
            y,
            width: if width > max_width {
                max_width
            } else {
                width
            },
            height: if height > max_height {
                max_height
            } else {
                height
            },
        }
    }

    pub open spec fn nothing() -> Rect {
        Rect { x: 0, y: 0, width: 0, height: 0 }
    }

    pub open spec fn empty_area(self) -> bool {
        self.width == 0 || self.height == 0
    }

    pub fn is_empty(self) -> (r: bool)
        ensures
            r == self.empty_area(),
    {
        self.width == 0 || self.height == 0
    }

    pub open spec fn right_edge(self) -> u16 {
        edge(self.x, self.width)
    }

    pub open spec fn bottom_edge(self) -> u16 {
        edge(self.y, self.height)
    }

    /// The first column outside the rectangle.
    pub fn right(self) -> (r: u16)
        ensures
            r == self.right_edge(),
    {
        self.x.saturating_add(self.width)
    }

    /// The first row outside the rectangle.
    pub fn bottom(self) -> (r: u16)
        ensures
            r == self.bottom_edge(),
    {
        self.y.saturating_add(self.height)
    }

    pub open spec fn holds(self, position: Position) -> bool {
        self.x <= position.x < self.right_edge() && self.y <= position.y < self.bottom_edge()
    }

    pub fn contains(self, position: Position) -> (r: bool)
        ensures
            r == self.holds(position),
    {
        position.x >= self.x && position.x < self.right() && position.y >= self.y && position.y
            < self.bottom()
    }
}

/// A rectangle holds the positions that are fewer columns and rows than it has to the right of and
/// below its corner. Its far edges are the first ones outside, and an empty one holds nothing.
pub proof fn law_rectangle_holds_its_cells(area: Rect, position: Position)
    requires
        area.x + area.width <= u16::MAX,
        area.y + area.height <= u16::MAX,
    ensures
        area.holds(position) <==> 0 <= position.x - area.x < area.width && 0 <= position.y - area.y
            < area.height,
        area.right_edge() - area.x == area.width,
        area.bottom_edge() - area.y == area.height,
        area.empty_area() ==> !area.holds(position),
        !area.empty_area() ==> area.holds(Position { x: area.x, y: area.y }),
{
}

/// A new rectangle stands where it was asked for and is as large as it was asked for, as far as
/// coordinates reach.
pub proof fn law_new_rectangle_fits(x: u16, y: u16, width: u16, height: u16)
    ensures
        rect_at(x, y, width, height).x == x,
        rect_at(x, y, width, height).y == y,
        x + rect_at(x, y, width, height).width == if x + width <= u16::MAX {
            x + width
        } else {
            u16::MAX as int
        },
        y + rect_at(x, y, width, height).height == if y + height <= u16::MAX {
            y + height
        } else {
            u16::MAX as int
        },
{
}

impl Default for Rect {
    fn default() -> (r: Self)
        ensures
            r == Rect::nothing(),
    {
        Rect { x: 0, y: 0, width: 0, height: 0 }
    }
}

} // verus!
