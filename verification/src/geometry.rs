//! Areas of the screen.

use vstd::prelude::*;

verus! {

/// A rectangle of cells.
#[derive(Debug, Clone, Copy, PartialEq, Eq, Structural)]
pub struct Rect {
    pub x: u16,
    pub y: u16,
    pub width: u16,
    pub height: u16,
}

impl Rect {
    /// The column behind the last, as far as columns are counted.
    pub open spec fn right(self) -> int {
        if self.x + self.width > u16::MAX {
            u16::MAX as int
        } else {
            self.x + self.width
        }
    }

    /// The row below the last, as far as rows are counted.
    pub open spec fn bottom(self) -> int {
        if self.y + self.height > u16::MAX {
            u16::MAX as int
        } else {
            self.y + self.height
        }
    }

    /// Whether a cell lies in the rectangle.
    pub open spec fn covers(self, column: int, row: int) -> bool {
        self.x <= column < self.right() && self.y <= row < self.bottom()
    }

    /// Whether the rectangle lies in another.
    pub open spec fn lies_in(self, outer: Rect) -> bool {
        &&& outer.x <= self.x
        &&& outer.y <= self.y
        &&& self.x + self.width <= outer.x + outer.width
        &&& self.y + self.height <= outer.y + outer.height
    }

    /// Whether the columns and rows of the rectangle, and one more of each, can be
    /// counted.
    pub open spec fn roomy(self) -> bool {
        self.x + self.width < u16::MAX && self.y + self.height < u16::MAX
    }

    /// What is inside a border of one cell on each side.
    pub open spec fn inside(self) -> Rect {
        Rect {
            x: (if self.x + 1 < self.right() {
                self.x + 1
            } else {
                self.right()
            }) as u16,
            y: (if self.y + 1 < self.bottom() {
                self.y + 1
            } else {
                self.bottom()
            }) as u16,
            width: (if self.width > 2 {
                self.width - 2
            } else {
                0
            }) as u16,
            height: (if self.height > 2 {
                self.height - 2
            } else {
                0
            }) as u16,
        }
    }

    /// What is inside a border of one cell on each side.
    pub fn inner(&self) -> (rect: Rect)
        ensures
            rect == self.inside(),
    {
        let right: u16 = self.x.saturating_add(self.width);
        let bottom: u16 = self.y.saturating_add(self.height);
        let x: u16 = self.x.saturating_add(1);
        let y: u16 = self.y.saturating_add(1);
        Rect {
            x: if x < right {
                x
            } else {
                right
            },
            y: if y < bottom {
                y
            } else {
                bottom
            },
            width: self.width.saturating_sub(2),
            height: self.height.saturating_sub(2),
        }
    }

    /// A rectangle, cut off where columns and rows can no longer be counted.
    pub fn new(x: u16, y: u16, width: u16, height: u16) -> (rect: Rect)
        ensures
            rect == rect_of(x, y, width as int, height as int),
            x + width <= u16::MAX && y + height <= u16::MAX ==> rect == (Rect {
                x,
                y,
                width,
                height,
            }),
    {
        let widest: u16 = u16::MAX - x;
        let highest: u16 = u16::MAX - y;
        Rect {
            x,
            y,
            width: if width > widest {
                widest
            } else {
                width
            },
            height: if height > highest {
                highest
            } else {
                height
            },
        }
    }
}

/// A rectangle, cut off where columns and rows can no longer be counted.
pub open spec fn rect_of(x: u16, y: u16, width: int, height: int) -> Rect {
    Rect {
        x,
        y,
        width: if width > u16::MAX - x {
            (u16::MAX - x) as u16
        } else {
            width as u16
        },
        height: if height > u16::MAX - y {
            (u16::MAX - y) as u16
        } else {
            height as u16
        },
    }
}

/// Whether a cell lies in a rectangle.
pub fn point_in_rect(row: u16, col: u16, rect: Rect) -> (yes: bool)
    ensures
        yes == rect.covers(col as int, row as int),
{
    let right: u16 = rect.x.saturating_add(rect.width);
    let bottom: u16 = rect.y.saturating_add(rect.height);
    rect.x <= col && col < right && rect.y <= row && row < bottom
}

/// A rectangle covers as many columns and rows as it is wide and high, from its corner on.
pub proof fn rectangles_cover_their_cells(rect: Rect, column: int, row: int)
    requires
        rect.x + rect.width <= u16::MAX,
        rect.y + rect.height <= u16::MAX,
    ensures
        rect.covers(rect.x + column, rect.y + row) <==> 0 <= column < rect.width && 0 <= row
            < rect.height,
        rect.width > 2 && rect.height > 2 ==> (rect.inside().covers(rect.x + column, rect.y + row)
            <==> 0 < column < rect.width - 1 && 0 < row < rect.height - 1),
{
}

} // verus!
