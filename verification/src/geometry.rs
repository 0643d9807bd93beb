//! Cells, plates and rectangles of the integer grid.

use vstd::prelude::*;

verus! {

/// One cell of the grid: column `x`, row `y`.
#[derive(Clone, Copy, Debug, PartialEq, Eq, Structural)]
pub struct Cell {
    pub x: i32,
    pub y: i32,
}

/// A horizontal run of cells in one row: the columns `left..=right`.
#[derive(Clone, Copy, Debug, PartialEq, Eq, Structural)]
pub struct Plate {
    pub left: i32,
    pub right: i32,
}

/// An axis-aligned box of cells: the columns `left..=right` of the rows
/// `bottom..=top`.
#[derive(Clone, Copy, Debug, PartialEq, Eq, Structural)]
pub struct Rect {
    pub left: i32,
    pub right: i32,
    pub top: i32,
    pub bottom: i32,
}

impl Cell {
    /// The cell as a pair of coordinates, the form in which sets hold it.
    pub open spec fn pair(self) -> (i32, i32) {
        (self.x, self.y)
    }

    /// Whether the cell lies in the grid `[0, width) x [0, height)`.
    pub open spec fn within(self, width: i32, height: i32) -> bool {
        0 <= self.x < width && 0 <= self.y < height
    }

    /// Decides `within`.
    pub fn is_within(&self, width: i32, height: i32) -> (inside: bool)
        ensures
            inside == self.within(width, height),
    {
        0 <= self.x && self.x < width && 0 <= self.y && self.y < height
    }
}

impl Plate {
    /// A plate holds at least one column.
    pub open spec fn wf(self) -> bool {
        self.left <= self.right
    }

    /// The plate holds at least one column and lies in a row of `width`
    /// columns.
    pub open spec fn inside(self, width: i32) -> bool {
        self.wf() && 0 <= self.left && self.right < width
    }

    /// Whether column `x` belongs to the plate.
    pub open spec fn spans(self, x: int) -> bool {
        self.left <= x <= self.right
    }

    /// The plate as a pair `(left, right)`, the form in which maps key it.
    pub open spec fn pair(self) -> (i32, i32) {
        (self.left, self.right)
    }
}

impl Rect {
    /// A rectangle holds at least one cell.
    pub open spec fn wf(self) -> bool {
        self.left <= self.right && self.bottom <= self.top
    }

    /// The rectangle holds at least one cell and lies in a grid of `width`
    /// columns and `height` rows.
    pub open spec fn inside(self, width: i32, height: i32) -> bool {
        self.wf() && 0 <= self.left && self.right < width && 0 <= self.bottom && self.top < height
    }

    /// Whether the cell at column `x` of row `y` belongs to the rectangle.
    pub open spec fn covers(self, x: int, y: int) -> bool {
        self.left <= x <= self.right && self.bottom <= y <= self.top
    }

    /// The horizontal extent of the rectangle.
    pub open spec fn plate(self) -> Plate {
        Plate { left: self.left, right: self.right }
    }

    /// The number of cells of a well-formed rectangle.
    pub open spec fn area(self) -> int {
        (self.right - self.left + 1) * (self.top - self.bottom + 1)
    }

    /// The cells of the rectangle.
    pub open spec fn cells(self) -> Set<(i32, i32)> {
        Set::new(|c: (i32, i32)| self.covers(c.0 as int, c.1 as int))
    }

    /// Decides `covers` for a cell.
    pub fn contains(&self, cell: Cell) -> (inside: bool)
        ensures
            inside == self.covers(cell.x as int, cell.y as int),
    {
        self.left <= cell.x && cell.x <= self.right && self.bottom <= cell.y && cell.y <= self.top
    }

    /// Counts the cells of the rectangle. A rectangle whose ends are the
    /// wrong way round holds none.
    pub fn cell_count(&self) -> (count: u128)
        ensures
            count == if self.wf() {
                self.area()
            } else {
                0
            },
    {
        if self.left > self.right || self.bottom > self.top {
            return 0;
        }
        let width: i64 = self.right as i64 - self.left as i64 + 1;
        let height: i64 = self.top as i64 - self.bottom as i64 + 1;
        assert(0 < width * height <= 0x1_0000_0000 * 0x1_0000_0000) by (nonlinear_arith)
            requires
                0 < width <= 0x1_0000_0000,
                0 < height <= 0x1_0000_0000,
        ;
        (width as u128) * (height as u128)
    }
}

/// Rectangle `a` is finished before rectangle `b`: it ends in a lower row,
/// or in the same row further left.
pub open spec fn finished_before(a: Rect, b: Rect) -> bool {
    a.top < b.top || (a.top == b.top && a.left < b.left)
}

/// The rectangles stand in the order in which they are finished: from the
/// bottom row up by their top rows, and from left to right among those that
/// end in the same row.
pub open spec fn in_finishing_order(rects: Seq<Rect>) -> bool {
    forall|i: int, j: int| 0 <= i < j < rects.len() ==> finished_before(rects[i], rects[j])
}

} // verus!
