//! The occupancy grid of one partition: a width, a height and the marked
//! cells, all of them inside `[0, width) x [0, height)`.

use vstd::prelude::*;

use crate::cell_set::CellSet;
use crate::geometry::{in_finishing_order, Cell, Plate, Rect};

verus! {

/// What a grid is, mathematically.
pub ghost struct GridView {
    pub width: i32,
    pub height: i32,
    pub marked: Set<(i32, i32)>,
}

impl GridView {
    /// Every marked cell lies inside the bounds.
    pub open spec fn bounded(self) -> bool {
        forall|c: (i32, i32)| #[trigger]
            self.marked.contains(c) ==> 0 <= c.0 < self.width && 0 <= c.1 < self.height
    }

    /// Whether the cell at column `x` of row `y` is inside the bounds and
    /// marked. Everything outside the bounds counts as unmarked.
    pub open spec fn filled(self, x: int, y: int) -> bool {
        0 <= x < self.width && 0 <= y < self.height && self.marked.contains((x as i32, y as i32))
    }

    /// The columns `left..=right` of row `y` are all filled.
    pub open spec fn is_run(self, y: int, left: int, right: int) -> bool {
        left <= right && forall|x: int| left <= x <= right ==> #[trigger] self.filled(x, y)
    }

    /// The columns `left..=right` are a maximal run of row `y`: all filled,
    /// with an unfilled column on either side.
    pub open spec fn is_plate(self, y: int, left: int, right: int) -> bool {
        self.is_run(y, left, right) && !self.filled(left - 1, y) && !self.filled(right + 1, y)
    }

    /// Whether row `y` has the plate `p`.
    pub open spec fn has_plate(self, y: int, p: Plate) -> bool {
        self.is_plate(y, p.left as int, p.right as int)
    }

    /// Whether the decomposition of the grid holds the rectangle: every row
    /// from its bottom to its top has its horizontal extent as a plate, and
    /// neither the row under it nor the row above it has.
    pub open spec fn emits(self, rect: Rect) -> bool {
        &&& rect.bottom <= rect.top
        &&& forall|y: int|
            rect.bottom <= y <= rect.top ==> #[trigger] self.has_plate(y, rect.plate())
        &&& !self.has_plate(rect.bottom - 1, rect.plate())
        &&& !self.has_plate(rect.top + 1, rect.plate())
    }
}

/// `rects` is the decomposition of the grid: it lists every rectangle that
/// the grid emits once, and nothing else, in the order in which the
/// rectangles are finished.
pub open spec fn is_decomposition(grid: GridView, rects: Seq<Rect>) -> bool {
    &&& rects.no_duplicates()
    &&& forall|r: Rect| #[trigger] rects.contains(r) <==> grid.emits(r)
    &&& in_finishing_order(rects)
}

/// The cells of a list, as the set of their coordinate pairs.
pub open spec fn cell_pairs(cells: Seq<Cell>) -> Set<(i32, i32)> {
    Set::new(|c: (i32, i32)| exists|i: int| 0 <= i < cells.len() && (#[trigger] cells[i]).pair() == c)
}

/// The grid of the given size with the cells of the list marked.
pub open spec fn grid_of(width: i32, height: i32, cells: Seq<Cell>) -> GridView {
    GridView { width, height, marked: cell_pairs(cells) }
}

/// Whether every cell of the list lies in a grid of the given size.
pub open spec fn all_within(cells: Seq<Cell>, width: i32, height: i32) -> bool {
    forall|i: int| 0 <= i < cells.len() ==> (#[trigger] cells[i]).within(width, height)
}

/// Whether `index` is the place of the first cell of the list that lies
/// outside a grid of the given size.
pub open spec fn is_first_outside(cells: Seq<Cell>, width: i32, height: i32, index: int) -> bool {
    &&& 0 <= index < cells.len()
    &&& !cells[index].within(width, height)
    &&& all_within(cells.take(index), width, height)
}

/// The occupancy grid of one partition.
pub struct Grid {
    width: i32,
    height: i32,
    cells: CellSet,
}

/// Why a cell cannot be marked.
#[derive(Clone, Copy, Debug, PartialEq, Eq, Structural)]
pub struct OutOfBounds {
    /// The cell that lies outside.
    pub cell: Cell,
    /// The width of the grid that refused it.
    pub width: i32,
    /// The height of the grid that refused it.
    pub height: i32,
}

impl View for Grid {
    type V = GridView;

    closed spec fn view(&self) -> GridView {
        GridView { width: self.width, height: self.height, marked: self.cells@ }
    }
}

impl Grid {
    /// A grid of the given size with no cell marked.
    pub fn new(width: i32, height: i32) -> (grid: Grid)
        ensures
            grid@.width == width,
            grid@.height == height,
            grid@.marked == Set::<(i32, i32)>::empty(),
            grid@.bounded(),
    {
        Grid { width, height, cells: CellSet::new() }
    }

    /// A grid of the given size with the cells of the list marked. The list
    /// is refused as a whole where one of its cells lies outside the bounds;
    /// the refusal names the first such cell.
    pub fn from_cells(width: i32, height: i32, cells: &Vec<Cell>) -> (outcome: Result<
        Grid,
        OutOfBounds,
    >)
        ensures
            match outcome {
                Ok(grid) => {
                    &&& all_within(cells@, width, height)
                    &&& grid@ == grid_of(width, height, cells@)
                    &&& grid@.bounded()
                },
                Err(refusal) => exists|index: int|
                    {
                        &&& #[trigger] is_first_outside(cells@, width, height, index)
                        &&& refusal == (OutOfBounds { cell: cells@[index], width, height })
                    },
            },
    {
        let mut grid = Grid::new(width, height);
        let mut i: usize = 0;
        while i < cells.len()
            invariant
                i <= cells.len(),
                grid@.width == width,
                grid@.height == height,
                grid@.bounded(),
                all_within(cells@.take(i as int), width, height),
                grid@.marked == cell_pairs(cells@.take(i as int)),
            decreases cells.len() - i,
        {
            let cell = cells[i];
            let ghost before = grid@.marked;
            match grid.mark(cell) {
                Ok(()) => {
                    proof {
                        let seen = cells@.take(i as int);
                        let more = cells@.take(i + 1);
                        assert(more == seen.push(cell));
                        assert forall|c: (i32, i32)|
                            cell_pairs(more).contains(c) <==> before.insert(cell.pair()).contains(
                                c,
                            ) by {
                            if cell_pairs(more).contains(c) {
                                let k = choose|k: int|
                                    0 <= k < more.len() && (#[trigger] more[k]).pair() == c;
                                if k < i {
                                    assert(seen[k].pair() == c);
                                }
                            }
                            if before.contains(c) {
                                let k = choose|k: int|
                                    0 <= k < seen.len() && (#[trigger] seen[k]).pair() == c;
                                assert(more[k].pair() == c);
                            }
                            if c == cell.pair() {
                                assert(more[i as int].pair() == c);
                            }
                        }
                        assert(grid@.marked =~= cell_pairs(more));
                    }
                },
                Err(refusal) => {
                    assert(is_first_outside(cells@, width, height, i as int));
                    return Err(refusal);
                },
            }
            i = i + 1;
        }
        proof {
            assert(cells@.take(cells.len() as int) == cells@);
        }
        Ok(grid)
    }

    /// The width that the grid was made with.
    pub fn width(&self) -> (width: i32)
        ensures
            width == self@.width,
    {
        self.width
    }

    /// The height that the grid was made with.
    pub fn height(&self) -> (height: i32)
        ensures
            height == self@.height,
    {
        self.height
    }

    /// Marks a cell. A cell outside the bounds is refused, and the grid stays
    /// as it was.
    pub fn mark(&mut self, cell: Cell) -> (outcome: Result<(), OutOfBounds>)
        ensures
            final(self)@.width == old(self)@.width,
            final(self)@.height == old(self)@.height,
            old(self)@.bounded() ==> final(self)@.bounded(),
            cell.within(old(self)@.width, old(self)@.height) ==> outcome is Ok
                && final(self)@.marked == old(self)@.marked.insert(cell.pair()),
            !cell.within(old(self)@.width, old(self)@.height) ==> outcome == Err::<(), OutOfBounds>(
                OutOfBounds { cell, width: old(self)@.width, height: old(self)@.height },
            ) && final(self)@.marked == old(self)@.marked,
    {
        if cell.is_within(self.width, self.height) {
            self.cells.insert(cell);
            proof {
                if old(self)@.bounded() {
                    assert forall|c: (i32, i32)| #[trigger] self@.marked.contains(c) implies 0
                        <= c.0 < self@.width && 0 <= c.1 < self@.height by {
                        if c != cell.pair() {
                            assert(old(self)@.marked.contains(c));
                        }
                    }
                }
            }
            Ok(())
        } else {
            Err(OutOfBounds { cell, width: self.width, height: self.height })
        }
    }

    /// Whether the cell at column `x` of row `y` is inside the bounds and
    /// marked.
    pub fn is_marked(&self, x: i32, y: i32) -> (marked: bool)
        ensures
            marked == self@.filled(x as int, y as int),
    {
        0 <= x && x < self.width && 0 <= y && y < self.height && self.cells.contains(x, y)
    }
}

} // verus!
