//! Row plate extraction: the maximal horizontal runs of marked cells of one
//! row, in ascending order.

use vstd::prelude::*;

use crate::geometry::Plate;
use crate::grid::{Grid, GridView};

verus! {

/// The plates stand in ascending order with a gap between neighbours.
pub open spec fn ascending(plates: Seq<Plate>) -> bool {
    forall|i: int, j: int| 0 <= i < j < plates.len() ==> plates[i].right + 1 < plates[j].left
}

/// `plates` lists exactly the plates of row `y`, in ascending order.
pub open spec fn is_row_of(grid: GridView, y: int, plates: Seq<Plate>) -> bool {
    &&& ascending(plates)
    &&& forall|p: Plate| #[trigger] plates.contains(p) <==> grid.has_plate(y, p)
}

/// `rows` lists, row by row from row 0 up, the plates of the whole grid.
pub open spec fn is_plate_stack_of(grid: GridView, rows: Seq<Vec<Plate>>) -> bool {
    &&& rows.len() == if grid.height > 0 { grid.height as int } else { 0 }
    &&& forall|y: int| 0 <= y < rows.len() ==> is_row_of(grid, y, #[trigger] rows[y]@)
}

/// A plate lies inside the grid, and its two end columns are filled.
pub proof fn lemma_plate_inside(grid: GridView, y: int, p: Plate)
    requires
        grid.has_plate(y, p),
    ensures
        0 <= p.left <= p.right < grid.width,
        0 <= y < grid.height,
        grid.filled(p.left as int, y),
        grid.filled(p.right as int, y),
{
    assert(grid.filled(p.left as int, y));
    assert(grid.filled(p.right as int, y));
}

/// Two plates of one row that end in the same column are the same plate.
pub proof fn lemma_plate_by_right_end(grid: GridView, y: int, p: Plate, q: Plate)
    requires
        grid.has_plate(y, p),
        grid.has_plate(y, q),
        p.right == q.right,
    ensures
        p == q,
{
    if p.left < q.left {
        assert(grid.filled(q.left - 1, y));
    } else if q.left < p.left {
        assert(grid.filled(p.left - 1, y));
    }
}

/// Scans row `y` from column 0 to the last column and returns its plates. A
/// run is closed at the first unmarked column behind it, or at the right
/// edge of the grid.
pub fn row_plates(grid: &Grid, y: i32) -> (plates: Vec<Plate>)
    ensures
        is_row_of(grid@, y as int, plates@),
        forall|i: int| 0 <= i < plates.len() ==> (#[trigger] plates[i]).inside(grid@.width),
{
    broadcast use vstd::seq_lib::lemma_seq_contains_after_push;

    let width = grid.width();
    let mut plates: Vec<Plate> = Vec::new();
    let mut start: Option<i32> = None;
    let mut x: i32 = 0;
    proof {
        assert forall|p: Plate| grid@.has_plate(y as int, p) implies 0 <= p.right by {
            lemma_plate_inside(grid@, y as int, p);
        }
    }
    while x < width
        invariant
            width == grid@.width,
            0 <= x,
            x <= width || x == 0,
            match start {
                Some(s) => 0 <= s < x && grid@.is_run(y as int, s as int, x - 1) && !grid@.filled(
                    s - 1,
                    y as int,
                ) && forall|i: int| 0 <= i < plates.len() ==> (#[trigger] plates[i]).right + 1 < s,
                None => x == 0 || !grid@.filled(x - 1, y as int),
            },
            ascending(plates@),
            forall|i: int| 0 <= i < plates.len() ==> (#[trigger] plates[i]).right + 1 < x,
            forall|p: Plate| #[trigger]
                plates@.contains(p) <==> grid@.has_plate(y as int, p) && p.right + 1 < x,
        decreases width - x,
    {
        proof {
            assert forall|p: Plate| grid@.has_plate(y as int, p) implies 0 <= p.left <= p.right by {
                lemma_plate_inside(grid@, y as int, p);
            }
        }
        let marked = grid.is_marked(x, y);
        let ghost before = plates@;
        match (start, marked) {
            (Some(s), false) => {
                let closed = Plate { left: s, right: x - 1 };
                plates.push(closed);
                start = None;
                proof {
                    assert(grid@.has_plate(y as int, closed));
                    assert(plates@ == before.push(closed));
                    assert forall|p: Plate| #[trigger]
                        plates@.contains(p) <==> grid@.has_plate(y as int, p) && p.right + 1 < x
                            + 1 by {
                        vstd::seq_lib::lemma_seq_contains_after_push(before, closed, p);
                        if grid@.has_plate(y as int, p) && p.right + 1 == x {
                            lemma_plate_by_right_end(grid@, y as int, p, closed);
                        }
                    }
                }
            },
            (None, true) => {
                start = Some(x);
                proof {
                    assert forall|p: Plate| #[trigger]
                        plates@.contains(p) <==> grid@.has_plate(y as int, p) && p.right + 1 < x
                            + 1 by {
                        if grid@.has_plate(y as int, p) && p.right + 1 == x {
                            lemma_plate_inside(grid@, y as int, p);
                        }
                    }
                    assert forall|c: int| x <= c <= x implies #[trigger] grid@.filled(
                        c,
                        y as int,
                    ) by {}
                }
            },
            (Some(s), true) => {
                proof {
                    assert forall|c: int| s <= c <= x implies #[trigger] grid@.filled(
                        c,
                        y as int,
                    ) by {
                        if c < x {
                            assert(grid@.is_run(y as int, s as int, x - 1));
                        }
                    }
                }
            },
            (None, false) => {
                proof {
                    assert forall|p: Plate| #[trigger]
                        plates@.contains(p) <==> grid@.has_plate(y as int, p) && p.right + 1 < x
                            + 1 by {
                        if grid@.has_plate(y as int, p) && p.right + 1 == x {
                            lemma_plate_inside(grid@, y as int, p);
                        }
                    }
                }
            },
        }
        x = x + 1;
    }
    if let Some(s) = start {
        let closed = Plate { left: s, right: width - 1 };
        plates.push(closed);
        proof {
            assert(grid@.has_plate(y as int, closed));
            assert forall|p: Plate| #[trigger]
                plates@.contains(p) <==> grid@.has_plate(y as int, p) by {
                if grid@.has_plate(y as int, p) {
                    lemma_plate_inside(grid@, y as int, p);
                    if p.right + 1 == width {
                        lemma_plate_by_right_end(grid@, y as int, p, closed);
                    }
                }
            }
        }
    } else {
        proof {
            assert forall|p: Plate| #[trigger]
                plates@.contains(p) <==> grid@.has_plate(y as int, p) by {
                if grid@.has_plate(y as int, p) {
                    lemma_plate_inside(grid@, y as int, p);
                }
            }
        }
    }
    proof {
        assert forall|i: int| 0 <= i < plates.len() implies (#[trigger] plates[i]).inside(
            grid@.width,
        ) by {
            assert(plates@.contains(plates[i]));
            lemma_plate_inside(grid@, y as int, plates[i]);
        }
    }
    plates
}

/// The plates of every row of the grid, from row 0 up.
pub fn plate_stack(grid: &Grid) -> (rows: Vec<Vec<Plate>>)
    ensures
        is_plate_stack_of(grid@, rows@),
        rows.len() <= i32::MAX,
{
    let height = grid.height();
    let mut rows: Vec<Vec<Plate>> = Vec::new();
    let mut y: i32 = 0;
    while y < height
        invariant
            height == grid@.height,
            0 <= y,
            y <= height || y == 0,
            rows.len() == y,
            forall|r: int| 0 <= r < rows.len() ==> is_row_of(grid@, r, #[trigger] rows[r]@),
        decreases height - y,
    {
        let row = row_plates(grid, y);
        rows.push(row);
        y = y + 1;
    }
    rows
}

} // verus!
