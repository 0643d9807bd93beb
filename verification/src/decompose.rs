//! The decomposition of one grid: its rows are cut into plates, and the
//! plates are merged upwards into rectangles.

use vstd::prelude::*;

use crate::geometry::{Cell, Plate, Rect};
use crate::grid::{
    all_within, cell_pairs, grid_of, is_decomposition, is_first_outside, Grid, GridView,
    OutOfBounds,
};
use crate::laws::{
    covered_cells, lemma_area_conservation, lemma_coverage, lemma_emitted_inside,
    lemma_non_overlap, pairwise_disjoint, total_area,
};
use crate::merge::{left_to_right, merge_rows, row_has, rows_left_to_right, stacked};
use crate::plates::{is_plate_stack_of, is_row_of, lemma_plate_inside, plate_stack};

verus! {

/// Over the plate stack of a grid, the maximal stacks are the rectangles
/// that the grid emits.
pub proof fn lemma_stacked_is_emitted(grid: GridView, rows: Seq<Vec<Plate>>, rect: Rect)
    requires
        is_plate_stack_of(grid, rows),
    ensures
        stacked(rows, rect) <==> grid.emits(rect),
{
    let p = rect.plate();
    assert forall|y: int| row_has(rows, y, p) <==> grid.has_plate(y, p) by {
        if 0 <= y < rows.len() {
            assert(is_row_of(grid, y, rows[y]@));
        } else if grid.has_plate(y, p) {
            lemma_plate_inside(grid, y, p);
        }
    }
    if stacked(rows, rect) {
        assert forall|y: int| rect.bottom <= y <= rect.top implies #[trigger] grid.has_plate(
            y,
            p,
        ) by {
            assert(row_has(rows, y, p));
        }
    }
    if grid.emits(rect) {
        assert forall|y: int| rect.bottom <= y <= rect.top implies #[trigger] row_has(
            rows,
            y,
            p,
        ) by {
            assert(grid.has_plate(y, p));
        }
    }
}

/// Every row of the plate stack of a grid lists its plates from left to
/// right.
pub proof fn lemma_stack_left_to_right(grid: GridView, rows: Seq<Vec<Plate>>)
    requires
        is_plate_stack_of(grid, rows),
    ensures
        rows_left_to_right(rows),
{
    assert forall|y: int| 0 <= y < rows.len() implies left_to_right(#[trigger] rows[y]@) by {
        let plates = rows[y]@;
        assert(is_row_of(grid, y, plates));
        assert forall|i: int, j: int| 0 <= i < j < plates.len() implies plates[i].left
            < plates[j].left by {
            assert(plates.contains(plates[i]));
            lemma_plate_inside(grid, y, plates[i]);
        }
    }
}

/// Decomposes the marked cells of a grid into rectangles.
///
/// The result holds one rectangle for every plate and every maximal range
/// of consecutive rows that all have that very plate, in the order in which
/// a scan from the bottom row up finishes them. No two of the rectangles
/// share a cell; where the marked cells lie inside the bounds, the
/// rectangles hold exactly the marked cells, and their areas add up to the
/// number of marked cells.
pub fn decompose_grid(grid: &Grid) -> (rects: Vec<Rect>)
    ensures
        is_decomposition(grid@, rects@),
        forall|i: int|
            0 <= i < rects.len() ==> (#[trigger] rects[i]).inside(grid@.width, grid@.height),
        pairwise_disjoint(rects@),
        grid@.bounded() ==> covered_cells(rects@) == grid@.marked,
        grid@.bounded() ==> total_area(rects@) == grid@.marked.len(),
{
    let rows = plate_stack(grid);
    proof {
        lemma_stack_left_to_right(grid@, rows@);
    }
    let rects = merge_rows(&rows);
    proof {
        assert forall|r: Rect| #[trigger] rects@.contains(r) <==> grid@.emits(r) by {
            lemma_stacked_is_emitted(grid@, rows@, r);
        }
        assert forall|i: int| 0 <= i < rects.len() implies (#[trigger] rects[i]).inside(
            grid@.width,
            grid@.height,
        ) by {
            assert(rects@.contains(rects[i]));
            lemma_emitted_inside(grid@, rects[i]);
        }
        lemma_non_overlap(grid@, rects@);
        if grid@.bounded() {
            lemma_coverage(grid@, rects@);
            lemma_area_conservation(grid@, rects@);
        }
    }
    rects
}

/// Decomposes the cells of a list, taken as the marked cells of a grid of
/// the given size. A list with a cell outside the bounds is refused before
/// any rectangle is made; the refusal names the first such cell.
pub fn decompose_cells(width: i32, height: i32, cells: &Vec<Cell>) -> (outcome: Result<
    Vec<Rect>,
    OutOfBounds,
>)
    ensures
        match outcome {
            Ok(rects) => {
                &&& all_within(cells@, width, height)
                &&& is_decomposition(grid_of(width, height, cells@), rects@)
                &&& pairwise_disjoint(rects@)
                &&& covered_cells(rects@) == cell_pairs(cells@)
                &&& total_area(rects@) == cell_pairs(cells@).len()
            },
            Err(refusal) => exists|index: int|
                {
                    &&& #[trigger] is_first_outside(cells@, width, height, index)
                    &&& refusal == (OutOfBounds { cell: cells@[index], width, height })
                },
        },
{
    match Grid::from_cells(width, height, cells) {
        Ok(grid) => Ok(decompose_grid(&grid)),
        Err(refusal) => Err(refusal),
    }
}

} // verus!
