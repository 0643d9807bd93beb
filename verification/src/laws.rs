//! What holds of every decomposition: the rectangles cover exactly the
//! marked cells, no two of them share a cell, their areas add up to the
//! number of marked cells, and the marked cells alone determine them.

use vstd::prelude::*;

use crate::geometry::{finished_before, in_finishing_order, Plate, Rect};
use crate::grid::{is_decomposition, GridView};
use crate::plates::lemma_plate_inside;

verus! {

/// Whether one of the rectangles holds the cell at column `x` of row `y`.
pub open spec fn covered(rects: Seq<Rect>, x: int, y: int) -> bool {
    exists|i: int| 0 <= i < rects.len() && #[trigger] rects[i].covers(x, y)
}

/// The cells that the rectangles hold between them.
pub open spec fn covered_cells(rects: Seq<Rect>) -> Set<(i32, i32)> {
    Set::new(|c: (i32, i32)| covered(rects, c.0 as int, c.1 as int))
}

/// No cell belongs to two of the rectangles.
pub open spec fn pairwise_disjoint(rects: Seq<Rect>) -> bool {
    forall|i: int, j: int, x: int, y: int|
        0 <= i < j < rects.len() ==> !(#[trigger] rects[i].covers(x, y)
            && #[trigger] rects[j].covers(x, y))
}

/// The sum of the areas of the rectangles.
pub open spec fn total_area(rects: Seq<Rect>) -> int
    decreases rects.len(),
{
    if rects.len() == 0 {
        0
    } else {
        total_area(rects.drop_last()) + rects.last().area()
    }
}

/// The first column of the run of filled cells that reaches column `x` of
/// row `y` from the left.
pub open spec fn run_left(grid: GridView, x: int, y: int) -> int
    decreases x,
{
    if x > 0 && grid.filled(x - 1, y) {
        run_left(grid, x - 1, y)
    } else {
        x
    }
}

/// The last column of the run of filled cells that leaves column `x` of row
/// `y` to the right.
pub open spec fn run_right(grid: GridView, x: int, y: int) -> int
    decreases grid.width - x,
{
    if x + 1 < grid.width && grid.filled(x + 1, y) {
        run_right(grid, x + 1, y)
    } else {
        x
    }
}

proof fn lemma_run_left(grid: GridView, x: int, y: int)
    requires
        grid.filled(x, y),
    ensures
        0 <= run_left(grid, x, y) <= x,
        grid.is_run(y, run_left(grid, x, y), x),
        !grid.filled(run_left(grid, x, y) - 1, y),
    decreases x,
{
    if x > 0 && grid.filled(x - 1, y) {
        lemma_run_left(grid, x - 1, y);
        let left = run_left(grid, x - 1, y);
        assert forall|c: int| left <= c <= x implies #[trigger] grid.filled(c, y) by {
            if c < x {
                assert(grid.is_run(y, left, x - 1));
            }
        }
    } else {
        assert forall|c: int| x <= c <= x implies #[trigger] grid.filled(c, y) by {}
    }
}

proof fn lemma_run_right(grid: GridView, x: int, y: int)
    requires
        grid.filled(x, y),
    ensures
        x <= run_right(grid, x, y) < grid.width,
        grid.is_run(y, x, run_right(grid, x, y)),
        !grid.filled(run_right(grid, x, y) + 1, y),
    decreases grid.width - x,
{
    if x + 1 < grid.width && grid.filled(x + 1, y) {
        lemma_run_right(grid, x + 1, y);
        let right = run_right(grid, x + 1, y);
        assert forall|c: int| x <= c <= right implies #[trigger] grid.filled(c, y) by {
            if x < c {
                assert(grid.is_run(y, x + 1, right));
            }
        }
    } else {
        assert forall|c: int| x <= c <= x implies #[trigger] grid.filled(c, y) by {}
    }
}

/// Every filled cell lies on a plate of its row.
pub proof fn lemma_plate_around(grid: GridView, x: int, y: int) -> (p: Plate)
    requires
        grid.filled(x, y),
    ensures
        grid.has_plate(y, p),
        p.spans(x),
{
    lemma_run_left(grid, x, y);
    lemma_run_right(grid, x, y);
    let left = run_left(grid, x, y);
    let right = run_right(grid, x, y);
    assert forall|c: int| left <= c <= right implies #[trigger] grid.filled(c, y) by {
        if c <= x {
            assert(grid.is_run(y, left, x));
        } else {
            assert(grid.is_run(y, x, right));
        }
    }
    Plate { left: left as i32, right: right as i32 }
}

/// Two plates of one row that share a column are the same plate.
pub proof fn lemma_plate_by_column(grid: GridView, y: int, p: Plate, q: Plate, x: int)
    requires
        grid.has_plate(y, p),
        grid.has_plate(y, q),
        p.spans(x),
        q.spans(x),
    ensures
        p == q,
{
    if p.left < q.left {
        assert(grid.filled(q.left - 1, y));
    } else if q.left < p.left {
        assert(grid.filled(p.left - 1, y));
    }
    if p.right < q.right {
        assert(grid.filled(p.right + 1, y));
    } else if q.right < p.right {
        assert(grid.filled(q.right + 1, y));
    }
}

/// The lowest row of the stack of rows that all have plate `p` and reaches
/// row `y` from below.
pub open spec fn stack_bottom(grid: GridView, p: Plate, y: int) -> int
    decreases y,
{
    if y > 0 && grid.has_plate(y - 1, p) {
        stack_bottom(grid, p, y - 1)
    } else {
        y
    }
}

/// The highest row of the stack of rows that all have plate `p` and leaves
/// row `y` upwards.
pub open spec fn stack_top(grid: GridView, p: Plate, y: int) -> int
    decreases grid.height - y,
{
    if y + 1 < grid.height && grid.has_plate(y + 1, p) {
        stack_top(grid, p, y + 1)
    } else {
        y
    }
}

proof fn lemma_stack_bottom(grid: GridView, p: Plate, y: int)
    requires
        grid.has_plate(y, p),
    ensures
        0 <= stack_bottom(grid, p, y) <= y,
        forall|row: int| stack_bottom(grid, p, y) <= row <= y ==> #[trigger] grid.has_plate(row, p),
        !grid.has_plate(stack_bottom(grid, p, y) - 1, p),
    decreases y,
{
    lemma_plate_inside(grid, y, p);
    if y > 0 && grid.has_plate(y - 1, p) {
        lemma_stack_bottom(grid, p, y - 1);
    } else if y == 0 {
        if grid.has_plate(y - 1, p) {
            lemma_plate_inside(grid, y - 1, p);
        }
    }
}

proof fn lemma_stack_top(grid: GridView, p: Plate, y: int)
    requires
        grid.has_plate(y, p),
    ensures
        y <= stack_top(grid, p, y) < grid.height,
        forall|row: int| y <= row <= stack_top(grid, p, y) ==> #[trigger] grid.has_plate(row, p),
        !grid.has_plate(stack_top(grid, p, y) + 1, p),
    decreases grid.height - y,
{
    lemma_plate_inside(grid, y, p);
    if y + 1 < grid.height && grid.has_plate(y + 1, p) {
        lemma_stack_top(grid, p, y + 1);
    } else if y + 1 >= grid.height {
        if grid.has_plate(y + 1, p) {
            lemma_plate_inside(grid, y + 1, p);
        }
    }
}

/// Every plate of a row belongs to an emitted rectangle that holds the row.
pub proof fn lemma_rect_around(grid: GridView, p: Plate, y: int) -> (rect: Rect)
    requires
        grid.has_plate(y, p),
    ensures
        grid.emits(rect),
        rect.plate() == p,
        rect.bottom <= y <= rect.top,
{
    lemma_stack_bottom(grid, p, y);
    lemma_stack_top(grid, p, y);
    let bottom = stack_bottom(grid, p, y);
    let top = stack_top(grid, p, y);
    let rect = Rect { left: p.left, right: p.right, top: top as i32, bottom: bottom as i32 };
    assert forall|row: int| rect.bottom <= row <= rect.top implies #[trigger] grid.has_plate(
        row,
        rect.plate(),
    ) by {}
    rect
}

/// An emitted rectangle lies inside the grid and holds at least one cell.
pub proof fn lemma_emitted_inside(grid: GridView, rect: Rect)
    requires
        grid.emits(rect),
    ensures
        rect.wf(),
        rect.inside(grid.width, grid.height),
{
    assert(grid.has_plate(rect.bottom as int, rect.plate()));
    assert(grid.has_plate(rect.top as int, rect.plate()));
    lemma_plate_inside(grid, rect.bottom as int, rect.plate());
    lemma_plate_inside(grid, rect.top as int, rect.plate());
}

/// Every cell of an emitted rectangle is filled.
pub proof fn lemma_emitted_cells_filled(grid: GridView, rect: Rect, x: int, y: int)
    requires
        grid.emits(rect),
        rect.covers(x, y),
    ensures
        grid.filled(x, y),
{
    assert(grid.has_plate(y, rect.plate()));
}

/// Two emitted rectangles that share a cell are the same rectangle.
pub proof fn lemma_emitted_by_cell(grid: GridView, a: Rect, b: Rect, x: int, y: int)
    requires
        grid.emits(a),
        grid.emits(b),
        a.covers(x, y),
        b.covers(x, y),
    ensures
        a == b,
{
    assert(grid.has_plate(y, a.plate()));
    assert(grid.has_plate(y, b.plate()));
    lemma_plate_by_column(grid, y, a.plate(), b.plate(), x);
    if a.bottom < b.bottom {
        assert(grid.has_plate(b.bottom - 1, a.plate()));
    } else if b.bottom < a.bottom {
        assert(grid.has_plate(a.bottom - 1, b.plate()));
    }
    if a.top < b.top {
        assert(grid.has_plate(a.top + 1, b.plate()));
    } else if b.top < a.top {
        assert(grid.has_plate(b.top + 1, a.plate()));
    }
}

/// Coverage: the rectangles of a decomposition hold between them exactly
/// the marked cells of the grid.
pub proof fn lemma_coverage(grid: GridView, rects: Seq<Rect>)
    requires
        grid.bounded(),
        is_decomposition(grid, rects),
    ensures
        covered_cells(rects) == grid.marked,
{
    assert forall|c: (i32, i32)| covered_cells(rects).contains(c) <==> grid.marked.contains(c) by {
        let (x, y) = (c.0 as int, c.1 as int);
        if covered_cells(rects).contains(c) {
            let i = choose|i: int| 0 <= i < rects.len() && #[trigger] rects[i].covers(x, y);
            assert(rects.contains(rects[i]));
            lemma_emitted_cells_filled(grid, rects[i], x, y);
        }
        if grid.marked.contains(c) {
            assert(grid.filled(x, y));
            let p = lemma_plate_around(grid, x, y);
            let rect = lemma_rect_around(grid, p, y);
            assert(rects.contains(rect));
            let i = choose|i: int| 0 <= i < rects.len() && rects[i] == rect;
            assert(rects[i].covers(x, y));
        }
    }
    assert(covered_cells(rects) =~= grid.marked);
}

/// Non-overlap: no two rectangles of a decomposition share a cell.
pub proof fn lemma_non_overlap(grid: GridView, rects: Seq<Rect>)
    requires
        is_decomposition(grid, rects),
    ensures
        pairwise_disjoint(rects),
{
    assert forall|i: int, j: int, x: int, y: int| 0 <= i < j < rects.len() implies !(
        #[trigger] rects[i].covers(x, y) && #[trigger] rects[j].covers(x, y)
    ) by {
        if rects[i].covers(x, y) && rects[j].covers(x, y) {
            assert(rects.contains(rects[i]));
            assert(rects.contains(rects[j]));
            lemma_emitted_by_cell(grid, rects[i], rects[j], x, y);
        }
    }
}

/// Two lists of rectangles in finishing order that hold the same rectangles
/// are the same list.
pub proof fn lemma_finishing_order_unique(first: Seq<Rect>, second: Seq<Rect>)
    requires
        in_finishing_order(first),
        in_finishing_order(second),
        forall|r: Rect| first.contains(r) <==> second.contains(r),
    ensures
        first == second,
    decreases first.len(),
{
    if first.len() == 0 {
        if second.len() > 0 {
            assert(second.contains(second[0]));
        }
        assert(first =~= second);
    } else {
        assert(first.contains(first[0]));
        let k = choose|k: int| 0 <= k < second.len() && second[k] == first[0];
        assert(second.contains(second[0]));
        let m = choose|m: int| 0 <= m < first.len() && first[m] == second[0];
        if k > 0 && m > 0 {
            assert(finished_before(second[0], second[k]));
            assert(finished_before(first[0], first[m]));
        }
        assert(first[0] == second[0]);
        let first_rest = first.drop_first();
        let second_rest = second.drop_first();
        assert forall|r: Rect| first_rest.contains(r) <==> second_rest.contains(r) by {
            if first_rest.contains(r) {
                let i = choose|i: int| 0 <= i < first_rest.len() && first_rest[i] == r;
                assert(first[i + 1] == r);
                assert(finished_before(first[0], first[i + 1]));
                assert(first.contains(r));
                let j = choose|j: int| 0 <= j < second.len() && second[j] == r;
                assert(second_rest[j - 1] == r);
            }
            if second_rest.contains(r) {
                let i = choose|i: int| 0 <= i < second_rest.len() && second_rest[i] == r;
                assert(second[i + 1] == r);
                assert(finished_before(second[0], second[i + 1]));
                assert(second.contains(r));
                let j = choose|j: int| 0 <= j < first.len() && first[j] == r;
                assert(first_rest[j - 1] == r);
            }
        }
        assert forall|i: int, j: int| 0 <= i < j < first_rest.len() implies finished_before(
            first_rest[i],
            first_rest[j],
        ) by {
            assert(finished_before(first[i + 1], first[j + 1]));
        }
        assert forall|i: int, j: int| 0 <= i < j < second_rest.len() implies finished_before(
            second_rest[i],
            second_rest[j],
        ) by {
            assert(finished_before(second[i + 1], second[j + 1]));
        }
        lemma_finishing_order_unique(first_rest, second_rest);
        assert(first =~= seq![first[0]] + first_rest);
        assert(second =~= seq![second[0]] + second_rest);
    }
}

/// Determinism: a grid has one decomposition. Two decompositions of the
/// same grid hold the same rectangles in the same order.
pub proof fn lemma_deterministic(grid: GridView, first: Seq<Rect>, second: Seq<Rect>)
    requires
        is_decomposition(grid, first),
        is_decomposition(grid, second),
    ensures
        first == second,
{
    lemma_finishing_order_unique(first, second);
}

/// The grid that is rebuilt from rectangles: the same bounds, and the cells
/// of the rectangles marked.
pub open spec fn rederived(grid: GridView, rects: Seq<Rect>) -> GridView {
    GridView { width: grid.width, height: grid.height, marked: covered_cells(rects) }
}

/// Re-derivation: the grid rebuilt from a decomposition is the grid that was
/// decomposed, so decomposing it again gives the same rectangles.
pub proof fn lemma_rederivation(grid: GridView, rects: Seq<Rect>, again: Seq<Rect>)
    requires
        grid.bounded(),
        is_decomposition(grid, rects),
        is_decomposition(rederived(grid, rects), again),
    ensures
        rederived(grid, rects) == grid,
        again == rects,
{
    lemma_coverage(grid, rects);
    lemma_deterministic(grid, rects, again);
}

/// A grid without a marked cell inside its bounds has no rectangles, and a
/// grid without rectangles has no marked cell inside its bounds.
pub proof fn lemma_no_cells_no_rectangles(grid: GridView, rects: Seq<Rect>)
    requires
        is_decomposition(grid, rects),
    ensures
        rects.len() == 0 <==> forall|x: int, y: int| !grid.filled(x, y),
{
    if rects.len() > 0 {
        assert(rects.contains(rects[0]));
        lemma_emitted_inside(grid, rects[0]);
        lemma_emitted_cells_filled(grid, rects[0], rects[0].left as int, rects[0].bottom as int);
    }
    if exists|x: int, y: int| grid.filled(x, y) {
        let (x, y) = choose|x: int, y: int| grid.filled(x, y);
        let p = lemma_plate_around(grid, x, y);
        let rect = lemma_rect_around(grid, p, y);
        assert(rects.contains(rect));
    }
}

/// The cells of row `y` in the columns `left..=right`.
pub open spec fn segment(left: int, right: int, y: i32) -> Set<(i32, i32)> {
    Set::new(|c: (i32, i32)| left <= c.0 <= right && c.1 == y)
}

/// The cells of the rectangle in its rows up to row `top`.
pub open spec fn block(rect: Rect, top: int) -> Set<(i32, i32)> {
    Set::new(|c: (i32, i32)| rect.left <= c.0 <= rect.right && rect.bottom <= c.1 <= top)
}

proof fn lemma_segment_len(left: i32, right: int, y: i32)
    requires
        left - 1 <= right <= i32::MAX,
    ensures
        segment(left as int, right, y).finite(),
        segment(left as int, right, y).len() == right - left + 1,
    decreases right - left + 1,
{
    if right < left {
        assert(segment(left as int, right, y) =~= Set::empty());
    } else {
        lemma_segment_len(left, right - 1, y);
        assert(segment(left as int, right, y) =~= segment(left as int, right - 1, y).insert(
            (right as i32, y),
        ));
    }
}

proof fn lemma_block_len(rect: Rect, top: int)
    requires
        rect.left <= rect.right,
        rect.bottom - 1 <= top <= rect.top,
    ensures
        block(rect, top).finite(),
        block(rect, top).len() == (rect.right - rect.left + 1) * (top - rect.bottom + 1),
    decreases top - rect.bottom + 1,
{
    let width = rect.right - rect.left + 1;
    if top < rect.bottom {
        assert(block(rect, top) =~= Set::empty());
        assert(width * 0 == 0);
    } else {
        lemma_block_len(rect, top - 1);
        lemma_segment_len(rect.left, rect.right as int, top as i32);
        let below = block(rect, top - 1);
        let row = segment(rect.left as int, rect.right as int, top as i32);
        assert(block(rect, top) =~= below + row);
        assert(below.disjoint(row));
        vstd::set_lib::lemma_set_disjoint_lens(below, row);
        assert(width * (top - rect.bottom + 1) == width * (top - rect.bottom) + width)
            by (nonlinear_arith);
    }
}

/// A rectangle holds as many cells as its area says.
pub proof fn lemma_rect_cells_len(rect: Rect)
    requires
        rect.wf(),
    ensures
        rect.cells().finite(),
        rect.cells().len() == rect.area(),
{
    lemma_block_len(rect, rect.top as int);
    assert(rect.cells() =~= block(rect, rect.top as int));
}

/// Rectangles that share no cell hold between them as many cells as their
/// areas add up to.
pub proof fn lemma_disjoint_area(rects: Seq<Rect>)
    requires
        pairwise_disjoint(rects),
        forall|i: int| 0 <= i < rects.len() ==> (#[trigger] rects[i]).wf(),
    ensures
        covered_cells(rects).finite(),
        covered_cells(rects).len() == total_area(rects),
    decreases rects.len(),
{
    if rects.len() == 0 {
        assert(covered_cells(rects) =~= Set::empty());
    } else {
        let rest = rects.drop_last();
        let last = rects.last();
        assert forall|i: int, j: int, x: int, y: int| 0 <= i < j < rest.len() implies !(
            #[trigger] rest[i].covers(x, y) && #[trigger] rest[j].covers(x, y)
        ) by {
            assert(rest[i] == rects[i] && rest[j] == rects[j]);
        }
        assert forall|i: int| 0 <= i < rest.len() implies (#[trigger] rest[i]).wf() by {
            assert(rest[i] == rects[i]);
        }
        lemma_disjoint_area(rest);
        lemma_rect_cells_len(last);
        assert forall|c: (i32, i32)|
            covered_cells(rects).contains(c) <==> covered_cells(rest).contains(c)
                || last.cells().contains(c) by {
            let (x, y) = (c.0 as int, c.1 as int);
            if covered_cells(rects).contains(c) {
                let i = choose|i: int| 0 <= i < rects.len() && #[trigger] rects[i].covers(x, y);
                if i < rest.len() {
                    assert(rest[i].covers(x, y));
                }
            }
            if covered_cells(rest).contains(c) {
                let i = choose|i: int| 0 <= i < rest.len() && #[trigger] rest[i].covers(x, y);
                assert(rects[i].covers(x, y));
            }
            if last.cells().contains(c) {
                assert(rects[rects.len() - 1].covers(x, y));
            }
        }
        assert(covered_cells(rects) =~= covered_cells(rest) + last.cells());
        assert(covered_cells(rest).disjoint(last.cells())) by {
            assert forall|c: (i32, i32)|
                !(covered_cells(rest).contains(c) && last.cells().contains(c)) by {
                let (x, y) = (c.0 as int, c.1 as int);
                if covered_cells(rest).contains(c) && last.cells().contains(c) {
                    let i = choose|i: int| 0 <= i < rest.len() && #[trigger] rest[i].covers(x, y);
                    assert(rects[i].covers(x, y));
                    assert(rects[rects.len() - 1].covers(x, y));
                }
            }
        }
        vstd::set_lib::lemma_set_disjoint_lens(covered_cells(rest), last.cells());
    }
}

/// Area conservation: the areas of the rectangles of a decomposition add up
/// to the number of marked cells of the grid.
pub proof fn lemma_area_conservation(grid: GridView, rects: Seq<Rect>)
    requires
        grid.bounded(),
        is_decomposition(grid, rects),
    ensures
        grid.marked.finite(),
        total_area(rects) == grid.marked.len(),
{
    lemma_coverage(grid, rects);
    lemma_non_overlap(grid, rects);
    assert forall|i: int| 0 <= i < rects.len() implies (#[trigger] rects[i]).wf() by {
        assert(rects.contains(rects[i]));
        lemma_emitted_inside(grid, rects[i]);
    }
    lemma_disjoint_area(rects);
}

/// Partition isolation: the rectangles of a partition depend on the grid of
/// that partition alone. Decomposed in a table of its own or in a table
/// among other partitions, a partition gives the same rectangles, and where
/// its grid is bounded they hold its own marked cells and no others.
pub proof fn lemma_partition_isolation(
    alone: Map<u64, GridView>,
    among: Map<u64, GridView>,
    key: u64,
    rects_alone: Seq<Rect>,
    rects_among: Seq<Rect>,
)
    requires
        alone.contains_key(key),
        among.contains_key(key),
        alone[key] == among[key],
        is_decomposition(alone[key], rects_alone),
        is_decomposition(among[key], rects_among),
    ensures
        rects_alone == rects_among,
        among[key].bounded() ==> covered_cells(rects_among) == among[key].marked,
{
    lemma_deterministic(among[key], rects_alone, rects_among);
    if among[key].bounded() {
        lemma_coverage(among[key], rects_among);
    }
}

} // verus!
