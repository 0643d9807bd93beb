use platformer_core::decompose::{decompose_cells, decompose_grid};
use platformer_core::geometry::{Cell, Plate, Rect};
use platformer_core::grid::{Grid, OutOfBounds};
use platformer_core::merge::merge_rows;
use platformer_core::occupancy::{MarkError, Occupancy};
use platformer_core::plates::{plate_stack, row_plates};

fn grid_of(width: i32, height: i32, cells: &[(i32, i32)]) -> Grid {
    let mut grid = Grid::new(width, height);
    for &(x, y) in cells {
        assert_eq!(grid.mark(Cell { x, y }), Ok(()));
    }
    grid
}

fn rect(left: i32, right: i32, top: i32, bottom: i32) -> Rect {
    Rect { left, right, top, bottom }
}

fn sorted(mut rects: Vec<Rect>) -> Vec<Rect> {
    rects.sort_by_key(|r| (r.bottom, r.left, r.top, r.right));
    rects
}

fn cells_of(rects: &[Rect]) -> Vec<(i32, i32)> {
    let mut cells = Vec::new();
    for r in rects {
        for y in r.bottom..=r.top {
            for x in r.left..=r.right {
                cells.push((x, y));
            }
        }
    }
    cells.sort();
    cells
}

#[test]
fn single_row_run_is_one_rectangle() {
    let grid = grid_of(3, 3, &[(0, 0), (1, 0), (2, 0)]);
    assert_eq!(decompose_grid(&grid), vec![rect(0, 2, 0, 0)]);
}

#[test]
fn two_cells_apart_in_a_row_are_two_rectangles() {
    let grid = grid_of(3, 3, &[(0, 0), (2, 0)]);
    assert_eq!(sorted(decompose_grid(&grid)), vec![rect(0, 0, 0, 0), rect(2, 2, 0, 0)]);
}

#[test]
fn solid_block_is_one_rectangle() {
    let grid = grid_of(3, 3, &[(0, 0), (1, 0), (0, 1), (1, 1)]);
    assert_eq!(decompose_grid(&grid), vec![rect(0, 1, 1, 0)]);
}

#[test]
fn staggered_shape_is_not_merged_across_rows() {
    let grid = grid_of(3, 3, &[(0, 0), (1, 0), (1, 1)]);
    assert_eq!(sorted(decompose_grid(&grid)), vec![rect(0, 1, 0, 0), rect(1, 1, 1, 1)]);
}

#[test]
fn empty_grid_has_no_rectangles() {
    let grid = Grid::new(3, 3);
    assert_eq!(decompose_grid(&grid), Vec::<Rect>::new());
}

#[test]
fn partitions_with_the_same_coordinates_do_not_mix() {
    let mut table = Occupancy::new();
    table.add_partition(1, 3, 3);
    table.add_partition(2, 3, 3);
    assert_eq!(table.mark(1, Cell { x: 0, y: 0 }), Ok(()));
    assert_eq!(table.decompose(1), Some(vec![rect(0, 0, 0, 0)]));
    assert_eq!(table.decompose(2), Some(Vec::new()));
    let mut all = table.decompose_all();
    all.sort_by_key(|p| p.key);
    assert_eq!(all.len(), 2);
    assert_eq!((all[0].key, all[0].rects.clone()), (1, vec![rect(0, 0, 0, 0)]));
    assert_eq!((all[1].key, all[1].rects.clone()), (2, Vec::new()));
}

#[test]
fn partition_alone_and_among_others_give_the_same_rectangles() {
    let cells = [(0, 0), (1, 0), (1, 1), (2, 2)];
    let mut alone = Occupancy::new();
    alone.add_partition(7, 3, 3);
    let mut among = Occupancy::new();
    among.add_partition(7, 3, 3);
    among.add_partition(8, 3, 3);
    among.add_partition(9, 5, 1);
    for &(x, y) in &cells {
        assert_eq!(alone.mark(7, Cell { x, y }), Ok(()));
        assert_eq!(among.mark(7, Cell { x, y }), Ok(()));
    }
    assert_eq!(among.mark(8, Cell { x: 0, y: 1 }), Ok(()));
    assert_eq!(among.mark(8, Cell { x: 2, y: 0 }), Ok(()));
    assert_eq!(among.mark(9, Cell { x: 4, y: 0 }), Ok(()));
    let expected = vec![rect(0, 1, 0, 0), rect(1, 1, 1, 1), rect(2, 2, 2, 2)];
    assert_eq!(sorted(alone.decompose(7).unwrap()), expected);
    assert_eq!(sorted(among.decompose(7).unwrap()), expected);
    assert_eq!(sorted(among.decompose(8).unwrap()), vec![rect(2, 2, 0, 0), rect(0, 0, 1, 1)]);
    assert_eq!(among.decompose(9), Some(vec![rect(4, 4, 0, 0)]));
}

#[test]
fn unknown_partition_is_refused() {
    let mut table = Occupancy::new();
    table.add_partition(1, 2, 2);
    assert_eq!(
        table.mark(5, Cell { x: 0, y: 0 }),
        Err(MarkError::UnknownPartition { key: 5 })
    );
    assert_eq!(table.decompose(5), None);
    assert!(table.partition(5).is_none());
    assert_eq!(table.decompose(1), Some(Vec::new()));
}

#[test]
fn cell_outside_the_bounds_is_refused_and_changes_nothing() {
    let mut grid = Grid::new(3, 2);
    assert_eq!(grid.mark(Cell { x: 1, y: 1 }), Ok(()));
    for (x, y) in [(3, 0), (0, 2), (-1, 0), (0, -1), (3, 2)] {
        assert_eq!(
            grid.mark(Cell { x, y }),
            Err(OutOfBounds { cell: Cell { x, y }, width: 3, height: 2 })
        );
    }
    assert_eq!(decompose_grid(&grid), vec![rect(1, 1, 1, 1)]);

    let mut table = Occupancy::new();
    table.add_partition(4, 3, 2);
    assert_eq!(
        table.mark(4, Cell { x: 3, y: 1 }),
        Err(MarkError::OutOfBounds(OutOfBounds { cell: Cell { x: 3, y: 1 }, width: 3, height: 2 }))
    );
    assert_eq!(table.decompose(4), Some(Vec::new()));
}

#[test]
fn grid_without_extent_takes_no_cell() {
    for (width, height) in [(0, 0), (0, 3), (3, 0), (-2, 4), (4, -2)] {
        let mut grid = Grid::new(width, height);
        assert_eq!(
            grid.mark(Cell { x: 0, y: 0 }),
            Err(OutOfBounds { cell: Cell { x: 0, y: 0 }, width, height })
        );
        assert_eq!(decompose_grid(&grid), Vec::<Rect>::new());
        assert_eq!(plate_stack(&grid).len(), if height > 0 { height as usize } else { 0 });
    }
}

#[test]
fn declaring_a_partition_again_clears_it() {
    let mut table = Occupancy::new();
    table.add_partition(1, 2, 2);
    assert_eq!(table.mark(1, Cell { x: 1, y: 1 }), Ok(()));
    table.add_partition(1, 4, 4);
    let grid = table.partition(1).unwrap();
    assert_eq!((grid.width(), grid.height()), (4, 4));
    assert!(!grid.is_marked(1, 1));
    assert_eq!(table.decompose(1), Some(Vec::new()));
}

#[test]
fn row_plates_are_maximal_runs_in_ascending_order() {
    let grid = grid_of(8, 2, &[(0, 0), (1, 0), (3, 0), (5, 0), (6, 0), (7, 0), (2, 1)]);
    assert_eq!(
        row_plates(&grid, 0),
        vec![
            Plate { left: 0, right: 1 },
            Plate { left: 3, right: 3 },
            Plate { left: 5, right: 7 }
        ]
    );
    assert_eq!(row_plates(&grid, 1), vec![Plate { left: 2, right: 2 }]);
    assert_eq!(row_plates(&grid, 2), Vec::<Plate>::new());
    assert_eq!(row_plates(&grid, -1), Vec::<Plate>::new());
    assert_eq!(
        plate_stack(&grid),
        vec![
            vec![
                Plate { left: 0, right: 1 },
                Plate { left: 3, right: 3 },
                Plate { left: 5, right: 7 }
            ],
            vec![Plate { left: 2, right: 2 }]
        ]
    );
}

#[test]
fn run_touching_the_right_edge_is_closed() {
    let grid = grid_of(4, 1, &[(2, 0), (3, 0)]);
    assert_eq!(row_plates(&grid, 0), vec![Plate { left: 2, right: 3 }]);
    let full = grid_of(3, 1, &[(0, 0), (1, 0), (2, 0)]);
    assert_eq!(row_plates(&full, 0), vec![Plate { left: 0, right: 2 }]);
}

#[test]
fn rectangle_touching_the_top_edge_is_flushed() {
    let grid = grid_of(2, 3, &[(0, 1), (0, 2), (1, 2)]);
    assert_eq!(sorted(decompose_grid(&grid)), vec![rect(0, 0, 1, 1), rect(0, 1, 2, 2)]);
    let column = grid_of(1, 3, &[(0, 0), (0, 1), (0, 2)]);
    assert_eq!(decompose_grid(&column), vec![rect(0, 0, 2, 0)]);
}

#[test]
fn fully_marked_grid_is_one_rectangle() {
    let mut cells = Vec::new();
    for y in 0..4 {
        for x in 0..5 {
            cells.push((x, y));
        }
    }
    let grid = grid_of(5, 4, &cells);
    assert_eq!(decompose_grid(&grid), vec![rect(0, 4, 3, 0)]);
}

#[test]
fn single_cell_grid() {
    let grid = grid_of(1, 1, &[(0, 0)]);
    assert_eq!(decompose_grid(&grid), vec![rect(0, 0, 0, 0)]);
}

#[test]
fn plate_that_recurs_after_a_gap_starts_a_new_rectangle() {
    let grid = grid_of(2, 4, &[(0, 0), (1, 0), (0, 2), (1, 2), (0, 3), (1, 3)]);
    assert_eq!(sorted(decompose_grid(&grid)), vec![rect(0, 1, 0, 0), rect(0, 1, 3, 2)]);
}

#[test]
fn widened_or_shifted_plate_ends_the_rectangle_under_it() {
    let widened = grid_of(3, 2, &[(0, 0), (0, 1), (1, 1)]);
    assert_eq!(sorted(decompose_grid(&widened)), vec![rect(0, 0, 0, 0), rect(0, 1, 1, 1)]);
    let shifted = grid_of(3, 2, &[(0, 0), (1, 0), (1, 1), (2, 1)]);
    assert_eq!(sorted(decompose_grid(&shifted)), vec![rect(0, 1, 0, 0), rect(1, 2, 1, 1)]);
    let split = grid_of(3, 2, &[(0, 0), (1, 0), (2, 0), (0, 1), (2, 1)]);
    assert_eq!(
        sorted(decompose_grid(&split)),
        vec![rect(0, 2, 0, 0), rect(0, 0, 1, 1), rect(2, 2, 1, 1)]
    );
}

#[test]
fn merge_rows_stacks_equal_plates_only() {
    let a = Plate { left: 0, right: 1 };
    let b = Plate { left: 3, right: 3 };
    let rows = vec![vec![a, b], vec![a], vec![a, b], vec![]];
    assert_eq!(
        sorted(merge_rows(&rows)),
        vec![rect(0, 1, 2, 0), rect(3, 3, 0, 0), rect(3, 3, 2, 2)]
    );
    assert_eq!(merge_rows(&Vec::new()), Vec::<Rect>::new());
    assert_eq!(merge_rows(&vec![vec![], vec![]]), Vec::<Rect>::new());
}

#[test]
fn merge_rows_takes_a_plate_that_a_row_lists_twice_once() {
    let a = Plate { left: 2, right: 4 };
    let rows = vec![vec![a, a], vec![a, a, a], vec![]];
    assert_eq!(merge_rows(&rows), vec![rect(2, 4, 1, 0)]);
}

#[test]
fn rectangles_cover_exactly_the_marked_cells_once() {
    let mut cells = vec![
        (0, 0), (1, 0), (2, 0), (4, 0),
        (0, 1), (1, 1), (4, 1), (5, 1),
        (1, 2), (2, 2), (3, 2), (5, 2),
        (0, 4), (1, 4), (2, 4), (3, 4), (4, 4), (5, 4),
    ];
    let grid = grid_of(6, 5, &cells);
    let rects = decompose_grid(&grid);
    cells.sort();
    assert_eq!(cells_of(&rects), cells);
    let area: u128 = rects.iter().map(|r| r.cell_count()).sum();
    assert_eq!(area, 18);
    for (i, a) in rects.iter().enumerate() {
        for b in &rects[i + 1..] {
            for &(x, y) in &cells {
                assert!(!(a.contains(Cell { x, y }) && b.contains(Cell { x, y })));
            }
        }
    }
}

#[test]
fn decomposition_is_the_same_on_every_call_and_in_any_marking_order() {
    let cells = [(0, 0), (1, 0), (1, 1), (3, 1), (3, 2), (0, 2)];
    let mut reversed = cells;
    reversed.reverse();
    let first = grid_of(4, 3, &cells);
    let second = grid_of(4, 3, &reversed);
    let rects = sorted(decompose_grid(&first));
    assert_eq!(sorted(decompose_grid(&first)), rects);
    assert_eq!(sorted(decompose_grid(&second)), rects);
    assert_eq!(
        rects,
        vec![rect(0, 1, 0, 0), rect(1, 1, 1, 1), rect(3, 3, 2, 1), rect(0, 0, 2, 2)]
    );
}

#[test]
fn grid_rebuilt_from_the_rectangles_decomposes_to_the_same_rectangles() {
    let grid = grid_of(5, 4, &[(0, 0), (1, 0), (0, 1), (1, 1), (3, 1), (4, 1), (4, 2), (2, 3)]);
    let rects = sorted(decompose_grid(&grid));
    let rebuilt = grid_of(5, 4, &cells_of(&rects));
    assert_eq!(sorted(decompose_grid(&rebuilt)), rects);
}

#[test]
fn marking_a_cell_twice_counts_once() {
    let grid = grid_of(2, 2, &[(1, 1), (1, 1), (1, 1)]);
    assert!(grid.is_marked(1, 1));
    assert!(!grid.is_marked(0, 1));
    assert!(!grid.is_marked(2, 1));
    assert_eq!(decompose_grid(&grid), vec![rect(1, 1, 1, 1)]);
}

#[test]
fn rect_area_and_membership() {
    let r = rect(2, 4, 7, 6);
    assert_eq!(r.cell_count(), 6);
    assert!(r.contains(Cell { x: 2, y: 6 }));
    assert!(r.contains(Cell { x: 4, y: 7 }));
    assert!(!r.contains(Cell { x: 5, y: 7 }));
    assert!(!r.contains(Cell { x: 2, y: 5 }));
    let widest = rect(i32::MIN, i32::MAX, i32::MAX, i32::MIN);
    assert_eq!(widest.cell_count(), 1u128 << 64);
    assert_eq!(rect(3, 2, 5, 5).cell_count(), 0);
    assert_eq!(rect(2, 3, 4, 5).cell_count(), 0);
    assert!(Cell { x: 0, y: 0 }.is_within(1, 1));
    assert!(!Cell { x: 1, y: 0 }.is_within(1, 1));
}

#[test]
fn rectangles_come_in_the_order_in_which_they_are_finished() {
    let grid = grid_of(
        6,
        4,
        &[(4, 0), (5, 0), (0, 0), (0, 1), (2, 1), (0, 2), (2, 2), (4, 2), (1, 3)],
    );
    assert_eq!(
        decompose_grid(&grid),
        vec![
            rect(4, 5, 0, 0),
            rect(0, 0, 2, 0),
            rect(2, 2, 2, 1),
            rect(4, 4, 2, 2),
            rect(1, 1, 3, 3),
        ]
    );
    let staggered = grid_of(3, 3, &[(1, 1), (1, 0), (0, 0)]);
    assert_eq!(decompose_grid(&staggered), vec![rect(0, 1, 0, 0), rect(1, 1, 1, 1)]);
    let apart = grid_of(3, 3, &[(2, 0), (0, 0)]);
    assert_eq!(decompose_grid(&apart), vec![rect(0, 0, 0, 0), rect(2, 2, 0, 0)]);
}

fn cells(pairs: &[(i32, i32)]) -> Vec<Cell> {
    pairs.iter().map(|&(x, y)| Cell { x, y }).collect()
}

#[test]
fn list_of_cells_is_decomposed_as_a_grid() {
    assert_eq!(
        decompose_cells(3, 3, &cells(&[(1, 1), (0, 0), (1, 0), (1, 1)])),
        Ok(vec![rect(0, 1, 0, 0), rect(1, 1, 1, 1)])
    );
    assert_eq!(decompose_cells(3, 3, &Vec::new()), Ok(Vec::new()));
    assert_eq!(decompose_cells(0, 0, &Vec::new()), Ok(Vec::new()));
}

#[test]
fn list_with_a_cell_outside_is_refused_as_a_whole() {
    assert_eq!(
        decompose_cells(3, 3, &cells(&[(0, 0), (3, 1), (1, 1), (0, -1)])),
        Err(OutOfBounds { cell: Cell { x: 3, y: 1 }, width: 3, height: 3 })
    );
    assert_eq!(
        decompose_cells(2, 5, &cells(&[(0, 5)])),
        Err(OutOfBounds { cell: Cell { x: 0, y: 5 }, width: 2, height: 5 })
    );
    assert!(Grid::from_cells(2, 2, &cells(&[(0, 0), (2, 2)])).is_err());
    let grid = Grid::from_cells(2, 2, &cells(&[(0, 0), (1, 1)])).ok().unwrap();
    assert!(grid.is_marked(0, 0) && grid.is_marked(1, 1) && !grid.is_marked(1, 0));
}
