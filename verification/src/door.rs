//! Doors: the way from one level to the next, and the place of a door's
//! sensor in the world.

use vstd::prelude::*;

use crate::geometry::Rect;

verus! {

/// The index of the last level.
pub const LAST_LEVEL: usize = 4;

/// What follows when the player goes through a door.
#[derive(Clone, Copy, Debug, PartialEq, Eq, Structural)]
pub struct DoorPassage {
    /// The level to show from now on.
    pub level: usize,
    /// Whether the game is won.
    pub won: bool,
}

/// The player went through a door of level `level`: the next level is
/// shown, and behind the last level the game is won.
pub fn on_player_entered_door(level: usize) -> (passage: DoorPassage)
    requires
        level < usize::MAX,
    ensures
        passage.level == level + 1,
        passage.won == (level + 1 > LAST_LEVEL),
{
    let next = level + 1;
    DoorPassage { level: next, won: next > LAST_LEVEL }
}

/// The place of a rectangle of cells in the world, in world units: its size,
/// and twice the coordinates of its centre, which may lie half a unit off.
#[derive(Clone, Copy, Debug, PartialEq, Eq, Structural)]
pub struct Footprint {
    pub width: i64,
    pub height: i64,
    pub twice_centre_x: i64,
    pub twice_centre_y: i64,
}

/// The footprint of a rectangle of cells of `grid_size` world units each,
/// where cell `(0, 0)` has its lower left corner at the origin.
pub open spec fn footprint_of(rect: Rect, grid_size: i32) -> Footprint {
    Footprint {
        width: ((rect.right - rect.left + 1) * grid_size) as i64,
        height: ((rect.top - rect.bottom + 1) * grid_size) as i64,
        twice_centre_x: ((rect.left + rect.right + 1) * grid_size) as i64,
        twice_centre_y: ((rect.bottom + rect.top + 1) * grid_size) as i64,
    }
}

proof fn lemma_scaled_fits(cells: int, grid_size: int)
    requires
        -0x1_0000_0000 < cells <= 0x1_0000_0000,
        -0x8000_0000 <= grid_size < 0x8000_0000,
    ensures
        -0x8000_0000_0000_0000 <= cells * grid_size < 0x8000_0000_0000_0000,
{
    if grid_size >= 0 {
        assert(cells * grid_size <= 0x1_0000_0000 * grid_size) by (nonlinear_arith)
            requires
                cells <= 0x1_0000_0000,
                grid_size >= 0,
        ;
        assert(cells * grid_size >= -0x1_0000_0000 * grid_size) by (nonlinear_arith)
            requires
                cells >= -0x1_0000_0000,
                grid_size >= 0,
        ;
    } else {
        assert(cells * grid_size >= 0x1_0000_0000 * grid_size) by (nonlinear_arith)
            requires
                cells <= 0x1_0000_0000,
                grid_size < 0,
        ;
        assert(cells * grid_size <= (1 - 0x1_0000_0000) * grid_size) by (nonlinear_arith)
            requires
                cells >= 1 - 0x1_0000_0000,
                grid_size < 0,
        ;
    }
}

/// Computes the footprint of the sensor that covers the rectangle.
pub fn door_footprint(rect: &Rect, grid_size: i32) -> (footprint: Footprint)
    ensures
        footprint == footprint_of(*rect, grid_size),
        footprint.width == (rect.right - rect.left + 1) * grid_size,
        footprint.height == (rect.top - rect.bottom + 1) * grid_size,
        footprint.twice_centre_x == (rect.left + rect.right + 1) * grid_size,
        footprint.twice_centre_y == (rect.bottom + rect.top + 1) * grid_size,
{
    let size: i64 = grid_size as i64;
    let columns: i64 = rect.right as i64 - rect.left as i64 + 1;
    let rows: i64 = rect.top as i64 - rect.bottom as i64 + 1;
    let across: i64 = rect.left as i64 + rect.right as i64 + 1;
    let along: i64 = rect.bottom as i64 + rect.top as i64 + 1;
    proof {
        lemma_scaled_fits(columns as int, size as int);
        lemma_scaled_fits(rows as int, size as int);
        lemma_scaled_fits(across as int, size as int);
        lemma_scaled_fits(along as int, size as int);
    }
    Footprint {
        width: columns * size,
        height: rows * size,
        twice_centre_x: across * size,
        twice_centre_y: along * size,
    }
}

} // verus!
