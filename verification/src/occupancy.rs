//! The occupancy table: one grid per partition, under the partition's key.
//! Partitions are decomposed one by one, and no rectangle of one partition
//! ever depends on the cells of another.

use bevy::platform::collections::HashMap;
use vstd::prelude::*;

use crate::decompose::decompose_grid;
use crate::geometry::{Cell, Rect};
use crate::grid::{is_decomposition, Grid, GridView, OutOfBounds};

verus! {

/// The grids that a `bevy::platform::collections::HashMap` from partition
/// keys to grids holds.
pub uninterp spec fn held_grids(map: HashMap<u64, Grid>) -> Map<u64, Grid>;

/// The map without entries.
pub open spec fn no_grids() -> Map<u64, Grid> {
    Map::empty()
}

/// `bevy::platform::collections::HashMap::new`: the new map holds nothing.
#[verifier::external_body]
fn grid_map_new() -> (fresh: HashMap<u64, Grid>)
    ensures
        held_grids(fresh) == no_grids(),
{
    HashMap::new()
}

/// `bevy::platform::collections::HashMap::insert`: afterwards the key leads to
/// the grid, and every other key to what it led to before.
#[verifier::external_body]
fn grid_map_insert(map: &mut HashMap<u64, Grid>, key: u64, grid: Grid)
    ensures
        held_grids(*final(map)) == held_grids(*old(map)).insert(key, grid),
{
    map.insert(key, grid);
}

/// `bevy::platform::collections::HashMap::remove`: the entry under the key
/// leaves the map, and its grid is returned if there was one.
#[verifier::external_body]
fn grid_map_remove(map: &mut HashMap<u64, Grid>, key: u64) -> (taken: Option<Grid>)
    ensures
        held_grids(*final(map)) == held_grids(*old(map)).remove(key),
        taken == if held_grids(*old(map)).contains_key(key) {
            Some(held_grids(*old(map))[key])
        } else {
            None
        },
{
    map.remove(&key)
}

/// `bevy::platform::collections::HashMap::get`: a reference to the grid
/// stored under the key, if there is one.
#[verifier::external_body]
fn grid_map_get(map: &HashMap<u64, Grid>, key: u64) -> (found: Option<&Grid>)
    ensures
        found == if held_grids(*map).contains_key(key) {
            Some(&held_grids(*map)[key])
        } else {
            None
        },
{
    map.get(&key)
}

/// `bevy::platform::collections::HashMap::keys`: every key of the map once,
/// in an order that the map does not promise.
#[verifier::external_body]
fn grid_map_keys(map: &HashMap<u64, Grid>) -> (keys: Vec<u64>)
    ensures
        keys@.no_duplicates(),
        forall|k: u64| #[trigger] keys@.contains(k) <==> held_grids(*map).contains_key(k),
{
    map.keys().copied().collect()
}

/// Why a cell cannot be marked in a table.
#[derive(Clone, Copy, Debug, PartialEq, Eq, Structural)]
pub enum MarkError {
    /// The table has no partition under the key.
    UnknownPartition { key: u64 },
    /// The cell lies outside the bounds of its partition.
    OutOfBounds(OutOfBounds),
}

/// The rectangles of one partition.
#[derive(Debug)]
pub struct PartitionRects {
    /// The key of the partition.
    pub key: u64,
    /// The decomposition of its grid.
    pub rects: Vec<Rect>,
}

/// Every grid of the table keeps its marked cells inside its bounds.
pub open spec fn all_bounded(table: Map<u64, GridView>) -> bool {
    forall|k: u64| #[trigger] table.contains_key(k) ==> table[k].bounded()
}

/// The table without partitions.
pub open spec fn no_partitions() -> Map<u64, GridView> {
    Map::empty()
}

/// The grid of the given size with no cell marked.
pub open spec fn blank(width: i32, height: i32) -> GridView {
    GridView { width, height, marked: Set::empty() }
}

/// The grid with one more cell marked.
pub open spec fn with_cell(grid: GridView, cell: Cell) -> GridView {
    GridView { width: grid.width, height: grid.height, marked: grid.marked.insert(cell.pair()) }
}

/// `all` holds one entry for each partition of the table, with the
/// decomposition of that partition's grid.
pub open spec fn is_decomposition_of_all(
    table: Map<u64, GridView>,
    all: Seq<PartitionRects>,
) -> bool {
    &&& forall|k: u64|
        table.contains_key(k) <==> exists|i: int| 0 <= i < all.len() && #[trigger] all[i].key == k
    &&& forall|i: int, j: int| 0 <= i < j < all.len() ==> all[i].key != all[j].key
    &&& forall|i: int|
        0 <= i < all.len() ==> is_decomposition(table[all[i].key], (#[trigger] all[i]).rects@)
}

/// The occupancy table.
pub struct Occupancy {
    grids: HashMap<u64, Grid>,
}

impl View for Occupancy {
    type V = Map<u64, GridView>;

    closed spec fn view(&self) -> Map<u64, GridView> {
        Map::new(
            |k: u64| held_grids(self.grids).contains_key(k),
            |k: u64| held_grids(self.grids)[k]@,
        )
    }
}

impl Occupancy {
    /// A table without partitions.
    pub fn new() -> (table: Occupancy)
        ensures
            table@ == no_partitions(),
            all_bounded(table@),
    {
        let table = Occupancy { grids: grid_map_new() };
        assert(table@ =~= no_partitions());
        table
    }

    /// Declares a partition of the given size, with no cell marked. A
    /// partition that stood under the key is replaced.
    pub fn add_partition(&mut self, key: u64, width: i32, height: i32)
        ensures
            final(self)@ == old(self)@.insert(key, blank(width, height)),
            all_bounded(old(self)@) ==> all_bounded(final(self)@),
    {
        grid_map_insert(&mut self.grids, key, Grid::new(width, height));
        assert(self@ =~= old(self)@.insert(key, blank(width, height)));
    }

    /// Marks a cell of a partition. The cell is refused, and the table stays
    /// as it was, where the table has no such partition or the cell lies
    /// outside the partition's bounds.
    pub fn mark(&mut self, key: u64, cell: Cell) -> (outcome: Result<(), MarkError>)
        ensures
            all_bounded(old(self)@) ==> all_bounded(final(self)@),
            !old(self)@.contains_key(key) ==> final(self)@ == old(self)@ && outcome == Err::<
                (),
                MarkError,
            >(MarkError::UnknownPartition { key }),
            old(self)@.contains_key(key) && cell.within(
                old(self)@[key].width,
                old(self)@[key].height,
            ) ==> final(self)@ == old(self)@.insert(key, with_cell(old(self)@[key], cell))
                && outcome is Ok,
            old(self)@.contains_key(key) && !cell.within(
                old(self)@[key].width,
                old(self)@[key].height,
            ) ==> final(self)@ == old(self)@ && outcome == Err::<(), MarkError>(
                MarkError::OutOfBounds(
                    OutOfBounds {
                        cell,
                        width: old(self)@[key].width,
                        height: old(self)@[key].height,
                    },
                ),
            ),
    {
        match grid_map_remove(&mut self.grids, key) {
            None => {
                assert(self@ =~= old(self)@);
                Err(MarkError::UnknownPartition { key })
            },
            Some(mut grid) => {
                let ghost before = grid@;
                let outcome = grid.mark(cell);
                let ghost after = grid@;
                grid_map_insert(&mut self.grids, key, grid);
                assert(self@ =~= old(self)@.insert(key, after));
                match outcome {
                    Ok(()) => {
                        assert(after == with_cell(before, cell));
                        Ok(())
                    },
                    Err(refusal) => {
                        assert(after == before);
                        assert(self@ =~= old(self)@);
                        Err(MarkError::OutOfBounds(refusal))
                    },
                }
            },
        }
    }

    /// The grid of a partition, if the table has the partition.
    pub fn partition(&self, key: u64) -> (found: Option<&Grid>)
        ensures
            match found {
                Some(grid) => self@.contains_key(key) && grid@ == self@[key],
                None => !self@.contains_key(key),
            },
    {
        grid_map_get(&self.grids, key)
    }

    /// Decomposes the grid of one partition; `None` where the table has no
    /// such partition. A partition without marked cells has no rectangles.
    pub fn decompose(&self, key: u64) -> (found: Option<Vec<Rect>>)
        ensures
            match found {
                Some(rects) => self@.contains_key(key) && is_decomposition(self@[key], rects@),
                None => !self@.contains_key(key),
            },
    {
        match grid_map_get(&self.grids, key) {
            Some(grid) => Some(decompose_grid(grid)),
            None => None,
        }
    }

    /// Decomposes every partition of the table on its own.
    pub fn decompose_all(&self) -> (all: Vec<PartitionRects>)
        ensures
            is_decomposition_of_all(self@, all@),
    {
        let keys = grid_map_keys(&self.grids);
        let mut all: Vec<PartitionRects> = Vec::new();
        let mut i: usize = 0;
        while i < keys.len()
            invariant
                i <= keys.len(),
                all.len() == i,
                keys@.no_duplicates(),
                forall|k: u64| #[trigger] keys@.contains(k) <==> self@.contains_key(k),
                forall|j: int| 0 <= j < i ==> (#[trigger] all[j]).key == keys[j],
                forall|j: int|
                    0 <= j < i ==> is_decomposition(self@[keys[j]], (#[trigger] all[j]).rects@),
            decreases keys.len() - i,
        {
            let key = keys[i];
            assert(keys@.contains(key));
            let rects = match self.decompose(key) {
                Some(rects) => rects,
                None => Vec::new(),
            };
            all.push(PartitionRects { key, rects });
            i = i + 1;
        }
        proof {
            assert forall|k: u64|
                self@.contains_key(k) <==> exists|j: int|
                    0 <= j < all.len() && #[trigger] all[j].key == k by {
                if self@.contains_key(k) {
                    assert(keys@.contains(k));
                    let j = choose|j: int| 0 <= j < keys.len() && keys[j] == k;
                    assert(all[j].key == k);
                }
                if exists|j: int| 0 <= j < all.len() && #[trigger] all[j].key == k {
                    let j = choose|j: int| 0 <= j < all.len() && #[trigger] all[j].key == k;
                    assert(keys@.contains(keys[j]));
                }
            }
        }
        all
    }
}

} // verus!
