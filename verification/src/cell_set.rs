//! A set of grid cells, kept in the engine's hash set.

use bevy::platform::collections::HashSet;
use bevy::platform::hash::FixedHasher;
use vstd::prelude::*;

use crate::geometry::Cell;

verus! {

/// `bevy::platform::collections::HashSet`, the engine's hash set. Verus carries
/// values of it and sees nothing inside.
#[verifier::external_type_specification]
#[verifier::external_body]
#[verifier::reject_recursive_types(T)]
#[verifier::reject_recursive_types(S)]
pub struct ExHashSet<T, S>(HashSet<T, S>);

/// `bevy::platform::hash::FixedHasher`, the hasher factory that the engine's
/// collections use unless told otherwise.
#[verifier::external_type_specification]
#[verifier::external_body]
pub struct ExFixedHasher(FixedHasher);

/// The coordinate pairs that a `bevy::platform::collections::HashSet` of
/// cells holds.
pub uninterp spec fn held_cells(set: HashSet<(i32, i32)>) -> Set<(i32, i32)>;

/// `bevy::platform::collections::HashSet::new`: the new set holds nothing.
#[verifier::external_body]
fn hash_set_new() -> (set: HashSet<(i32, i32)>)
    ensures
        held_cells(set) == Set::<(i32, i32)>::empty(),
{
    HashSet::new()
}

/// `bevy::platform::collections::HashSet::insert`: afterwards the set holds
/// the pair besides what it held, and the result tells whether the pair was
/// new.
#[verifier::external_body]
fn hash_set_insert(set: &mut HashSet<(i32, i32)>, pair: (i32, i32)) -> (fresh: bool)
    ensures
        held_cells(*final(set)) == held_cells(*old(set)).insert(pair),
        fresh == !held_cells(*old(set)).contains(pair),
{
    set.insert(pair)
}

/// `bevy::platform::collections::HashSet::contains`: whether the set holds
/// the pair.
#[verifier::external_body]
fn hash_set_contains(set: &HashSet<(i32, i32)>, pair: (i32, i32)) -> (found: bool)
    ensures
        found == held_cells(*set).contains(pair),
{
    set.contains(&pair)
}

/// A set of cells.
pub struct CellSet {
    cells: HashSet<(i32, i32)>,
}

impl View for CellSet {
    type V = Set<(i32, i32)>;

    closed spec fn view(&self) -> Set<(i32, i32)> {
        held_cells(self.cells)
    }
}

impl CellSet {
    /// The empty set.
    pub fn new() -> (set: CellSet)
        ensures
            set@ == Set::<(i32, i32)>::empty(),
    {
        CellSet { cells: hash_set_new() }
    }

    /// Adds a cell; tells whether it was new.
    pub fn insert(&mut self, cell: Cell) -> (fresh: bool)
        ensures
            final(self)@ == old(self)@.insert(cell.pair()),
            fresh == !old(self)@.contains(cell.pair()),
    {
        hash_set_insert(&mut self.cells, (cell.x, cell.y))
    }

    /// Whether the set holds the cell at column `x` of row `y`.
    pub fn contains(&self, x: i32, y: i32) -> (found: bool)
        ensures
            found == self@.contains((x, y)),
    {
        hash_set_contains(&self.cells, (x, y))
    }
}

} // verus!
