//! The rectangles that are still growing while the rows are merged, kept in
//! the engine's hash map under the plate that each of them stands on.

use bevy::platform::collections::HashMap;
use vstd::prelude::*;

use crate::geometry::{Plate, Rect};

verus! {

/// `bevy::platform::collections::HashMap`, the engine's hash map. Verus carries
/// values of it and sees nothing inside.
#[verifier::external_type_specification]
#[verifier::external_body]
#[verifier::reject_recursive_types(K)]
#[verifier::reject_recursive_types(V)]
#[verifier::reject_recursive_types(S)]
pub struct ExHashMap<K, V, S>(HashMap<K, V, S>);

/// The entries that a `bevy::platform::collections::HashMap` from plates, as
/// pairs `(left, right)`, to rectangles holds.
pub uninterp spec fn held_rects(map: HashMap<(i32, i32), Rect>) -> Map<(i32, i32), Rect>;

/// The map without entries.
pub open spec fn no_rects() -> Map<(i32, i32), Rect> {
    Map::empty()
}

/// `bevy::platform::collections::HashMap::new`: the new map holds nothing.
#[verifier::external_body]
fn rect_map_new() -> (fresh: HashMap<(i32, i32), Rect>)
    ensures
        held_rects(fresh) == no_rects(),
{
    HashMap::new()
}

/// `bevy::platform::collections::HashMap::get`: the value stored under the
/// key, if there is one. The map hands out a reference; the rectangle is
/// copied out of it.
#[verifier::external_body]
fn rect_map_get(map: &HashMap<(i32, i32), Rect>, key: (i32, i32)) -> (found: Option<Rect>)
    ensures
        found == if held_rects(*map).contains_key(key) {
            Some(held_rects(*map)[key])
        } else {
            None
        },
{
    map.get(&key).copied()
}

/// `bevy::platform::collections::HashMap::insert`: afterwards the key leads to
/// the value, and every other key to what it led to before.
#[verifier::external_body]
fn rect_map_insert(map: &mut HashMap<(i32, i32), Rect>, key: (i32, i32), value: Rect)
    ensures
        held_rects(*final(map)) == held_rects(*old(map)).insert(key, value),
{
    map.insert(key, value);
}

/// `bevy::platform::collections::HashMap::remove`: the entry under the key
/// leaves the map, and its value is returned if there was one.
#[verifier::external_body]
fn rect_map_remove(map: &mut HashMap<(i32, i32), Rect>, key: (i32, i32)) -> (taken: Option<Rect>)
    ensures
        held_rects(*final(map)) == held_rects(*old(map)).remove(key),
        taken == if held_rects(*old(map)).contains_key(key) {
            Some(held_rects(*old(map))[key])
        } else {
            None
        },
{
    map.remove(&key)
}

/// The plate that a key `(left, right)` stands for.
pub open spec fn plate_of(key: (i32, i32)) -> Plate {
    Plate { left: key.0, right: key.1 }
}

/// Every rectangle is stored under its own horizontal extent.
pub open spec fn keyed(open: Map<(i32, i32), Rect>) -> bool {
    forall|k: (i32, i32)| #[trigger] open.contains_key(k) ==> open[k].plate() == plate_of(k)
}

/// Whether the map holds the rectangle, under its own horizontal extent.
pub open spec fn holds(open: Map<(i32, i32), Rect>, rect: Rect) -> bool {
    open.contains_key(rect.plate().pair()) && open[rect.plate().pair()] == rect
}

/// The rectangles in progress, each under the plate it stands on.
pub struct OpenRects {
    map: HashMap<(i32, i32), Rect>,
}

impl View for OpenRects {
    type V = Map<(i32, i32), Rect>;

    closed spec fn view(&self) -> Map<(i32, i32), Rect> {
        held_rects(self.map)
    }
}

impl OpenRects {
    /// No rectangle in progress.
    pub fn new() -> (open: OpenRects)
        ensures
            open@ == no_rects(),
    {
        OpenRects { map: rect_map_new() }
    }

    /// The rectangle in progress on the plate, if there is one.
    pub fn get(&self, plate: Plate) -> (found: Option<Rect>)
        ensures
            found == if self@.contains_key(plate.pair()) {
                Some(self@[plate.pair()])
            } else {
                None
            },
    {
        rect_map_get(&self.map, (plate.left, plate.right))
    }

    /// Stores the rectangle under its own horizontal extent, in place of any
    /// rectangle that stood there.
    pub fn put(&mut self, rect: Rect)
        ensures
            final(self)@ == old(self)@.insert(rect.plate().pair(), rect),
    {
        rect_map_insert(&mut self.map, (rect.left, rect.right), rect)
    }

    /// Takes the rectangle in progress on the plate out of the map, if there
    /// is one.
    pub fn take(&mut self, plate: Plate) -> (taken: Option<Rect>)
        ensures
            final(self)@ == old(self)@.remove(plate.pair()),
            taken == if old(self)@.contains_key(plate.pair()) {
                Some(old(self)@[plate.pair()])
            } else {
                None
            },
    {
        rect_map_remove(&mut self.map, (plate.left, plate.right))
    }
}

} // verus!
