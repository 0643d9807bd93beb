//! The rules of a small tile-based platformer, stated and proved with Verus.
//!
//! The centre of the crate is the decomposition of the marked cells of a
//! grid into axis-aligned rectangles. `plates` cuts each row into its
//! maximal runs of marked cells; `merge` stacks equal runs of consecutive
//! rows into rectangles; `decompose` does both for one `grid`, and
//! `occupancy` keeps one grid per partition so that no rectangle ever spans
//! two partitions. `laws` proves what holds of every decomposition:
//! coverage, non-overlap, area conservation, determinism.
//!
//! Around it stand the smaller rules of the game: the clips and frames of a
//! sprite (`animation`, on the engine's `timer`), what the keys ask of the
//! `player`, where a `door` leads and where its sensor stands, which way a
//! `spike` points, and how a `mine` explodes.
//!
//! The marked cells and the rectangles in progress live in the engine's hash
//! collections (`cell_set`, `open_rects`, `occupancy`). What is taken on
//! trust of those collections and of the timer is written down next to each
//! call.

pub mod animation;
pub mod cell_set;
pub mod decompose;
pub mod door;
pub mod geometry;
pub mod grid;
pub mod laws;
pub mod merge;
pub mod mine;
pub mod occupancy;
pub mod open_rects;
pub mod plates;
pub mod player;
pub mod spike;
pub mod timer;
