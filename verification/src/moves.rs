//! Tile movement events.
//!
//! Each shift or spawn reports what happened to every tile, in per-line scan
//! order, so a renderer can animate the transition without re-deriving it
//! from before/after grid snapshots.

use vstd::prelude::*;

use crate::coord::Coord;
use crate::TileValue;

verus! {

/// One tile event produced by a shift or a spawn.
#[derive(Copy, Clone, Debug)]
pub enum Move {
    /// A brand-new tile was placed.
    Appear { at: Coord, value: TileValue },
    /// A tile slid without merging.
    Shift { from: Coord, to: Coord, value: TileValue },
    /// A tile slid onto another equal-valued tile; `end_value` is twice
    /// `start_value`.
    Merge { from: Coord, to: Coord, start_value: TileValue, end_value: TileValue },
    /// A tile did not move this turn (reported once per unmoved, non-merged
    /// tile so the renderer can redraw it).
    Stay { at: Coord, value: TileValue },
}

/// True if every event in the sequence is a `Stay`: nothing actually moved.
pub open spec fn all_stays(moves: Seq<Move>) -> bool {
    forall|i: int| 0 <= i < moves.len() ==> moves[i] is Stay
}

} // verus!
