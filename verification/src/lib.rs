//! A sliding-tile puzzle engine ("2048"-style): tiles carry power-of-two
//! values, a directional shift slides every tile as far as possible toward
//! one edge, merges adjacent equal-valued tiles pairwise (at most once per
//! tile per shift), and then spawns one new tile in a random empty cell.
//!
//! The board transition engine is fully verified: the per-line
//! contraction/merge scan is proved equal to a functional specification
//! ([`merger::merged_line`]), shifts conserve the total tile mass, a shift
//! that reports "no movement" is proved to leave the grid unchanged, and a
//! shift that does move something is proved to leave a free cell for the
//! spawned tile.

use vstd::prelude::*;

pub mod board;
pub mod coord;
pub mod cursor;
pub mod game;
pub mod laws;
pub mod merger;
pub mod moves;
pub mod pallete;
pub mod random;

verus! {

/// The value carried by a tile. The game doubles values by merging, so only
/// powers of two below `u16::MAX` ever arise in play.
pub type TileValue = u16;

/// A single grid cell: empty, or a tile carrying a value.
#[derive(Copy, Clone, PartialEq, Eq, Structural, Debug)]
pub enum Square {
    Empty,
    Value(TileValue),
}

} // verus!
