//! The colour pairing rule for rendering tiles: every tile value is assigned
//! one of thirteen colour pairs. A renderer maps the pair number to whatever
//! attribute its terminal library uses; the rule itself is plain logic and
//! lives here.

use vstd::prelude::*;

use crate::TileValue;

verus! {

/// Which of the thirteen colour pairs a tile value gets. Value 0 stands for
/// a newly appearing tile, which gets the special flash pair; values past
/// 2048 all share the last ordinary pair.
pub open spec fn pair_for_square_value(value: TileValue) -> u8 {
    if value == 0 {
        13u8
    } else if value == 2 {
        1u8
    } else if value == 4 {
        2u8
    } else if value == 8 {
        3u8
    } else if value == 16 {
        4u8
    } else if value == 32 {
        5u8
    } else if value == 64 {
        6u8
    } else if value == 128 {
        7u8
    } else if value == 256 {
        8u8
    } else if value == 512 {
        9u8
    } else if value == 1024 {
        10u8
    } else if value == 2048 {
        11u8
    } else {
        12u8
    }
}

/// The fixed palette of colour pairs used to draw the board.
pub struct Pallete {}

impl Pallete {
    pub fn new() -> (r: Self)
        ensures
            r == (Pallete {  }),
    {
        Self {  }
    }

    /// The colour pair for a tile of the given value (0 meaning a tile that
    /// is appearing right now).
    pub fn get_pair_for_square_value(&self, value: TileValue) -> (r: u8)
        ensures
            r == pair_for_square_value(value),
            1 <= r <= 13,
    {
        match value {
            0 => 13,  // special flash-colour for a newly appearing tile
            2 => 1,
            4 => 2,
            8 => 3,
            16 => 4,
            32 => 5,
            64 => 6,
            128 => 7,
            256 => 8,
            512 => 9,
            1024 => 10,
            2048 => 11,
            _ => 12,
        }
    }
}

} // verus!
