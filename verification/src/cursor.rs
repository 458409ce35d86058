//! The dual cursor: a pair of positions advancing along one line of the grid
//! in a fixed direction.
//!
//! `target` is the position nearer to the line's leading edge (the first cell
//! in scan order not yet known to be final); `source` lies strictly farther
//! along the line (the next cell being inspected for consumption into
//! `target`). The two positions never reference the same cell, and the
//! owning [`Board`] mediates all reads and writes, so the cursors never
//! alias memory.

use vstd::prelude::*;

use crate::board::Board;
use crate::coord::{Coord, Vector};
use crate::moves::Move;
use crate::{Square, TileValue};

verus! {

/// Two coordinates are at the same grid position (extents aside).
pub open spec fn same_pos(a: Coord, b: Coord) -> bool {
    a.x == b.x && a.y == b.y
}

/// A scan cursor over one line of a board: a `target` position, a `source`
/// position strictly ahead of it in `direction`, and the ordered log of
/// events emitted so far.
pub struct DualCursor {
    pub target: Coord,
    pub source: Coord,
    pub direction: Vector,
    pub target_changed: bool,
    pub moves: Vec<Move>,
}

impl DualCursor {
    /// `source` lies strictly ahead of `target` along `direction`, on the
    /// same line.
    pub open spec fn source_ahead(self) -> bool {
        if self.direction.dx == 1 {
            self.source.y == self.target.y && self.target.x < self.source.x
        } else if self.direction.dx == -1 {
            self.source.y == self.target.y && self.source.x < self.target.x
        } else if self.direction.dy == 1 {
            self.source.x == self.target.x && self.target.y < self.source.y
        } else {
            self.source.x == self.target.x && self.source.y < self.target.y
        }
    }

    /// The cursor is in a legal mid-scan state on board `b`.
    pub open spec fn wf(self, b: Board) -> bool {
        &&& self.direction.is_unit()
        &&& b.valid_coord(self.target)
        &&& b.valid_coord(self.source)
        &&& self.source_ahead()
    }

    /// The event log after reporting the current target as unmoved, if it
    /// holds a tile that has not been reported or changed this scan.
    pub open spec fn stay_reported(self, b: Board) -> Seq<Move> {
        match b.cell_at(self.target) {
            Square::Value(v) => if !self.target_changed {
                self.moves@.push(Move::Stay { at: self.target, value: v })
            } else {
                self.moves@
            },
            Square::Empty => self.moves@,
        }
    }

    /// Start a scan: `target` sits at `start` and `source` one step farther
    /// along `direction`.
    pub fn new(start: Coord, direction: Vector) -> (r: Self)
        requires
            start.wf(),
            direction.is_unit(),
            start.can_step(direction),
        ensures
            r.target == start,
            r.source == start.stepped(direction),
            r.direction == direction,
            r.target_changed == false,
            r.moves@ == Seq::<Move>::empty(),
            r.source_ahead(),
    {
        let source = match start.add(direction) {
            Ok(c) => c,
            Err(()) => start,  // unreachable: `start.can_step(direction)`
        };
        Self { target: start, source, direction, target_changed: false, moves: Vec::new() }
    }

    /// The cell under the source cursor.
    pub fn source_tile(&self, board: &Board) -> (r: Square)
        requires
            board.wf(),
            board.valid_coord(self.source),
        ensures
            r == board.cell_at(self.source),
    {
        board.at(self.source)
    }

    /// The cell under the target cursor.
    pub fn target_tile(&self, board: &Board) -> (r: Square)
        requires
            board.wf(),
            board.valid_coord(self.target),
        ensures
            r == board.cell_at(self.target),
    {
        board.at(self.target)
    }

    /// Hand out the event log of this scan.
    pub fn moves(self) -> (r: Vec<Move>)
        ensures
            r == self.moves,
    {
        self.moves
    }

    /// Report the current target as unmoved, unless it is empty or was
    /// already changed (and hence reported) this scan.
    fn push_unchanged_target(&mut self, board: &Board)
        requires
            board.wf(),
            board.valid_coord(old(self).target),
        ensures
            final(self).moves@ == old(self).stay_reported(*board),
            final(self).target == old(self).target,
            final(self).source == old(self).source,
            final(self).direction == old(self).direction,
            final(self).target_changed == old(self).target_changed,
    {
        if !self.target_changed {
            if let Square::Value(target_value) = board.at(self.target) {
                self.moves.push(Move::Stay { at: self.target, value: target_value });
            }
        }
    }

    /// Step the source cursor one cell farther along the line. At the
    /// trailing edge the scan is over: the final unmoved target, if any, is
    /// reported, and `Err` is returned.
    pub fn advance_source(&mut self, board: &Board) -> (r: Result<(), ()>)
        requires
            board.wf(),
            old(self).direction.is_unit(),
            board.valid_coord(old(self).target),
            board.valid_coord(old(self).source),
        ensures
            final(self).target == old(self).target,
            final(self).direction == old(self).direction,
            final(self).target_changed == old(self).target_changed,
            r is Ok <==> old(self).source.can_step(old(self).direction),
            r is Ok ==> final(self).source == old(self).source.stepped(old(self).direction)
                && final(self).moves@ == old(self).moves@
                && board.valid_coord(final(self).source),
            r is Err ==> final(self).source == old(self).source
                && final(self).moves@ == old(self).stay_reported(*board),
    {
        match self.source.add(self.direction) {
            Ok(coord) => {
                self.source = coord;
                Ok(())
            },
            Err(()) => {
                // reached the end of the line: report the final unmoved
                // target, if applicable
                self.push_unchanged_target(board);
                Err(())
            },
        }
    }

    /// Step the target cursor one cell farther along the line, first
    /// reporting it as unmoved if applicable. If the target would land on
    /// the source, the source is stepped too; `Err` means the source fell
    /// off the trailing edge and the scan is over.
    pub fn advance_target(&mut self, board: &Board) -> (r: Result<(), ()>)
        requires
            board.wf(),
            old(self).wf(*board),
        ensures
            final(self).target == old(self).target.stepped(old(self).direction),
            final(self).direction == old(self).direction,
            final(self).target_changed == false,
            board.valid_coord(final(self).target),
            ({
                let stepped = old(self).target.stepped(old(self).direction);
                let reported = old(self).stay_reported(*board);
                if !same_pos(stepped, old(self).source) {
                    &&& r is Ok
                    &&& final(self).source == old(self).source
                    &&& final(self).moves@ == reported
                    &&& final(self).wf(*board)
                } else if old(self).source.can_step(old(self).direction) {
                    &&& r is Ok
                    &&& final(self).source == old(self).source.stepped(old(self).direction)
                    &&& final(self).moves@ == reported
                    &&& final(self).wf(*board)
                } else {
                    &&& r is Err
                    &&& final(self).source == old(self).source
                    &&& final(self).moves@ == (match board.cell_at(old(self).source) {
                        Square::Value(v) => reported.push(
                            (Move::Stay { at: stepped, value: v }),
                        ),
                        Square::Empty => reported,
                    })
                }
            }),
    {
        proof {
            // `source` bounds the target's line, so the step stays on the grid
            assert(self.target.can_step(self.direction));
        }
        self.push_unchanged_target(board);
        self.target = match self.target.add(self.direction) {
            Ok(c) => c,
            Err(()) => self.target,  // unreachable: the target can always step
        };
        self.target_changed = false;
        if self.target == self.source {
            // source and target must not point to the same cell
            self.advance_source(board)
        } else {
            Ok(())
        }
    }

    /// Step both cursors, source first (stepping the target may itself step
    /// the source when the two would collide).
    pub fn advance_both(&mut self, board: &Board) -> (r: Result<(), ()>)
        requires
            board.wf(),
            old(self).wf(*board),
        ensures
            final(self).target_changed == false || r is Err,
            final(self).direction == old(self).direction,
            r is Ok <==> old(self).source.can_step(old(self).direction),
            r is Ok ==> final(self).target == old(self).target.stepped(old(self).direction)
                && final(self).source == old(self).source.stepped(old(self).direction)
                && final(self).moves@ == old(self).stay_reported(*board)
                && final(self).target_changed == false
                && final(self).wf(*board),
            r is Err ==> final(self).target == old(self).target
                && final(self).source == old(self).source
                && final(self).moves@ == old(self).stay_reported(*board)
                && final(self).target_changed == old(self).target_changed
                && final(self).wf(*board),
    {
        match self.advance_source(board) {
            Ok(()) => self.advance_target(board),
            Err(()) => Err(()),
        }
    }

    /// Write the given value to the target cell, clear the source cell, and
    /// log the slide.
    pub fn move_tile(&mut self, board: &mut Board, tile_value: TileValue)
        requires
            old(board).wf(),
            old(self).wf(*old(board)),
        ensures
            final(board).wf(),
            final(board).max_x == old(board).max_x,
            final(board).max_y == old(board).max_y,
            final(board).cell_at(old(self).target) == (Square::Value(tile_value)),
            final(board).cell_at(old(self).source) is Empty,
            forall|x: int, y: int|
                0 <= x <= old(board).max_x && 0 <= y <= old(board).max_y && !(x == old(
                    self,
                ).target.x && y == old(self).target.y) && !(x == old(self).source.x && y == old(
                    self,
                ).source.y) ==> final(board).cell(x, y) == old(board).cell(x, y),
            final(self).target == old(self).target,
            final(self).source == old(self).source,
            final(self).direction == old(self).direction,
            final(self).target_changed == true,
            final(self).moves@ == old(self).moves@.push(
                (Move::Shift { from: old(self).source, to: old(self).target, value: tile_value }),
            ),
            final(self).wf(*final(board)),
    {
        board.put(self.target, Square::Value(tile_value));
        board.put(self.source, Square::Empty);
        self.target_changed = true;
        self.moves.push(Move::Shift { from: self.source, to: self.target, value: tile_value });
    }

    /// Write the merged value to the target cell, clear the source cell, and
    /// log the merge.
    pub fn merge_tiles(&mut self, board: &mut Board, old_tile_value: TileValue, new_tile_value: TileValue)
        requires
            old(board).wf(),
            old(self).wf(*old(board)),
        ensures
            final(board).wf(),
            final(board).max_x == old(board).max_x,
            final(board).max_y == old(board).max_y,
            final(board).cell_at(old(self).target) == (Square::Value(new_tile_value)),
            final(board).cell_at(old(self).source) is Empty,
            forall|x: int, y: int|
                0 <= x <= old(board).max_x && 0 <= y <= old(board).max_y && !(x == old(
                    self,
                ).target.x && y == old(self).target.y) && !(x == old(self).source.x && y == old(
                    self,
                ).source.y) ==> final(board).cell(x, y) == old(board).cell(x, y),
            final(self).target == old(self).target,
            final(self).source == old(self).source,
            final(self).direction == old(self).direction,
            final(self).target_changed == true,
            final(self).moves@ == old(self).moves@.push(
                (Move::Merge {
                    from: old(self).source,
                    to: old(self).target,
                    start_value: old_tile_value,
                    end_value: new_tile_value,
                }),
            ),
            final(self).wf(*final(board)),
    {
        board.put(self.target, Square::Value(new_tile_value));
        board.put(self.source, Square::Empty);
        self.target_changed = true;
        self.moves.push(
            Move::Merge {
                from: self.source,
                to: self.target,
                start_value: old_tile_value,
                end_value: new_tile_value,
            },
        );
    }
}

} // verus!
