//! The game: a board, a run state, and a monotonic move counter.
//!
//! `execute` translates an abstract [`Command`] into a board operation,
//! spawns a tile exactly when the shift really moved something, and records
//! the latest move list for a renderer to consume.

use vstd::prelude::*;

use crate::board::{lemma_empty_cell_num_free, Board};
use crate::coord::Vector;
use crate::moves::{all_stays, Move};
use crate::merger::{merges_double, no_remerge};
use crate::random::Randomizer;
use crate::Square;

verus! {

#[derive(Debug)]
pub enum Command {
    /// No operation; used purely to trigger a redraw.
    Nop,
    New,
    Quit,
    Right,
    Left,
    Up,
    Down,
}

pub enum GameState {
    Running,
    /// Terminal: the game was ended by user request.
    Quit,
}

/// One running game.
pub struct Game {
    pub board: Board,
    pub randomizer: Randomizer,
    pub state: GameState,
    pub latest_moves: Vec<Move>,
    pub move_count: usize,
}

/// The post-shift board `post` is `mid` plus one freshly spawned tile, and
/// `ms` is the shift's event log with that tile's `Appear` appended: no event
/// of the log is an `Appear` but the last, something really moved, and no
/// merged tile was touched twice.
pub open spec fn shift_and_spawn(mid: Board, post: Board, ms: Seq<Move>) -> bool {
    &&& ms.len() >= 1
    &&& ms.last() is Appear
    &&& (ms.last() matches Move::Appear { at, value } ==> {
        &&& mid.valid_coord(at)
        &&& mid.cell_at(at) is Empty
        &&& (value == 2 || value == 4)
        &&& post.cell_at(at) == (Square::Value(value))
        &&& forall|x: int, y: int|
            0 <= x <= mid.max_x && 0 <= y <= mid.max_y && !(x == at.x && y == at.y)
                ==> post.cell(x, y) == mid.cell(x, y)
    })
    &&& !all_stays(ms.take(ms.len() - 1))
    &&& no_remerge(ms.take(ms.len() - 1))
    &&& merges_double(ms.take(ms.len() - 1))
    &&& forall|i: int| 0 <= i < ms.len() - 1 ==> !((#[trigger] ms[i]) is Appear)
}

/// What a shift command does to a game: either nothing could move, and
/// board, log and counter are untouched, or the board is the contracted and
/// merged image of the old one plus one spawned tile, the log records it
/// all, and the counter ticks once.
pub open spec fn shift_command_outcome(pre: Game, post: Game, v: Vector) -> bool {
    ||| (post.board.grid_seq() == pre.board.grid_seq() && post.board.shifted_from(pre.board, v)
        && post.latest_moves@ == pre.latest_moves@ && post.move_count == pre.move_count)
    ||| (post.move_count == pre.move_count + 1 && post.latest_moves@.take(
        post.latest_moves@.len() - 1,
    ) == pre.board.shift_events(v, pre.board.num_lines(v)) && exists|mid: Board|
        mid.wf() && #[trigger] mid.shifted_from(pre.board, v) && mid.grid_seq()
            != pre.board.grid_seq() && shift_and_spawn(mid, post.board, post.latest_moves@))
}

impl Game {
    /// A fresh game: an empty board with one starting tile already spawned,
    /// counted as the first move.
    pub fn new(size_x: usize, size_y: usize) -> (g: Game)
        requires
            1 <= size_x < usize::MAX,
            1 <= size_y < usize::MAX,
            size_x * size_y <= usize::MAX,
        ensures
            g.board.wf(),
            g.board.max_x == size_x - 1,
            g.board.max_y == size_y - 1,
            g.state is Running,
            g.move_count == 1,
            g.latest_moves@.len() == 1,
            g.latest_moves@[0] is Appear,
            (g.latest_moves@[0] matches Move::Appear { at, value } ==> {
                &&& g.board.valid_coord(at)
                &&& (value == 2 || value == 4)
                &&& g.board.cell_at(at) == (Square::Value(value))
                &&& forall|x: int, y: int|
                    0 <= x <= g.board.max_x && 0 <= y <= g.board.max_y && !(x == at.x && y == at.y)
                        ==> g.board.cell(x, y) is Empty
            }),
    {
        let mut new_game = Game {
            state: GameState::Running,
            board: Board::new(size_x, size_y),
            randomizer: Randomizer::new(),
            latest_moves: Vec::new(),
            move_count: 0,
        };
        new_game.execute(Command::New);
        new_game
    }

    /// Run one command: the full state machine of the game.
    pub fn execute(&mut self, command: Command)
        requires
            old(self).board.wf(),
            !(command is Quit || command is Nop) ==> old(self).move_count < usize::MAX,
            command is Left || command is Right ==> old(self).board.max_x >= 1,
            command is Up || command is Down ==> old(self).board.max_y >= 1,
        ensures
            final(self).board.wf(),
            final(self).board.max_x == old(self).board.max_x,
            final(self).board.max_y == old(self).board.max_y,
            command is Quit ==> final(self).state is Quit && final(self).board.grid_seq() == old(self).board.grid_seq() && final(self).latest_moves@ == old(self).latest_moves@ && final(self).move_count == old(self).move_count,
            !(command is Quit) ==> final(self).state == old(self).state,
            command is Nop ==> final(self).board.grid_seq() == old(self).board.grid_seq() && final(self).latest_moves@ == old(self).latest_moves@ && final(self).move_count == old(self).move_count,
            command is New ==> ({
                &&& final(self).move_count == old(self).move_count + 1
                &&& final(self).latest_moves@.len() == 1
                &&& final(self).latest_moves@[0] is Appear
                &&& (final(self).latest_moves@[0] matches Move::Appear { at, value } ==> {
                    &&& final(self).board.valid_coord(at)
                    &&& (value == 2 || value == 4)
                    &&& final(self).board.cell_at(at) == (Square::Value(value))
                    &&& forall|x: int, y: int|
                        0 <= x <= final(self).board.max_x && 0 <= y <= final(self).board.max_y && !(
                        x == at.x && y == at.y) ==> final(self).board.cell(x, y) is Empty
                })
            }),
            command is Left ==> shift_command_outcome(
                *old(self),
                *final(self),
                (Vector { dx: 1, dy: 0 }),
            ),
            command is Right ==> shift_command_outcome(
                *old(self),
                *final(self),
                (Vector { dx: -1isize, dy: 0isize }),
            ),
            command is Up ==> shift_command_outcome(
                *old(self),
                *final(self),
                (Vector { dx: 0, dy: 1 }),
            ),
            command is Down ==> shift_command_outcome(
                *old(self),
                *final(self),
                (Vector { dx: 0isize, dy: -1isize }),
            ),
    {
        let maybe_moves: Option<Vec<Move>> = match command {
            Command::Nop => None,  // screen refresh only
            Command::Left => self.shift_left(),
            Command::Right => self.shift_right(),
            Command::Up => self.shift_up(),
            Command::Down => self.shift_down(),
            Command::New => {
                let appear = self.restart();
                let mut moves: Vec<Move> = Vec::new();
                moves.push(appear);
                Some(moves)
            },
            Command::Quit => {
                self.state = GameState::Quit;
                return ;
            },
        };
        match maybe_moves {
            Some(new_moves) => {
                self.latest_moves = new_moves;
                self.move_count = self.move_count + 1;
            },
            None => {},
        }
    }

    pub fn state(&self) -> (r: &GameState)
        ensures
            *r == self.state,
    {
        &self.state
    }

    /// The event log of the last command that changed anything: a read-only
    /// snapshot, valid until the next `execute`.
    pub fn latest_moves(&self) -> (r: &[Move])
        ensures
            r@ == self.latest_moves@,
    {
        self.latest_moves.as_slice()
    }

    pub fn move_count(&self) -> (r: usize)
        ensures
            r == self.move_count,
    {
        self.move_count
    }

    fn restart(&mut self) -> (m: Move)
        requires
            old(self).board.wf(),
        ensures
            final(self).board.wf(),
            final(self).board.max_x == old(self).board.max_x,
            final(self).board.max_y == old(self).board.max_y,
            final(self).state == old(self).state,
            final(self).latest_moves@ == old(self).latest_moves@,
            final(self).move_count == old(self).move_count,
            m is Appear,
            (m matches Move::Appear { at, value } ==> {
                &&& final(self).board.valid_coord(at)
                &&& (value == 2 || value == 4)
                &&& final(self).board.cell_at(at) == (Square::Value(value))
                &&& forall|x: int, y: int|
                    0 <= x <= final(self).board.max_x && 0 <= y <= final(self).board.max_y && !(x
                        == at.x && y == at.y) ==> final(self).board.cell(x, y) is Empty
            }),
    {
        self.board.initialize(&mut self.randomizer)
    }

    fn shift_left(&mut self) -> (r: Option<Vec<Move>>)
        requires
            old(self).board.wf(),
            old(self).board.max_x >= 1,
        ensures
            final(self).shift_helper_post(*old(self), r, (Vector { dx: 1, dy: 0 })),
    {
        let shifted = self.board.shift_left();
        self.spawn_after_shift(shifted)
    }

    fn shift_right(&mut self) -> (r: Option<Vec<Move>>)
        requires
            old(self).board.wf(),
            old(self).board.max_x >= 1,
        ensures
            final(self).shift_helper_post(*old(self), r, (Vector { dx: -1isize, dy: 0isize })),
    {
        let shifted = self.board.shift_right();
        self.spawn_after_shift(shifted)
    }

    fn shift_up(&mut self) -> (r: Option<Vec<Move>>)
        requires
            old(self).board.wf(),
            old(self).board.max_y >= 1,
        ensures
            final(self).shift_helper_post(*old(self), r, (Vector { dx: 0, dy: 1 })),
    {
        let shifted = self.board.shift_up();
        self.spawn_after_shift(shifted)
    }

    fn shift_down(&mut self) -> (r: Option<Vec<Move>>)
        requires
            old(self).board.wf(),
            old(self).board.max_y >= 1,
        ensures
            final(self).shift_helper_post(*old(self), r, (Vector { dx: 0isize, dy: -1isize })),
    {
        let shifted = self.board.shift_down();
        self.spawn_after_shift(shifted)
    }

    /// What the per-direction helpers promise: the game fields other than
    /// the board are untouched, `None` means the board is untouched too, and
    /// `Some` hands back the full log of a real shift plus spawn.
    pub open spec fn shift_helper_post(
        self,
        pre: Game,
        r: Option<Vec<Move>>,
        v: Vector,
    ) -> bool {
        &&& self.board.wf()
        &&& self.board.max_x == pre.board.max_x
        &&& self.board.max_y == pre.board.max_y
        &&& self.state == pre.state
        &&& self.latest_moves@ == pre.latest_moves@
        &&& self.move_count == pre.move_count
        &&& (r is None ==> self.board.grid_seq() == pre.board.grid_seq()
            && self.board.shifted_from(pre.board, v))
        &&& (r matches Some(ms) ==> ms@.take(ms@.len() - 1) == pre.board.shift_events(
            v,
            pre.board.num_lines(v),
        ) && exists|mid: Board|
            mid.wf() && #[trigger] mid.shifted_from(pre.board, v) && mid.grid_seq()
                != pre.board.grid_seq() && shift_and_spawn(mid, self.board, ms@))
    }

    /// Append the spawned tile's event to a real shift's log; a shift that
    /// moved nothing spawns nothing.
    fn spawn_after_shift(&mut self, shifted: Option<Vec<Move>>) -> (r: Option<Vec<Move>>)
        requires
            old(self).board.wf(),
            (shifted matches Some(ms) ==> !all_stays(ms@) && no_remerge(ms@) && merges_double(ms@)
                && (forall|i: int|
                0 <= i < ms@.len() ==> !((#[trigger] ms@[i]) is Appear)) && exists|x: int, y: int|
                0 <= x <= old(self).board.max_x && 0 <= y <= old(self).board.max_y && old(self).board.cell(x, y) is Empty),
        ensures
            final(self).board.wf(),
            final(self).board.max_x == old(self).board.max_x,
            final(self).board.max_y == old(self).board.max_y,
            final(self).state == old(self).state,
            final(self).latest_moves@ == old(self).latest_moves@,
            final(self).move_count == old(self).move_count,
            r is Some <==> shifted is Some,
            shifted is None ==> final(self).board == old(self).board,
            (r matches Some(ms) ==> shift_and_spawn(old(self).board, final(self).board, ms@)),
            (r matches Some(ms) ==> (shifted matches Some(sm) ==> ms@.take(ms@.len() - 1)
                == sm@)),
    {
        match shifted {
            Some(mut moves) => {
                proof {
                    let (x0, y0) = choose|x0: int, y0: int|
                        0 <= x0 <= old(self).board.max_x && 0 <= y0 <= old(self).board.max_y && old(self).board.cell(x0, y0) is Empty;
                    lemma_empty_cell_num_free(old(self).board, x0, y0);
                }
                let ghost pre_moves = moves@;
                let appear = self.board.new_tile(&mut self.randomizer);
                moves.push(appear);
                proof {
                    assert(moves@.take(moves@.len() - 1) =~= pre_moves);
                    assert(moves@.last() == appear);
                }
                Some(moves)
            },
            None => None,
        }
    }
}

} // verus!
