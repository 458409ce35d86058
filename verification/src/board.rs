//! The board: a rectangular grid of cells with lookup and mutation by
//! coordinate, directional shift operations, and random tile placement.

use vstd::prelude::*;

use crate::coord::{Coord, Vector};
use crate::cursor::DualCursor;
use crate::merger::{
    lemma_empty_cell_fewer_values, lemma_fewer_values_empty_cell, lemma_all_stays_append,
    lemma_line_values_padded, lemma_line_values_len, lemma_merge_values_len, lemma_log_append,
    line_index, line_seq, line_x, line_y, merged_line, merge_values, merges_double, line_values,
    no_remerge, on_line, run_len, scan_events, Merger,
};
use crate::moves::{all_stays, Move};
use crate::random::Randomizer;
use crate::TileValue;
use crate::Square;

verus! {


/// The number of empty cells in a sequence of cells.
pub open spec fn count_empty(cells: Seq<Square>) -> int
    decreases cells.len(),
{
    if cells.len() == 0 {
        0
    } else {
        (if cells[0] is Empty {
            1int
        } else {
            0int
        }) + count_empty(cells.skip(1))
    }
}

/// The number of empty cells in the first `upto` columns.
pub open spec fn empties_in_cols(g: Seq<Seq<Square>>, upto: int) -> int
    decreases upto,
{
    if upto <= 0 {
        0
    } else {
        empties_in_cols(g, upto - 1) + count_empty(g[upto - 1])
    }
}

/// The value a spawned tile carries: 4 on the one-in-ten chance, 2 otherwise.
pub open spec fn spawn_value(spawn_four: bool) -> TileValue {
    if spawn_four {
        4u16
    } else {
        2u16
    }
}

pub proof fn lemma_count_empty_bounds(cells: Seq<Square>)
    ensures
        0 <= count_empty(cells) <= cells.len(),
    decreases cells.len(),
{
    if cells.len() > 0 {
        lemma_count_empty_bounds(cells.skip(1));
    }
}

pub proof fn lemma_count_empty_push(cells: Seq<Square>, e: Square)
    ensures
        count_empty(cells.push(e)) == count_empty(cells) + if e is Empty {
            1int
        } else {
            0int
        },
    decreases cells.len(),
{
    if cells.len() == 0 {
        assert(cells.push(e)[0] == e);
        assert(cells.push(e).skip(1) =~= cells);
    } else {
        lemma_count_empty_push(cells.skip(1), e);
        assert(cells.push(e).skip(1) =~= cells.skip(1).push(e));
    }
}

/// Counting empties over a one-longer prefix sees one more cell.
pub proof fn lemma_count_empty_take_step(cells: Seq<Square>, y: int)
    requires
        0 <= y < cells.len(),
    ensures
        count_empty(cells.take(y + 1)) == count_empty(cells.take(y)) + if cells[y] is Empty {
            1int
        } else {
            0int
        },
{
    assert(cells.take(y + 1) =~= cells.take(y).push(cells[y]));
    lemma_count_empty_push(cells.take(y), cells[y]);
}

pub proof fn lemma_count_empty_take_mono(cells: Seq<Square>, a: int, b: int)
    requires
        0 <= a <= b <= cells.len(),
    ensures
        count_empty(cells.take(a)) <= count_empty(cells.take(b)),
    decreases b - a,
{
    if a < b {
        lemma_count_empty_take_mono(cells, a + 1, b);
        lemma_count_empty_take_step(cells, a);
    }
}

pub proof fn lemma_empties_in_cols_mono(g: Seq<Seq<Square>>, a: int, b: int)
    requires
        0 <= a <= b,
    ensures
        empties_in_cols(g, a) <= empties_in_cols(g, b),
    decreases b - a,
{
    if a < b {
        lemma_empties_in_cols_mono(g, a, b - 1);
        lemma_count_empty_bounds(g[b - 1]);
    }
}

/// A board with an empty cell somewhere has a free cell to count.
pub proof fn lemma_empty_cell_num_free(b: Board, x: int, y: int)
    requires
        b.wf(),
        0 <= x <= b.max_x,
        0 <= y <= b.max_y,
        b.cell(x, y) is Empty,
    ensures
        b.num_free() >= 1,
{
    lemma_count_empty_at(b.grid_seq()[x], y);
    lemma_empties_in_cols_ge_col(b.grid_seq(), x, b.grid_seq().len() as int);
}

pub proof fn lemma_count_empty_at(cells: Seq<Square>, k: int)
    requires
        0 <= k < cells.len(),
        cells[k] is Empty,
    ensures
        count_empty(cells) >= 1,
    decreases cells.len(),
{
    lemma_count_empty_bounds(cells.skip(1));
    if k > 0 {
        lemma_count_empty_at(cells.skip(1), k - 1);
    }
}

pub proof fn lemma_empties_in_cols_ge_col(g: Seq<Seq<Square>>, x: int, upto: int)
    requires
        0 <= x < upto <= g.len(),
    ensures
        empties_in_cols(g, upto) >= count_empty(g[x]),
    decreases upto,
{
    lemma_count_empty_bounds(g[upto - 1]);
    if x < upto - 1 {
        lemma_empties_in_cols_ge_col(g, x, upto - 1);
    } else {
        lemma_empties_in_cols_nonneg(g, upto - 1);
    }
}

pub proof fn lemma_empties_in_cols_nonneg(g: Seq<Seq<Square>>, upto: int)
    ensures
        empties_in_cols(g, upto) >= 0,
    decreases upto,
{
    if upto > 0 {
        lemma_empties_in_cols_nonneg(g, upto - 1);
        lemma_count_empty_bounds(g[upto - 1]);
    }
}

/// A rectangular grid of `(max_x + 1) x (max_y + 1)` cells, stored as a
/// vector of columns (`grid[x][y]`).
#[derive(Clone, Debug)]
pub struct Board {
    pub max_x: usize,
    pub max_y: usize,
    pub grid: Vec<Vec<Square>>,
}

impl Board {
    /// The grid is rectangular with the extents the board carries.
    pub open spec fn wf(self) -> bool {
        &&& self.grid@.len() == self.max_x + 1
        &&& forall|i: int|
            0 <= i < self.grid@.len() ==> (#[trigger] self.grid@[i])@.len() == self.max_y + 1
        &&& self.max_x < usize::MAX
        &&& self.max_y < usize::MAX
        &&& (self.max_x + 1) * (self.max_y + 1) <= usize::MAX
    }

    /// The grid contents as a sequence of columns.
    pub open spec fn grid_seq(self) -> Seq<Seq<Square>> {
        self.grid@.map_values(|column: Vec<Square>| column@)
    }

    /// The cell at position `(x, y)`.
    pub open spec fn cell(self, x: int, y: int) -> Square {
        self.grid_seq()[x][y]
    }

    /// The cell at a coordinate.
    pub open spec fn cell_at(self, c: Coord) -> Square {
        self.cell(c.x as int, c.y as int)
    }

    /// The coordinate lies on this board and carries this board's extents.
    pub open spec fn valid_coord(self, c: Coord) -> bool {
        c.wf() && c.max_x == self.max_x && c.max_y == self.max_y
    }

    /// Allocate a board with all cells empty.
    pub fn new(size_x: usize, size_y: usize) -> (r: Board)
        requires
            1 <= size_x < usize::MAX,
            1 <= size_y < usize::MAX,
            size_x * size_y <= usize::MAX,
        ensures
            r.wf(),
            r.max_x == size_x - 1,
            r.max_y == size_y - 1,
            forall|x: int, y: int| 0 <= x < size_x && 0 <= y < size_y ==> r.cell(x, y) is Empty,
    {
        Board { max_x: size_x - 1, max_y: size_y - 1, grid: Self::empty_grid(size_x, size_y) }
    }

    /// Bounds-checked coordinate constructor bound to this board's extents.
    pub fn coord(&self, x: usize, y: usize) -> (r: Coord)
        requires
            x <= self.max_x,
            y <= self.max_y,
        ensures
            r == (Coord { x, y, max_x: self.max_x, max_y: self.max_y }),
            self.valid_coord(r),
    {
        Coord::new(x, y, self.max_x, self.max_y)
    }

    pub fn size_x(&self) -> (r: usize)
        requires
            self.wf(),
        ensures
            r == self.max_x + 1,
    {
        self.max_x + 1
    }

    pub fn size_y(&self) -> (r: usize)
        requires
            self.wf(),
        ensures
            r == self.max_y + 1,
    {
        self.max_y + 1
    }

    /// The cell at a coordinate of this board.
    pub fn at(&self, coord: Coord) -> (r: Square)
        requires
            self.wf(),
            self.valid_coord(coord),
        ensures
            r == self.cell(coord.x as int, coord.y as int),
    {
        self.at_xy(coord.x, coord.y)
    }

    pub fn at_xy(&self, x: usize, y: usize) -> (r: Square)
        requires
            self.wf(),
            x <= self.max_x,
            y <= self.max_y,
        ensures
            r == self.cell(x as int, y as int),
    {
        self.grid[x][y]
    }

    /// Replace the cell at a coordinate; every other cell is unchanged.
    pub fn put(&mut self, coord: Coord, square: Square)
        requires
            old(self).wf(),
            old(self).valid_coord(coord),
        ensures
            final(self).wf(),
            final(self).max_x == old(self).max_x,
            final(self).max_y == old(self).max_y,
            final(self).grid_seq() == old(self).grid_seq().update(
                coord.x as int,
                old(self).grid_seq()[coord.x as int].update(coord.y as int, square),
            ),
            final(self).cell(coord.x as int, coord.y as int) == square,
            forall|x: int, y: int|
                0 <= x <= old(self).max_x && 0 <= y <= old(self).max_y && !(x == coord.x && y
                    == coord.y) ==> final(self).cell(x, y) == old(self).cell(x, y),
    {
        let column: &mut Vec<Square> = &mut self.grid[coord.x];
        column[coord.y] = square;
        proof {
            assert(self.grid_seq() =~= old(self).grid_seq().update(
                coord.x as int,
                old(self).grid_seq()[coord.x as int].update(coord.y as int, square),
            ));
        }
    }

    fn empty_grid(size_x: usize, size_y: usize) -> (r: Vec<Vec<Square>>)
        requires
            1 <= size_x,
            1 <= size_y,
        ensures
            r@.len() == size_x,
            forall|i: int| 0 <= i < size_x ==> (#[trigger] r@[i])@.len() == size_y,
            forall|x: int, y: int|
                0 <= x < size_x && 0 <= y < size_y ==> (#[trigger] r@[x]@[y]) is Empty,
    {
        let mut grid: Vec<Vec<Square>> = Vec::new();
        let mut x: usize = 0;
        while x < size_x
            invariant
                x <= size_x,
                grid@.len() == x,
                forall|i: int| 0 <= i < x ==> (#[trigger] grid@[i])@.len() == size_y,
                forall|i: int, j: int|
                    0 <= i < x && 0 <= j < size_y ==> (#[trigger] grid@[i]@[j]) is Empty,
            decreases size_x - x,
        {
            let mut column: Vec<Square> = Vec::new();
            let mut y: usize = 0;
            while y < size_y
                invariant
                    y <= size_y,
                    column@.len() == y,
                    forall|j: int| 0 <= j < y ==> (#[trigger] column@[j]) is Empty,
                decreases size_y - y,
            {
                column.push(Square::Empty);
                y = y + 1;
            }
            grid.push(column);
            x = x + 1;
        }
        grid
    }


    /// The number of empty cells on the board.
    pub open spec fn num_free(self) -> int {
        empties_in_cols(self.grid_seq(), self.grid_seq().len() as int)
    }

    /// How many empty cells precede `(x, y)` in scan order: whole columns
    /// before `x`, then the cells of column `x` below `y`.
    pub open spec fn empties_before(self, x: int, y: int) -> int {
        empties_in_cols(self.grid_seq(), x) + count_empty(self.grid_seq()[x].take(y))
    }

    /// Count the empty cells.
    fn num_free_tiles(&self) -> (r: usize)
        requires
            self.wf(),
        ensures
            r == self.num_free(),
    {
        let ghost g = self.grid_seq();
        let ghost h = self.max_y as int + 1;
        let mut n: usize = 0;
        let mut x: usize = 0;
        while x < self.max_x + 1
            invariant
                self.wf(),
                g == self.grid_seq(),
                h == self.max_y as int + 1,
                x <= self.max_x + 1,
                n == empties_in_cols(g, x as int),
                n <= (x as int) * h,
            decreases self.max_x + 1 - x,
        {
            let mut y: usize = 0;
            proof {
                assert(g[x as int].take(0) =~= Seq::<Square>::empty());
            }
            while y < self.max_y + 1
                invariant
                    self.wf(),
                    g == self.grid_seq(),
                    h == self.max_y as int + 1,
                    x <= self.max_x,
                    y <= self.max_y + 1,
                    n == empties_in_cols(g, x as int) + count_empty(g[x as int].take(y as int)),
                    n <= (x as int) * h + (y as int),
                decreases self.max_y + 1 - y,
            {
                proof {
                    assert((x as int) * h + (y as int) < ((self.max_x as int) + 1) * h)
                        by (nonlinear_arith)
                        requires
                            x as int <= self.max_x as int,
                            y as int <= self.max_y as int,
                            h == self.max_y as int + 1,
                            0 <= x as int,
                            0 <= y as int,
                            0 <= self.max_x as int;
                    lemma_count_empty_take_step(g[x as int], y as int);
                }
                if let Square::Empty = self.at_xy(x, y) {
                    n = n + 1;
                }
                y = y + 1;
            }
            proof {
                assert(g[x as int].take(h) =~= g[x as int]);
                assert(((x as int) + 1) * h == (x as int) * h + h) by (nonlinear_arith);
            }
            x = x + 1;
        }
        n
    }

    /// The coordinate of the `n`-th empty cell in scan order.
    fn find_free_tile(&self, n: usize) -> (r: Coord)
        requires
            self.wf(),
            n < self.num_free(),
        ensures
            self.valid_coord(r),
            self.cell_at(r) is Empty,
            self.empties_before(r.x as int, r.y as int) == n,
    {
        let ghost g = self.grid_seq();
        let mut count: usize = 0;
        let mut x: usize = 0;
        while x < self.max_x + 1
            invariant
                self.wf(),
                g == self.grid_seq(),
                n < self.num_free(),
                x <= self.max_x + 1,
                count == empties_in_cols(g, x as int),
                count <= n,
            decreases self.max_x + 1 - x,
        {
            let mut y: usize = 0;
            proof {
                assert(g[x as int].take(0) =~= Seq::<Square>::empty());
            }
            while y < self.max_y + 1
                invariant
                    self.wf(),
                    g == self.grid_seq(),
                    n < self.num_free(),
                    x <= self.max_x,
                    y <= self.max_y + 1,
                    count == empties_in_cols(g, x as int) + count_empty(
                        g[x as int].take(y as int),
                    ),
                    count <= n,
                decreases self.max_y + 1 - y,
            {
                proof {
                    lemma_count_empty_take_step(g[x as int], y as int);
                }
                if let Square::Empty = self.at_xy(x, y) {
                    if count == n {
                        return self.coord(x, y);
                    }
                    count = count + 1;
                }
                y = y + 1;
            }
            proof {
                assert(g[x as int].take(self.max_y as int + 1) =~= g[x as int]);
            }
            x = x + 1;
        }
        proof {
            // every empty cell was counted, so `n` was within the count
            assert(count == self.num_free());
            assert(false);
        }
        unreached()
    }

    /// Place a tile of value 2 (or 4, on `spawn_four`) on the
    /// `free_index`-th empty cell in scan order. This is the whole of tile
    /// spawning except the random draws themselves, so a fixed pair of draws
    /// replays identically.
    pub fn place_tile(&mut self, free_index: usize, spawn_four: bool) -> (m: Move)
        requires
            old(self).wf(),
            free_index < old(self).num_free(),
        ensures
            final(self).wf(),
            final(self).max_x == old(self).max_x,
            final(self).max_y == old(self).max_y,
            m is Appear,
            (m matches Move::Appear { at, value } ==> {
                &&& old(self).valid_coord(at)
                &&& old(self).cell_at(at) is Empty
                &&& old(self).empties_before(at.x as int, at.y as int) == free_index
                &&& value == spawn_value(spawn_four)
                &&& final(self).cell_at(at) == (Square::Value(value))
                &&& forall|x: int, y: int|
                    0 <= x <= old(self).max_x && 0 <= y <= old(self).max_y && !(x == at.x && y
                        == at.y) ==> final(self).cell(x, y) == old(self).cell(x, y)
            }),
    {
        let at = self.find_free_tile(free_index);
        let value: TileValue = if spawn_four {
            4
        } else {
            2
        };
        self.put(at, Square::Value(value));
        Move::Appear { at, value }
    }

    /// Spawn one tile on a uniformly random empty cell: value 2 with
    /// probability nine in ten, else 4. The caller must make sure the board
    /// has an empty cell.
    pub fn new_tile(&mut self, randomizer: &mut Randomizer) -> (m: Move)
        requires
            old(self).wf(),
            old(self).num_free() >= 1,
        ensures
            final(self).wf(),
            final(self).max_x == old(self).max_x,
            final(self).max_y == old(self).max_y,
            m is Appear,
            (m matches Move::Appear { at, value } ==> {
                &&& old(self).valid_coord(at)
                &&& old(self).cell_at(at) is Empty
                &&& (value == 2 || value == 4)
                &&& final(self).cell_at(at) == (Square::Value(value))
                &&& forall|x: int, y: int|
                    0 <= x <= old(self).max_x && 0 <= y <= old(self).max_y && !(x == at.x && y
                        == at.y) ==> final(self).cell(x, y) == old(self).cell(x, y)
            }),
    {
        let num_free_tiles = self.num_free_tiles();
        let n = randomizer.gen_int_less_than(num_free_tiles);
        let new_value_is_four = randomizer.ten_percent_chance();
        self.place_tile(n, new_value_is_four)
    }

    /// Clear the grid and spawn exactly one starting tile: the sole way a
    /// board re-enters its start state.
    pub fn initialize(&mut self, randomizer: &mut Randomizer) -> (m: Move)
        requires
            old(self).wf(),
        ensures
            final(self).wf(),
            final(self).max_x == old(self).max_x,
            final(self).max_y == old(self).max_y,
            m is Appear,
            (m matches Move::Appear { at, value } ==> {
                &&& final(self).valid_coord(at)
                &&& (value == 2 || value == 4)
                &&& final(self).cell_at(at) == (Square::Value(value))
                &&& forall|x: int, y: int|
                    0 <= x <= final(self).max_x && 0 <= y <= final(self).max_y && !(x == at.x && y
                        == at.y) ==> final(self).cell(x, y) is Empty
            }),
    {
        let size_x = self.max_x + 1;
        let size_y = self.max_y + 1;
        self.grid = Self::empty_grid(size_x, size_y);
        proof {
            lemma_empty_cell_num_free(*self, 0, 0);
        }
        self.new_tile(randomizer)
    }

    /// The number of independent lines a shift in direction `v` scans: one
    /// per row for a horizontal shift, one per column for a vertical one.
    pub open spec fn num_lines(self, v: Vector) -> int {
        if v.dx != 0 {
            self.max_y + 1
        } else {
            self.max_x + 1
        }
    }

    /// The leading-edge start of the `li`-th line for a shift in direction
    /// `v`.
    pub open spec fn line_start(self, v: Vector, li: int) -> Coord {
        if v.dx == 1 {
            Coord { x: 0, y: li as usize, max_x: self.max_x, max_y: self.max_y }
        } else if v.dx == -1 {
            Coord { x: self.max_x, y: li as usize, max_x: self.max_x, max_y: self.max_y }
        } else if v.dy == 1 {
            Coord { x: li as usize, y: 0, max_x: self.max_x, max_y: self.max_y }
        } else {
            Coord { x: li as usize, y: self.max_y, max_x: self.max_x, max_y: self.max_y }
        }
    }

    /// What a shift in direction `v` does to the grid: every line, read from
    /// its leading edge, is replaced by its contracted and merged image.
    pub open spec fn shifted_from(self, pre: Board, v: Vector) -> bool {
        &&& self.max_x == pre.max_x
        &&& self.max_y == pre.max_y
        &&& forall|li: int|
            0 <= li < pre.num_lines(v) ==> line_seq(self, pre.line_start(v, li), v)
                == merged_line(line_seq(pre, #[trigger] pre.line_start(v, li), v))
    }

    /// The whole event log of a shift in direction `v`: the scan logs of the
    /// first `upto` lines, in line order.
    pub open spec fn shift_events(self, v: Vector, upto: int) -> Seq<Move>
        decreases upto,
    {
        if upto <= 0 {
            Seq::empty()
        } else {
            self.shift_events(v, upto - 1) + scan_events(
                line_seq(self, self.line_start(v, upto - 1), v),
                self.line_start(v, upto - 1),
                v,
                0,
                1,
                false,
            )
        }
    }

    /// One directional shift: contract and merge every line toward the
    /// leading edge.
    ///
    /// Returns `None` exactly when nothing could move: the grid is then
    /// unchanged, and `Some` guarantees the grid really changed. The
    /// returned log is exactly [`Board::shift_events`] — every line's scan
    /// log in line order — and the resulting grid keeps at least one empty
    /// cell, so a new tile can be spawned.
    #[verifier::rlimit(60)]
    fn contract_multi(&mut self, direction: Vector) -> (r: Option<Vec<Move>>)
        requires
            old(self).wf(),
            direction.is_unit(),
            direction.dx != 0 ==> old(self).max_x >= 1,
            direction.dy != 0 ==> old(self).max_y >= 1,
        ensures
            final(self).wf(),
            final(self).shifted_from(*old(self), direction),
            r is None ==> final(self).grid_seq() == old(self).grid_seq(),
            r is Some ==> final(self).grid_seq() != old(self).grid_seq(),
            r is Some ==> exists|x: int, y: int|
                0 <= x <= final(self).max_x && 0 <= y <= final(self).max_y && final(self).cell(
                    x,
                    y,
                ) is Empty,
            (r matches Some(moves) ==> moves@ == old(self).shift_events(
                direction,
                old(self).num_lines(direction),
            )),
            (r matches Some(moves) ==> !all_stays(moves@) && no_remerge(moves@) && merges_double(
                moves@,
            ) && forall|i: int| 0 <= i < moves@.len() ==> !((#[trigger] moves@[i]) is Appear)),
    {
        let ghost g0 = *self;
        let num_lines: usize = if direction.dx != 0 {
            self.max_y + 1
        } else {
            self.max_x + 1
        };
        let mut moves: Vec<Move> = Vec::new();
        let mut li: usize = 0;
        while li < num_lines
            invariant
                self.wf(),
                self.max_x == g0.max_x,
                self.max_y == g0.max_y,
                g0.wf(),
                direction.is_unit(),
                direction.dx != 0 ==> g0.max_x >= 1,
                direction.dy != 0 ==> g0.max_y >= 1,
                num_lines == g0.num_lines(direction),
                0 <= li <= num_lines,
                // lines already scanned are merged; the rest are untouched
                forall|j: int|
                    0 <= j < li ==> line_seq(*self, g0.line_start(direction, j), direction)
                        == merged_line(line_seq(g0, #[trigger] g0.line_start(direction, j), direction)),
                forall|x: int, y: int|
                    0 <= x <= g0.max_x && 0 <= y <= g0.max_y && line_index(direction, x, y) >= li
                        ==> self.cell(x, y) == g0.cell(x, y),
                all_stays(moves@) ==> forall|x: int, y: int|
                    0 <= x <= g0.max_x && 0 <= y <= g0.max_y ==> self.cell(x, y) == g0.cell(x, y),
                !all_stays(moves@) ==> exists|x: int, y: int|
                    0 <= x <= g0.max_x && 0 <= y <= g0.max_y && self.cell(x, y) is Empty,
                !all_stays(moves@) ==> exists|x: int, y: int|
                    0 <= x <= g0.max_x && 0 <= y <= g0.max_y && self.cell(x, y) != g0.cell(x, y),
                no_remerge(moves@),
                merges_double(moves@),
                forall|i: int|
                    0 <= i < moves@.len() && (#[trigger] moves@[i]) is Merge ==> line_index(
                        direction,
                        moves@[i]->Merge_to.x as int,
                        moves@[i]->Merge_to.y as int,
                    ) < li,
                forall|i: int| 0 <= i < moves@.len() ==> !((#[trigger] moves@[i]) is Appear),
                moves@ == g0.shift_events(direction, li as int),
            decreases num_lines - li,
        {
            let start = if direction.dx == 1 {
                self.coord(0, li)
            } else if direction.dx == -1 {
                let edge = self.max_x;
                self.coord(edge, li)
            } else if direction.dy == 1 {
                self.coord(li, 0)
            } else {
                let edge = self.max_y;
                self.coord(li, edge)
            };
            proof {
                assert(start == g0.line_start(direction, li as int));
                assert(start.can_step(direction));
            }
            let cursor = DualCursor::new(start, direction);
            let ghost pre = *self;
            let merger = Merger::new(cursor);
            let mut line_moves = merger.merge(self);
            proof {
                let d = direction;
                let lii = li as int;
                // the line this scan rewrote is the line it was asked for,
                // and the scan left every other line alone
                assert(line_seq(pre, start, d) =~= line_seq(g0, start, d));
                assert forall|j: int| 0 <= j < lii implies line_seq(
                    *self,
                    g0.line_start(d, j),
                    d,
                ) == merged_line(line_seq(g0, #[trigger] g0.line_start(d, j), d)) by {
                    assert(line_seq(*self, g0.line_start(d, j), d) =~= line_seq(
                        pre,
                        g0.line_start(d, j),
                        d,
                    ));
                }
                // event-log bookkeeping across lines
                assert forall|x: int, y: int| on_line(start, d, x, y) implies line_index(d, x, y)
                    == lii by {}
                lemma_log_append(moves@, line_moves@, d, start, lii);
                lemma_all_stays_append(moves@, line_moves@);
                // this line's scan log is the one the whole-shift log expects
                assert(line_moves@ == scan_events(line_seq(g0, start, d), start, d, 0, 1, false));
                assert(g0.shift_events(d, lii + 1) == g0.shift_events(d, lii) + line_moves@);
                // if still nothing but stays, every cell still equals its
                // original: scanned-line cells via the line view, the rest
                // via the frame
                if all_stays(moves@ + line_moves@) {
                    assert forall|x: int, y: int|
                        0 <= x <= g0.max_x && 0 <= y <= g0.max_y implies self.cell(x, y)
                        == g0.cell(x, y) by {
                        if on_line(start, d, x, y) {
                            let k = crate::merger::pos_on_line(start, d, x, y);
                            assert(line_x(start, d, k) == x && line_y(start, d, k) == y);
                            assert(0 <= k < run_len(start, d));
                            assert(line_seq(*self, start, d)[k] == line_seq(pre, start, d)[k]);
                        } else {
                            assert(self.cell(x, y) == pre.cell(x, y));
                        }
                    }
                }
                // an empty cell survives, or appears with the first real move
                if !all_stays(moves@ + line_moves@) {
                    if !all_stays(moves@) {
                        let (x0, y0) = choose|x0: int, y0: int|
                            0 <= x0 <= g0.max_x && 0 <= y0 <= g0.max_y && pre.cell(x0, y0) is Empty;
                        if on_line(start, d, x0, y0) {
                            let k = crate::merger::pos_on_line(start, d, x0, y0);
                            assert(line_seq(pre, start, d)[k] is Empty);
                            lemma_empty_cell_fewer_values(line_seq(pre, start, d), k);
                            lemma_line_values_len(line_seq(pre, start, d));
                            lemma_merge_values_len(line_values(line_seq(pre, start, d)));
                            lemma_line_values_padded(
                                merge_values(line_values(line_seq(pre, start, d))),
                                run_len(start, d),
                            );
                            let ke = lemma_fewer_values_empty_cell(line_seq(*self, start, d));
                            assert(self.cell(line_x(start, d, ke), line_y(start, d, ke)) is Empty);
                        } else {
                            assert(self.cell(x0, y0) is Empty);
                        }
                    } else {
                        let ke = lemma_fewer_values_empty_cell(line_seq(*self, start, d));
                        assert(self.cell(line_x(start, d, ke), line_y(start, d, ke)) is Empty);
                    }
                }
                // a changed cell survives, or appears with the first real
                // move: a real move always changes its line
                if !all_stays(moves@ + line_moves@) {
                    if !all_stays(moves@) {
                        let (x0, y0) = choose|x0: int, y0: int|
                            0 <= x0 <= g0.max_x && 0 <= y0 <= g0.max_y && pre.cell(x0, y0)
                                != g0.cell(x0, y0);
                        if on_line(start, d, x0, y0) {
                            // changed cells lie on already-scanned lines,
                            // which this scan leaves alone
                            assert(pre.cell(x0, y0) == g0.cell(x0, y0));
                            assert(false);
                        }
                        assert(self.cell(x0, y0) != g0.cell(x0, y0));
                    } else {
                        assert(line_seq(*self, start, d) != line_seq(pre, start, d));
                        if forall|k: int|
                            0 <= k < run_len(start, d) ==> line_seq(*self, start, d)[k]
                                == line_seq(pre, start, d)[k] {
                            assert(line_seq(*self, start, d) =~= line_seq(pre, start, d));
                            assert(false);
                        }
                        let kd = choose|kd: int|
                            0 <= kd < run_len(start, d) && line_seq(*self, start, d)[kd]
                                != line_seq(pre, start, d)[kd];
                        assert(self.cell(line_x(start, d, kd), line_y(start, d, kd)) != g0.cell(
                            line_x(start, d, kd),
                            line_y(start, d, kd),
                        ));
                        assert(0 <= line_x(start, d, kd) <= g0.max_x);
                        assert(0 <= line_y(start, d, kd) <= g0.max_y);
                    }
                }
            }
            moves.append(&mut line_moves);
            li = li + 1;
        }
        // report a move only if something really moved or merged
        let mut any_real: bool = false;
        let mut i: usize = 0;
        while i < moves.len()
            invariant
                i <= moves.len(),
                !any_real ==> forall|j: int| 0 <= j < i ==> moves@[j] is Stay,
                any_real ==> !all_stays(moves@),
            decreases moves.len() - i,
        {
            match moves[i] {
                Move::Stay { .. } => {},
                _ => {
                    any_real = true;
                },
            }
            i = i + 1;
        }
        proof {
            if any_real {
                let (x0, y0) = choose|x0: int, y0: int|
                    0 <= x0 <= g0.max_x && 0 <= y0 <= g0.max_y && self.cell(x0, y0) != g0.cell(
                        x0,
                        y0,
                    );
                if self.grid_seq() == g0.grid_seq() {
                    assert(self.cell(x0, y0) == g0.cell(x0, y0));
                    assert(false);
                }
            }
            if !any_real {
                assert(all_stays(moves@));
                assert forall|x: int| 0 <= x < self.grid_seq().len() implies self.grid_seq()[x]
                    == g0.grid_seq()[x] by {
                    assert(self.grid_seq()[x].len() == g0.max_y + 1);
                    assert(g0.grid_seq()[x].len() == g0.max_y + 1);
                    assert forall|y: int| 0 <= y < self.grid_seq()[x].len() implies self.grid_seq(
                    )[x][y] == g0.grid_seq()[x][y] by {
                        assert(self.cell(x, y) == g0.cell(x, y));
                    }
                    assert(self.grid_seq()[x] =~= g0.grid_seq()[x]);
                }
                assert(self.grid_seq() =~= g0.grid_seq());
            }
        }
        if any_real {
            Some(moves)
        } else {
            None
        }
    }

    /// Shift every tile as far as possible toward `x == 0`, merging equal
    /// neighbours once each.
    pub fn shift_left(&mut self) -> (r: Option<Vec<Move>>)
        requires
            old(self).wf(),
            old(self).max_x >= 1,
        ensures
            final(self).wf(),
            final(self).shifted_from(*old(self), (Vector { dx: 1, dy: 0 })),
            (r matches Some(moves) ==> moves@ == old(self).shift_events(
                (Vector { dx: 1, dy: 0 }),
                old(self).num_lines((Vector { dx: 1, dy: 0 })),
            )),
            r is None ==> final(self).grid_seq() == old(self).grid_seq(),
            r is Some ==> final(self).grid_seq() != old(self).grid_seq(),
            r is Some ==> exists|x: int, y: int|
                0 <= x <= final(self).max_x && 0 <= y <= final(self).max_y && final(self).cell(
                    x,
                    y,
                ) is Empty,
            (r matches Some(moves) ==> !all_stays(moves@) && no_remerge(moves@) && merges_double(
                moves@,
            ) && forall|i: int| 0 <= i < moves@.len() ==> !((#[trigger] moves@[i]) is Appear)),
    {
        self.contract_multi(Vector::new(1, 0))
    }

    /// Shift every tile as far as possible toward `x == max_x`.
    pub fn shift_right(&mut self) -> (r: Option<Vec<Move>>)
        requires
            old(self).wf(),
            old(self).max_x >= 1,
        ensures
            final(self).wf(),
            final(self).shifted_from(*old(self), (Vector { dx: -1isize, dy: 0isize })),
            (r matches Some(moves) ==> moves@ == old(self).shift_events(
                (Vector { dx: -1isize, dy: 0isize }),
                old(self).num_lines((Vector { dx: -1isize, dy: 0isize })),
            )),
            r is None ==> final(self).grid_seq() == old(self).grid_seq(),
            r is Some ==> final(self).grid_seq() != old(self).grid_seq(),
            r is Some ==> exists|x: int, y: int|
                0 <= x <= final(self).max_x && 0 <= y <= final(self).max_y && final(self).cell(
                    x,
                    y,
                ) is Empty,
            (r matches Some(moves) ==> !all_stays(moves@) && no_remerge(moves@) && merges_double(
                moves@,
            ) && forall|i: int| 0 <= i < moves@.len() ==> !((#[trigger] moves@[i]) is Appear)),
    {
        self.contract_multi(Vector::new(-1, 0))
    }

    /// Shift every tile as far as possible toward `y == 0`.
    pub fn shift_up(&mut self) -> (r: Option<Vec<Move>>)
        requires
            old(self).wf(),
            old(self).max_y >= 1,
        ensures
            final(self).wf(),
            final(self).shifted_from(*old(self), (Vector { dx: 0, dy: 1 })),
            (r matches Some(moves) ==> moves@ == old(self).shift_events(
                (Vector { dx: 0, dy: 1 }),
                old(self).num_lines((Vector { dx: 0, dy: 1 })),
            )),
            r is None ==> final(self).grid_seq() == old(self).grid_seq(),
            r is Some ==> final(self).grid_seq() != old(self).grid_seq(),
            r is Some ==> exists|x: int, y: int|
                0 <= x <= final(self).max_x && 0 <= y <= final(self).max_y && final(self).cell(
                    x,
                    y,
                ) is Empty,
            (r matches Some(moves) ==> !all_stays(moves@) && no_remerge(moves@) && merges_double(
                moves@,
            ) && forall|i: int| 0 <= i < moves@.len() ==> !((#[trigger] moves@[i]) is Appear)),
    {
        self.contract_multi(Vector::new(0, 1))
    }

    /// Shift every tile as far as possible toward `y == max_y`.
    pub fn shift_down(&mut self) -> (r: Option<Vec<Move>>)
        requires
            old(self).wf(),
            old(self).max_y >= 1,
        ensures
            final(self).wf(),
            final(self).shifted_from(*old(self), (Vector { dx: 0isize, dy: -1isize })),
            (r matches Some(moves) ==> moves@ == old(self).shift_events(
                (Vector { dx: 0isize, dy: -1isize }),
                old(self).num_lines((Vector { dx: 0isize, dy: -1isize })),
            )),
            r is None ==> final(self).grid_seq() == old(self).grid_seq(),
            r is Some ==> final(self).grid_seq() != old(self).grid_seq(),
            r is Some ==> exists|x: int, y: int|
                0 <= x <= final(self).max_x && 0 <= y <= final(self).max_y && final(self).cell(
                    x,
                    y,
                ) is Empty,
            (r matches Some(moves) ==> !all_stays(moves@) && no_remerge(moves@) && merges_double(
                moves@,
            ) && forall|i: int| 0 <= i < moves@.len() ==> !((#[trigger] moves@[i]) is Appear)),
    {
        self.contract_multi(Vector::new(0, -1))
    }
}

} // verus!


