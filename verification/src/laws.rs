//! The global laws of the board transition engine, stated and proved once:
//! mass conservation across a shift, and determinism of the transition given
//! the random draws.

use vstd::prelude::*;

use crate::board::{
    count_empty, empties_in_cols, lemma_count_empty_bounds, lemma_count_empty_take_mono,
    lemma_count_empty_take_step, lemma_empties_in_cols_mono, Board,
};
use crate::coord::Vector;
use crate::merger::{
    lemma_merged_line_sum, lemma_values_sum_push_front, line_index, line_seq, line_sum,
    line_values, line_x, line_y, merged_line, pos_on_line, run_len,
};
use crate::Square;

verus! {

/// The value of one cell, an empty cell counting as zero.
pub open spec fn square_value(sq: Square) -> int {
    match sq {
        Square::Empty => 0,
        Square::Value(v) => v as int,
    }
}

/// The sum of the first `upto` cell values of a line.
pub open spec fn cells_sum_upto(cells: Seq<Square>, upto: int) -> int
    decreases upto,
{
    if upto <= 0 {
        0
    } else {
        cells_sum_upto(cells, upto - 1) + square_value(cells[upto - 1])
    }
}

/// The total value in the first `upto` columns of a grid of height `h`.
pub open spec fn grid_sum_upto(g: Seq<Seq<Square>>, h: int, upto: int) -> int
    decreases upto,
{
    if upto <= 0 {
        0
    } else {
        grid_sum_upto(g, h, upto - 1) + cells_sum_upto(g[upto - 1], h)
    }
}

/// The total tile mass of a board.
pub open spec fn board_sum(b: Board) -> int {
    grid_sum_upto(b.grid_seq(), b.max_y + 1, b.max_x + 1)
}

/// The sum of the values along the first `upto` cells of a scan line.
pub open spec fn line_cells_sum(b: Board, start: crate::coord::Coord, v: Vector, upto: int) -> int {
    cells_sum_upto(line_seq(b, start, v), upto)
}

/// Peel the first cell off a prefix sum.
proof fn lemma_cells_sum_skip(cells: Seq<Square>, upto: int)
    requires
        1 <= upto <= cells.len(),
    ensures
        cells_sum_upto(cells, upto) == square_value(cells[0]) + cells_sum_upto(
            cells.skip(1),
            upto - 1,
        ),
    decreases upto,
{
    if upto > 1 {
        lemma_cells_sum_skip(cells, upto - 1);
        assert(cells.skip(1)[upto - 2] == cells[upto - 1]);
    } else {
        assert(cells_sum_upto(cells, 0) == 0);
        assert(cells_sum_upto(cells.skip(1), 0) == 0);
    }
}

/// The compacted tile values of a line carry exactly its cell-value total.
proof fn lemma_line_sum_is_cells_sum(cells: Seq<Square>)
    ensures
        line_sum(cells) == cells_sum_upto(cells, cells.len() as int),
    decreases cells.len(),
{
    if cells.len() > 0 {
        lemma_line_sum_is_cells_sum(cells.skip(1));
        lemma_cells_sum_skip(cells, cells.len() as int);
        match cells[0] {
            Square::Empty => {},
            Square::Value(v) => {
                lemma_values_sum_push_front(v, line_values(cells.skip(1)));
            },
        }
    }
}

/// Mass conservation, line by line: after a shift, every scan line carries
/// the same total tile value it did before — each merged pair was replaced
/// by its sum, and nothing else changed a value.
pub proof fn lemma_shift_conserves_line_mass(pre: Board, post: Board, v: Vector)
    requires
        pre.wf(),
        v.is_unit(),
        post.shifted_from(pre, v),
    ensures
        forall|li: int|
            0 <= li < pre.num_lines(v) ==> line_sum(
                line_seq(post, #[trigger] pre.line_start(v, li), v),
            ) == line_sum(line_seq(pre, pre.line_start(v, li), v)),
{
    assert forall|li: int| 0 <= li < pre.num_lines(v) implies line_sum(
        line_seq(post, #[trigger] pre.line_start(v, li), v),
    ) == line_sum(line_seq(pre, pre.line_start(v, li), v)) by {
        lemma_merged_line_sum(line_seq(pre, pre.line_start(v, li), v));
    }
}

/// The running total of the first `upto_y` rows over the first `upto_x`
/// columns.
spec fn rows_sum_upto(g: Seq<Seq<Square>>, upto_y: int, upto_x: int) -> int
    decreases upto_y,
{
    if upto_y <= 0 {
        0
    } else {
        rows_sum_upto(g, upto_y - 1, upto_x) + row_sum_upto(g, upto_y - 1, upto_x)
    }
}

/// The sum of row `y` over the first `upto_x` columns.
spec fn row_sum_upto(g: Seq<Seq<Square>>, y: int, upto_x: int) -> int
    decreases upto_x,
{
    if upto_x <= 0 {
        0
    } else {
        row_sum_upto(g, y, upto_x - 1) + square_value(g[upto_x - 1][y])
    }
}

/// Summing a grid by columns and by rows gives the same total.
proof fn lemma_rows_sum_step(g: Seq<Seq<Square>>, upto_y: int, upto_x: int)
    requires
        upto_x >= 1,
    ensures
        rows_sum_upto(g, upto_y, upto_x) == rows_sum_upto(g, upto_y, upto_x - 1) + cells_sum_upto(
            g[upto_x - 1],
            upto_y,
        ),
    decreases upto_y,
{
    if upto_y > 0 {
        lemma_rows_sum_step(g, upto_y - 1, upto_x);
    }
}

proof fn lemma_rows_sum_zero(g: Seq<Seq<Square>>, upto_y: int)
    ensures
        rows_sum_upto(g, upto_y, 0) == 0,
    decreases upto_y,
{
    if upto_y > 0 {
        lemma_rows_sum_zero(g, upto_y - 1);
    }
}

proof fn lemma_grid_sum_by_rows(g: Seq<Seq<Square>>, h: int, upto_x: int)
    requires
        0 <= upto_x,
    ensures
        grid_sum_upto(g, h, upto_x) == rows_sum_upto(g, h, upto_x),
    decreases upto_x,
{
    if upto_x > 0 {
        lemma_grid_sum_by_rows(g, h, upto_x - 1);
        lemma_rows_sum_step(g, h, upto_x);
        assert(grid_sum_upto(g, h, upto_x) == grid_sum_upto(g, h, upto_x - 1) + cells_sum_upto(
            g[upto_x - 1],
            h,
        ));
        assert(rows_sum_upto(g, h, upto_x) == rows_sum_upto(g, h, upto_x - 1) + cells_sum_upto(
            g[upto_x - 1],
            h,
        ));
    } else {
        lemma_rows_sum_zero(g, h);
    }
}

/// A scan line's cell-value sum equals the corresponding column or row sum
/// of the grid, whichever way and direction the line runs.
proof fn lemma_line_sum_matches_grid(b: Board, v: Vector, li: int, upto: int)
    requires
        b.wf(),
        v.is_unit(),
        0 <= li < b.num_lines(v),
        0 <= upto <= run_len(b.line_start(v, li), v),
    ensures
        v.dx != 0 ==> line_cells_sum(b, b.line_start(v, li), v, upto) == if v.dx == 1 {
            row_sum_upto(b.grid_seq(), li, upto)
        } else {
            row_sum_upto(b.grid_seq(), li, b.max_x + 1) - row_sum_upto(
                b.grid_seq(),
                li,
                b.max_x + 1 - upto,
            )
        },
        v.dx == 0 ==> line_cells_sum(b, b.line_start(v, li), v, upto) == if v.dy == 1 {
            cells_sum_upto(b.grid_seq()[li], upto)
        } else {
            cells_sum_upto(b.grid_seq()[li], b.max_y + 1) - cells_sum_upto(
                b.grid_seq()[li],
                b.max_y + 1 - upto,
            )
        },
    decreases upto,
{
    if upto > 0 {
        lemma_line_sum_matches_grid(b, v, li, upto - 1);
        let start = b.line_start(v, li);
        let line = line_seq(b, start, v);
        assert(line[upto - 1] == b.cell(line_x(start, v, upto - 1), line_y(start, v, upto - 1)));
    }
}

/// Mass conservation for the whole board: a shift never changes the total
/// tile value — each merged pair of equal tiles is replaced by one tile
/// carrying their sum.
pub proof fn lemma_shift_conserves_mass(pre: Board, post: Board, v: Vector)
    requires
        pre.wf(),
        post.wf(),
        v.is_unit(),
        post.shifted_from(pre, v),
    ensures
        board_sum(post) == board_sum(pre),
{
    let gpre = pre.grid_seq();
    let gpost = post.grid_seq();
    let h = pre.max_y as int + 1;
    let w = pre.max_x as int + 1;
    if v.dx != 0 {
        lemma_grid_sum_by_rows(gpre, h, w);
        lemma_grid_sum_by_rows(gpost, h, w);
        assert forall|li: int| 0 <= li < h implies row_sum_upto(gpost, li, w) == row_sum_upto(
            gpre,
            li,
            w,
        ) by {
            let start = pre.line_start(v, li);
            assert(line_seq(post, start, v) == merged_line(line_seq(pre, start, v)));
            lemma_merged_line_sum(line_seq(pre, start, v));
            lemma_line_sum_is_cells_sum(line_seq(post, start, v));
            lemma_line_sum_is_cells_sum(line_seq(pre, start, v));
            lemma_line_sum_matches_grid(pre, v, li, run_len(start, v));
            assert(post.line_start(v, li) == start);
            lemma_line_sum_matches_grid(post, v, li, run_len(start, v));
            assert(row_sum_upto(gpre, li, 0) == 0);
            assert(row_sum_upto(gpost, li, 0) == 0);
        }
        lemma_rows_sums_equal(gpre, gpost, h, w);
    } else {
        assert forall|li: int| 0 <= li < w implies cells_sum_upto(gpost[li], h) == cells_sum_upto(
            gpre[li],
            h,
        ) by {
            let start = pre.line_start(v, li);
            assert(line_seq(post, start, v) == merged_line(line_seq(pre, start, v)));
            lemma_merged_line_sum(line_seq(pre, start, v));
            lemma_line_sum_is_cells_sum(line_seq(post, start, v));
            lemma_line_sum_is_cells_sum(line_seq(pre, start, v));
            lemma_line_sum_matches_grid(pre, v, li, run_len(start, v));
            assert(post.line_start(v, li) == start);
            lemma_line_sum_matches_grid(post, v, li, run_len(start, v));
            assert(cells_sum_upto(gpre[li], 0) == 0);
            assert(cells_sum_upto(gpost[li], 0) == 0);
        }
        lemma_col_sums_equal(gpre, gpost, h, w);
    }
}

proof fn lemma_rows_sums_equal(g1: Seq<Seq<Square>>, g2: Seq<Seq<Square>>, upto_y: int, w: int)
    requires
        forall|y: int| 0 <= y < upto_y ==> row_sum_upto(g2, y, w) == row_sum_upto(g1, y, w),
    ensures
        rows_sum_upto(g2, upto_y, w) == rows_sum_upto(g1, upto_y, w),
    decreases upto_y,
{
    if upto_y > 0 {
        lemma_rows_sums_equal(g1, g2, upto_y - 1, w);
    }
}

proof fn lemma_col_sums_equal(g1: Seq<Seq<Square>>, g2: Seq<Seq<Square>>, h: int, upto_x: int)
    requires
        forall|x: int| 0 <= x < upto_x ==> cells_sum_upto(g2[x], h) == cells_sum_upto(g1[x], h),
    ensures
        grid_sum_upto(g2, h, upto_x) == grid_sum_upto(g1, h, upto_x),
    decreases upto_x,
{
    if upto_x > 0 {
        lemma_col_sums_equal(g1, g2, h, upto_x - 1);
    }
}

/// Determinism of the shift: two boards holding the same grid, shifted in
/// the same direction, end up holding the same grid. With the spawn draws
/// fixed too (see `Board::place_tile`), the whole transition replays
/// identically.
pub proof fn lemma_shift_deterministic(pre1: Board, post1: Board, pre2: Board, post2: Board, v: Vector)
    requires
        pre1.wf(),
        pre2.wf(),
        post1.wf(),
        post2.wf(),
        v.is_unit(),
        pre1.max_x == pre2.max_x,
        pre1.max_y == pre2.max_y,
        pre1.grid_seq() == pre2.grid_seq(),
        post1.shifted_from(pre1, v),
        post2.shifted_from(pre2, v),
    ensures
        post1.grid_seq() == post2.grid_seq(),
{
    assert forall|x: int| 0 <= x < post1.grid_seq().len() implies post1.grid_seq()[x]
        == post2.grid_seq()[x] by {
        assert forall|y: int| 0 <= y < post1.grid_seq()[x].len() implies post1.grid_seq()[x][y]
            == post2.grid_seq()[x][y] by {
            let li = line_index(v, x, y);
            let start = pre1.line_start(v, li);
            let k = pos_on_line(start, v, x, y);
            assert(line_x(start, v, k) == x && line_y(start, v, k) == y);
            assert(0 <= k < run_len(start, v));
            assert(line_seq(pre1, start, v) =~= line_seq(pre2, pre2.line_start(v, li), v));
            assert(post1.cell(x, y) == line_seq(post1, start, v)[k]);
            assert(post2.cell(x, y) == line_seq(post2, pre2.line_start(v, li), v)[k]);
        }
        assert(post1.grid_seq()[x] =~= post2.grid_seq()[x]);
    }
    assert(post1.grid_seq() =~= post2.grid_seq());
}

/// Determinism of the event log: the whole log of a shift is a function of
/// the grid being shifted, so two boards holding the same grid produce the
/// same log, event for event.
pub proof fn lemma_shift_log_deterministic(pre1: Board, pre2: Board, v: Vector, upto: int)
    requires
        pre1.wf(),
        pre2.wf(),
        v.is_unit(),
        pre1.max_x == pre2.max_x,
        pre1.max_y == pre2.max_y,
        pre1.grid_seq() == pre2.grid_seq(),
    ensures
        pre1.shift_events(v, upto) == pre2.shift_events(v, upto),
    decreases upto,
{
    if upto > 0 {
        lemma_shift_log_deterministic(pre1, pre2, v, upto - 1);
        assert(pre1.line_start(v, upto - 1) == pre2.line_start(v, upto - 1));
        assert(line_seq(pre1, pre1.line_start(v, upto - 1), v) =~= line_seq(
            pre2,
            pre1.line_start(v, upto - 1),
            v,
        ));
    }
}

/// Determinism of the spawn: the "`n`-th empty cell in scan order" is
/// unique, so a fixed draw always places the new tile on the same cell.
pub proof fn lemma_nth_free_cell_unique(b: Board, x1: int, y1: int, x2: int, y2: int)
    requires
        b.wf(),
        0 <= x1 <= b.max_x,
        0 <= y1 <= b.max_y,
        0 <= x2 <= b.max_x,
        0 <= y2 <= b.max_y,
        b.cell(x1, y1) is Empty,
        b.cell(x2, y2) is Empty,
        b.empties_before(x1, y1) == b.empties_before(x2, y2),
    ensures
        x1 == x2 && y1 == y2,
{
    if x1 == x2 && y1 == y2 {
    } else if x1 < x2 || (x1 == x2 && y1 < y2) {
        lemma_scan_order_strict(b, x1, y1, x2, y2);
    } else {
        lemma_scan_order_strict(b, x2, y2, x1, y1);
    }
}

/// Crossing an empty cell strictly increases the count of empties before a
/// position.
proof fn lemma_scan_order_strict(b: Board, x1: int, y1: int, x2: int, y2: int)
    requires
        b.wf(),
        0 <= x1 <= b.max_x,
        0 <= y1 <= b.max_y,
        0 <= x2 <= b.max_x,
        0 <= y2 <= b.max_y,
        b.cell(x1, y1) is Empty,
        x1 < x2 || (x1 == x2 && y1 < y2),
    ensures
        b.empties_before(x1, y1) < b.empties_before(x2, y2),
{
    let g = b.grid_seq();
    let col1 = g[x1];
    lemma_count_empty_take_step(col1, y1);
    if x1 == x2 {
        lemma_count_empty_take_mono(col1, y1 + 1, y2);
    } else {
        assert(col1.take(col1.len() as int) =~= col1);
        lemma_count_empty_take_mono(col1, y1 + 1, col1.len() as int);
        lemma_empties_in_cols_step_ge(g, x1, x2);
        lemma_count_empty_bounds(g[x2].take(y2));
    }
}

/// The empties in the first `x2` columns include all of column `x1`'s.
proof fn lemma_empties_in_cols_step_ge(g: Seq<Seq<Square>>, x1: int, x2: int)
    requires
        0 <= x1 < x2,
    ensures
        empties_in_cols(g, x2) >= empties_in_cols(g, x1) + count_empty(g[x1]),
{
    lemma_empties_in_cols_mono(g, x1 + 1, x2);
}

} // verus!
