//! The line merger: the single-pass contraction/merge scan over one line of
//! the grid, and its functional specification.
//!
//! The scan slides every tile of the line as far as possible toward the
//! leading edge, collapsing equal-valued neighbours exactly once each, in one
//! pass with constant auxiliary state. Its result is proved equal to
//! [`merged_line`]: the line's tile values are read off in order
//! ([`line_values`]), adjacent equal pairs are summed left to right with no
//! result taking part in a second merge ([`merge_values`]), and the values
//! are packed at the leading edge ([`padded`]).

use vstd::prelude::*;

use crate::board::Board;
use crate::coord::{Coord, Vector};
use crate::cursor::{same_pos, DualCursor};
use crate::moves::{all_stays, Move};
use crate::{Square, TileValue};

verus! {

/// The tile values of a line, in scan order, with empty cells skipped.
pub open spec fn line_values(line: Seq<Square>) -> Seq<TileValue>
    decreases line.len(),
{
    if line.len() == 0 {
        Seq::empty()
    } else {
        match line[0] {
            Square::Empty => line_values(line.skip(1)),
            Square::Value(v) => seq![v] + line_values(line.skip(1)),
        }
    }
}

/// Collapse adjacent equal values pairwise, left to right. A merged result
/// never takes part in a second merge. Two equal tiles combine only while
/// the doubled value still fits in [`TileValue`].
pub open spec fn merge_values(vals: Seq<TileValue>) -> Seq<TileValue>
    decreases vals.len(),
{
    if vals.len() < 2 {
        vals
    } else if vals[0] == vals[1] && vals[0] + vals[1] <= TileValue::MAX {
        seq![(vals[0] + vals[1]) as TileValue] + merge_values(vals.skip(2))
    } else {
        seq![vals[0]] + merge_values(vals.skip(1))
    }
}

/// The values packed at the leading edge of a line of length `len`, the rest
/// empty.
pub open spec fn padded(vals: Seq<TileValue>, len: int) -> Seq<Square> {
    Seq::new(
        len as nat,
        |k: int| if k < vals.len() { Square::Value(vals[k]) } else { Square::Empty },
    )
}

/// What one contraction/merge scan makes of a line.
pub open spec fn merged_line(line: Seq<Square>) -> Seq<Square> {
    padded(merge_values(line_values(line)), line.len() as int)
}

/// A line holds at most as many tiles as cells.
pub proof fn lemma_line_values_len(line: Seq<Square>)
    ensures
        line_values(line).len() <= line.len(),
    decreases line.len(),
{
    if line.len() > 0 {
        lemma_line_values_len(line.skip(1));
    }
}

/// Merging never lengthens a value sequence.
pub proof fn lemma_merge_values_len(vals: Seq<TileValue>)
    ensures
        merge_values(vals).len() <= vals.len(),
        vals.len() > 0 ==> merge_values(vals).len() >= 1,
    decreases vals.len(),
{
    if vals.len() < 2 {
    } else if vals[0] == vals[1] && vals[0] + vals[1] <= TileValue::MAX {
        lemma_merge_values_len(vals.skip(2));
    } else {
        lemma_merge_values_len(vals.skip(1));
    }
}

/// The total of a sequence of tile values.
pub open spec fn values_sum(vals: Seq<TileValue>) -> int
    decreases vals.len(),
{
    if vals.len() == 0 {
        0
    } else {
        vals[0] + values_sum(vals.skip(1))
    }
}

/// The total tile mass of a line.
pub open spec fn line_sum(line: Seq<Square>) -> int {
    values_sum(line_values(line))
}

pub proof fn lemma_values_sum_push_front(v: TileValue, vals: Seq<TileValue>)
    ensures
        values_sum(seq![v] + vals) == v + values_sum(vals),
{
    assert((seq![v] + vals).skip(1) =~= vals);
}

/// Merging conserves the total value: each merged pair is replaced by its
/// sum.
pub proof fn lemma_merge_values_sum(vals: Seq<TileValue>)
    ensures
        values_sum(merge_values(vals)) == values_sum(vals),
    decreases vals.len(),
{
    if vals.len() < 2 {
    } else if vals[0] == vals[1] && vals[0] + vals[1] <= TileValue::MAX {
        let rest = vals.skip(2);
        lemma_merge_values_sum(rest);
        lemma_values_sum_push_front((vals[0] + vals[1]) as TileValue, merge_values(rest));
        lemma_values_sum_push_front(vals[0], vals.skip(1));
        lemma_values_sum_push_front(vals[1], rest);
        assert(vals.skip(1) =~= seq![vals[1]] + rest);
        assert(vals =~= seq![vals[0]] + vals.skip(1));
    } else {
        let rest = vals.skip(1);
        lemma_merge_values_sum(rest);
        lemma_values_sum_push_front(vals[0], rest);
        lemma_values_sum_push_front(vals[0], merge_values(rest));
        assert(vals =~= seq![vals[0]] + rest);
    }
}

/// A line's tiles and a padded line's values are the same thing.
pub proof fn lemma_line_values_padded(vals: Seq<TileValue>, len: int)
    requires
        vals.len() <= len,
    ensures
        line_values(padded(vals, len)) == vals,
    decreases len,
{
    let line = padded(vals, len);
    if len > 0 {
        if vals.len() > 0 {
            lemma_line_values_padded(vals.skip(1), len - 1);
            assert(line.skip(1) =~= padded(vals.skip(1), len - 1));
            assert(line_values(line) =~= vals);
        } else {
            lemma_line_values_padded(vals, len - 1);
            assert(line.skip(1) =~= padded(vals, len - 1));
        }
    } else {
        assert(line_values(line) =~= vals);
    }
}

/// The sum of a line is the sum of its merged image.
pub proof fn lemma_merged_line_sum(line: Seq<Square>)
    ensures
        line_sum(merged_line(line)) == line_sum(line),
{
    lemma_line_values_len(line);
    lemma_merge_values_len(line_values(line));
    lemma_line_values_padded(merge_values(line_values(line)), line.len() as int);
    lemma_merge_values_sum(line_values(line));
}

/// Number of cells from `c` (inclusive) to the grid edge in direction `v`.
pub open spec fn run_len(c: Coord, v: Vector) -> int {
    if v.dx == 1 {
        c.max_x - c.x + 1
    } else if v.dx == -1 {
        c.x + 1
    } else if v.dy == 1 {
        c.max_y - c.y + 1
    } else {
        c.y + 1
    }
}

/// The x coordinate `k` steps from `c` in direction `v`.
pub open spec fn line_x(c: Coord, v: Vector, k: int) -> int {
    if v.dx == 1 {
        c.x + k
    } else if v.dx == -1 {
        c.x - k
    } else {
        c.x as int
    }
}

/// The y coordinate `k` steps from `c` in direction `v`.
pub open spec fn line_y(c: Coord, v: Vector, k: int) -> int {
    if v.dy == 1 {
        c.y + k
    } else if v.dy == -1 {
        c.y - k
    } else {
        c.y as int
    }
}

/// Position `(x, y)` lies on the line from `c` to the edge in direction `v`.
pub open spec fn on_line(c: Coord, v: Vector, x: int, y: int) -> bool {
    if v.dx == 1 {
        y == c.y && c.x <= x <= c.max_x
    } else if v.dx == -1 {
        y == c.y && 0 <= x <= c.x
    } else if v.dy == 1 {
        x == c.x && c.y <= y <= c.max_y
    } else {
        x == c.x && 0 <= y <= c.y
    }
}

/// How many steps from `c` the position `(x, y)` lies, along direction `v`.
pub open spec fn pos_on_line(c: Coord, v: Vector, x: int, y: int) -> int {
    if v.dx == 1 {
        x - c.x
    } else if v.dx == -1 {
        c.x - x
    } else if v.dy == 1 {
        y - c.y
    } else {
        c.y - y
    }
}

/// The cells along the line from `c` to the edge in direction `v`, in scan
/// order.
pub open spec fn line_seq(b: Board, c: Coord, v: Vector) -> Seq<Square> {
    Seq::new(run_len(c, v) as nat, |k: int| b.cell(line_x(c, v, k), line_y(c, v, k)))
}

/// Every event's coordinates lie on the given line, and no event is an
/// `Appear` (scans only move existing tiles).
pub open spec fn event_on_line(m: Move, c: Coord, v: Vector) -> bool {
    match m {
        Move::Appear { .. } => false,
        Move::Shift { from, to, .. } => on_line(c, v, from.x as int, from.y as int) && on_line(
            c,
            v,
            to.x as int,
            to.y as int,
        ),
        Move::Merge { from, to, .. } => on_line(c, v, from.x as int, from.y as int) && on_line(
            c,
            v,
            to.x as int,
            to.y as int,
        ),
        Move::Stay { at, .. } => on_line(c, v, at.x as int, at.y as int),
    }
}

pub open spec fn events_on_line(moves: Seq<Move>, c: Coord, v: Vector) -> bool {
    forall|i: int| 0 <= i < moves.len() ==> event_on_line(#[trigger] moves[i], c, v)
}

/// A later event never touches the cell an earlier merge produced its tile
/// on: merged tiles neither move nor merge again within the same scan.
pub open spec fn later_untouched(earlier: Move, later: Move) -> bool {
    &&& (later is Merge ==> !same_pos(later->Merge_to, earlier->Merge_to) && !same_pos(
        later->Merge_from,
        earlier->Merge_to,
    ))
    &&& (later is Shift ==> !same_pos(later->Shift_from, earlier->Merge_to) && !same_pos(
        later->Shift_to,
        earlier->Merge_to,
    ))
}

/// Every merge event doubles: the tile it produces carries twice the value
/// of the equal pair that made it.
pub open spec fn merges_double(moves: Seq<Move>) -> bool {
    forall|i: int|
        0 <= i < moves.len() && (#[trigger] moves[i]) is Merge ==> moves[i]->Merge_end_value
            == 2 * moves[i]->Merge_start_value
}

/// No tile produced by a merge takes part in a second merge, or moves again,
/// within the same scan.
pub open spec fn no_remerge(moves: Seq<Move>) -> bool {
    forall|i: int, j: int|
        0 <= i < j < moves.len() && moves[i] is Merge ==> later_untouched(
            #[trigger] moves[i],
            #[trigger] moves[j],
        )
}

/// Unfold `line_values` past a leading tile.
proof fn lemma_lv_skip_value(line: Seq<Square>, s: int, v: TileValue)
    requires
        0 <= s < line.len(),
        line[s] == (Square::Value(v)),
    ensures
        line_values(line.skip(s)) == seq![v] + line_values(line.skip(s + 1)),
{
    assert(line.skip(s)[0] == (Square::Value(v)));
    assert(line.skip(s).skip(1) =~= line.skip(s + 1));
}

/// Unfold `line_values` past a leading empty cell.
proof fn lemma_lv_skip_empty(line: Seq<Square>, s: int)
    requires
        0 <= s < line.len(),
        line[s] is Empty,
    ensures
        line_values(line.skip(s)) == line_values(line.skip(s + 1)),
{
    assert(line.skip(s).skip(1) =~= line.skip(s + 1));
}

/// Nothing is left past the end of the line.
proof fn lemma_lv_skip_end(line: Seq<Square>)
    ensures
        line_values(line.skip(line.len() as int)) == Seq::<TileValue>::empty(),
{
    assert(line.skip(line.len() as int) =~= Seq::<Square>::empty());
}

/// Reading off a line's tiles splits at any cut point.
proof fn lemma_lv_split(line: Seq<Square>, j: int)
    requires
        0 <= j <= line.len(),
    ensures
        line_values(line) == line_values(line.take(j)) + line_values(line.skip(j)),
    decreases j,
{
    if j == 0 {
        assert(line.take(0) =~= Seq::<Square>::empty());
        assert(line.skip(0) =~= line);
        assert(line_values(line.take(0)) + line_values(line) =~= line_values(line));
    } else {
        lemma_lv_split(line.skip(1), j - 1);
        assert(line.skip(1).take(j - 1) =~= line.take(j).skip(1));
        assert(line.skip(1).skip(j - 1) =~= line.skip(j));
        assert(line.take(j)[0] == line[0]);
        match line[0] {
            Square::Empty => {},
            Square::Value(v) => {
                assert(seq![v] + (line_values(line.take(j).skip(1)) + line_values(line.skip(j)))
                    =~= (seq![v] + line_values(line.take(j).skip(1))) + line_values(line.skip(j)));
            },
        }
    }
}

/// A line whose first `j` cells all hold tiles has at least `j` tiles.
proof fn lemma_lv_min_values(line: Seq<Square>, j: int)
    requires
        0 <= j <= line.len(),
        forall|k: int| 0 <= k < j ==> line[k] is Value,
    ensures
        line_values(line).len() >= j,
    decreases j,
{
    if j > 0 {
        assert(line[0] is Value);
        assert forall|k: int| 0 <= k < j - 1 implies line.skip(1)[k] is Value by {
            assert(line[k + 1] is Value);
        }
        lemma_lv_min_values(line.skip(1), j - 1);
    }
}

/// The coordinate `k` steps along the line from `st` in direction `v`,
/// carrying `st`'s extents.
pub open spec fn coord_on(st: Coord, v: Vector, k: int) -> Coord {
    Coord {
        x: line_x(st, v, k) as usize,
        y: line_y(st, v, k) as usize,
        max_x: st.max_x,
        max_y: st.max_y,
    }
}

/// The scan's closing report: the tile on the target cell stays in place,
/// unless the cell is empty, or the tile was produced this scan and its
/// movement is already logged.
pub open spec fn stay_report(cells: Seq<Square>, st: Coord, v: Vector, t: int, tc: bool) -> Seq<
    Move,
> {
    match cells[t] {
        Square::Empty => Seq::empty(),
        Square::Value(tv) => if tc {
            Seq::empty()
        } else {
            seq![Move::Stay { at: coord_on(st, v, t), value: tv }]
        },
    }
}

/// The exact event log of one contraction/merge scan, step by step: target
/// at position `t`, source at position `s`, `tc` saying whether the target
/// cell was filled this scan. An empty source is skipped; a tile slides onto
/// an empty target; equal neighbours (whose sum fits) merge and the target
/// moves past the result; unequal neighbours leave the target in place,
/// reported once. At the trailing edge the final unmoved tiles are reported.
#[verifier::opaque]
pub open spec fn scan_events(
    cells: Seq<Square>,
    st: Coord,
    v: Vector,
    t: int,
    s: int,
    tc: bool,
) -> Seq<Move>
    decreases 2 * cells.len() - t - s,
{
    if !(0 <= t && t < s && s < cells.len()) {
        Seq::empty()  // the scan keeps its cursors ordered on the line
    } else {
        let at_edge = s == cells.len() - 1;
        match cells[s] {
            Square::Empty => if at_edge {
                stay_report(cells, st, v, t, tc)
            } else {
                scan_events(cells, st, v, t, s + 1, tc)
            },
            Square::Value(sv) => match cells[t] {
                Square::Empty => seq![
                    Move::Shift { from: coord_on(st, v, s), to: coord_on(st, v, t), value: sv },
                ] + if at_edge {
                    Seq::<Move>::empty()
                } else {
                    scan_events(
                        cells.update(t, Square::Value(sv)).update(s, Square::Empty),
                        st,
                        v,
                        t,
                        s + 1,
                        true,
                    )
                },
                Square::Value(tv) => if tv == sv && tv + sv <= TileValue::MAX {
                    seq![
                        Move::Merge {
                            from: coord_on(st, v, s),
                            to: coord_on(st, v, t),
                            start_value: sv,
                            end_value: (tv + sv) as TileValue,
                        },
                    ] + if at_edge {
                        Seq::<Move>::empty()
                    } else {
                        scan_events(
                            cells.update(t, Square::Value((tv + sv) as TileValue)).update(
                                s,
                                Square::Empty,
                            ),
                            st,
                            v,
                            t + 1,
                            s + 1,
                            false,
                        )
                    }
                } else {
                    (if tc {
                        Seq::<Move>::empty()
                    } else {
                        seq![Move::Stay { at: coord_on(st, v, t), value: tv }]
                    }) + if t + 1 == s {
                        if at_edge {
                            seq![Move::Stay { at: coord_on(st, v, s), value: sv }]
                        } else {
                            scan_events(cells, st, v, t + 1, s + 1, false)
                        }
                    } else {
                        scan_events(cells, st, v, t + 1, s, false)
                    }
                },
            },
        }
    }
}


/// One scan step past an empty source.
proof fn lemma_scan_skip_empty(cells: Seq<Square>, st: Coord, v: Vector, t: int, s: int, tc: bool)
    requires
        0 <= t < s < cells.len() - 1,
        cells[s] is Empty,
    ensures
        scan_events(cells, st, v, t, s, tc) == scan_events(cells, st, v, t, s + 1, tc),
{
    reveal(scan_events);
}

/// The scan's last step over an empty trailing source.
proof fn lemma_scan_end_empty(cells: Seq<Square>, st: Coord, v: Vector, t: int, tc: bool)
    requires
        0 <= t < cells.len() - 1,
        cells[cells.len() - 1] is Empty,
    ensures
        scan_events(cells, st, v, t, cells.len() - 1, tc) == stay_report(cells, st, v, t, tc),
{
    reveal(scan_events);
}

/// One scan step sliding a tile onto the empty target.
proof fn lemma_scan_shift(
    cells: Seq<Square>,
    st: Coord,
    v: Vector,
    t: int,
    s: int,
    tc: bool,
    sv: TileValue,
)
    requires
        0 <= t < s < cells.len(),
        cells[s] == (Square::Value(sv)),
        cells[t] is Empty,
    ensures
        scan_events(cells, st, v, t, s, tc) == seq![
            (Move::Shift { from: coord_on(st, v, s), to: coord_on(st, v, t), value: sv }),
        ] + if s == cells.len() - 1 {
            Seq::<Move>::empty()
        } else {
            scan_events(
                cells.update(t, Square::Value(sv)).update(s, Square::Empty),
                st,
                v,
                t,
                s + 1,
                true,
            )
        },
{
    reveal(scan_events);
}

/// One scan step merging equal neighbours.
proof fn lemma_scan_merge(
    cells: Seq<Square>,
    st: Coord,
    v: Vector,
    t: int,
    s: int,
    tc: bool,
    tv: TileValue,
    sv: TileValue,
)
    requires
        0 <= t < s < cells.len(),
        cells[s] == (Square::Value(sv)),
        cells[t] == (Square::Value(tv)),
        tv == sv,
        tv + sv <= TileValue::MAX,
    ensures
        scan_events(cells, st, v, t, s, tc) == seq![
            (Move::Merge {
                from: coord_on(st, v, s),
                to: coord_on(st, v, t),
                start_value: sv,
                end_value: (tv + sv) as TileValue,
            }),
        ] + if s == cells.len() - 1 {
            Seq::<Move>::empty()
        } else {
            scan_events(
                cells.update(t, Square::Value((tv + sv) as TileValue)).update(s, Square::Empty),
                st,
                v,
                t + 1,
                s + 1,
                false,
            )
        },
{
    reveal(scan_events);
}

/// One scan step past a target that cannot combine with the source.
proof fn lemma_scan_nomerge(
    cells: Seq<Square>,
    st: Coord,
    v: Vector,
    t: int,
    s: int,
    tc: bool,
    tv: TileValue,
    sv: TileValue,
)
    requires
        0 <= t < s < cells.len(),
        cells[s] == (Square::Value(sv)),
        cells[t] == (Square::Value(tv)),
        !(tv == sv && tv + sv <= TileValue::MAX),
    ensures
        scan_events(cells, st, v, t, s, tc) == (if tc {
            Seq::<Move>::empty()
        } else {
            seq![(Move::Stay { at: coord_on(st, v, t), value: tv })]
        }) + if t + 1 == s {
            if s == cells.len() - 1 {
                seq![(Move::Stay { at: coord_on(st, v, s), value: sv })]
            } else {
                scan_events(cells, st, v, t + 1, s + 1, false)
            }
        } else {
            scan_events(cells, st, v, t + 1, s, false)
        },
{
    reveal(scan_events);
}

/// A slide or merge carries its tile strictly toward the leading edge: `to`
/// lies nearer the line's start than `from`.
pub open spec fn event_ordered(m: Move, st: Coord, v: Vector) -> bool {
    match m {
        Move::Shift { from, to, .. } => pos_on_line(st, v, to.x as int, to.y as int) < pos_on_line(
            st,
            v,
            from.x as int,
            from.y as int,
        ),
        Move::Merge { from, to, .. } => pos_on_line(st, v, to.x as int, to.y as int) < pos_on_line(
            st,
            v,
            from.x as int,
            from.y as int,
        ),
        _ => true,
    }
}

/// A log that concatenates two ordered logs is ordered.
proof fn lemma_ordered_concat(c: Seq<Move>, a: Seq<Move>, b: Seq<Move>, st: Coord, v: Vector)
    requires
        c == a + b,
        forall|i: int| 0 <= i < a.len() ==> event_ordered(#[trigger] a[i], st, v),
        forall|i: int| 0 <= i < b.len() ==> event_ordered(#[trigger] b[i], st, v),
    ensures
        forall|i: int| 0 <= i < c.len() ==> event_ordered(#[trigger] c[i], st, v),
{
    assert forall|i: int| 0 <= i < c.len() implies event_ordered(#[trigger] c[i], st, v) by {
        if i < a.len() {
            assert(c[i] == a[i]);
            assert(event_ordered(a[i], st, v));
        } else {
            assert(c[i] == b[i - a.len()]);
            assert(event_ordered(b[i - a.len()], st, v));
        }
    }
}

/// Every slide and merge a scan emits moves its tile strictly toward the
/// leading edge.
pub proof fn lemma_scan_events_ordered(
    cells: Seq<Square>,
    st: Coord,
    v: Vector,
    t: int,
    s: int,
    tc: bool,
)
    requires
        st.wf(),
        v.is_unit(),
        cells.len() <= run_len(st, v),
    ensures
        forall|i: int|
            0 <= i < scan_events(cells, st, v, t, s, tc).len() ==> event_ordered(
                #[trigger] scan_events(cells, st, v, t, s, tc)[i],
                st,
                v,
            ),
    decreases 2 * cells.len() - t - s,
{
    reveal(scan_events);
    if 0 <= t && t < s && s < cells.len() {
        assert(coord_on(st, v, t).x as int == line_x(st, v, t));
        assert(coord_on(st, v, t).y as int == line_y(st, v, t));
        assert(coord_on(st, v, s).x as int == line_x(st, v, s));
        assert(coord_on(st, v, s).y as int == line_y(st, v, s));
        assert(pos_on_line(st, v, line_x(st, v, t), line_y(st, v, t)) == t);
        assert(pos_on_line(st, v, line_x(st, v, s), line_y(st, v, s)) == s);
        let at_edge = s == cells.len() - 1;
        match cells[s] {
            Square::Empty => {
                if !at_edge {
                    lemma_scan_events_ordered(cells, st, v, t, s + 1, tc);
                    assert forall|i: int|
                        0 <= i < scan_events(cells, st, v, t, s, tc).len() implies event_ordered(
                        #[trigger] scan_events(cells, st, v, t, s, tc)[i],
                        st,
                        v,
                    ) by {
                        assert(scan_events(cells, st, v, t, s, tc)[i] == scan_events(
                            cells,
                            st,
                            v,
                            t,
                            s + 1,
                            tc,
                        )[i]);
                    }
                } else {
                    assert forall|i: int|
                        0 <= i < scan_events(cells, st, v, t, s, tc).len() implies event_ordered(
                        #[trigger] scan_events(cells, st, v, t, s, tc)[i],
                        st,
                        v,
                    ) by {
                        assert(scan_events(cells, st, v, t, s, tc) == stay_report(
                            cells,
                            st,
                            v,
                            t,
                            tc,
                        ));
                    }
                }
            },
            Square::Value(sv) => {
                match cells[t] {
                    Square::Empty => {
                        let ev = (Move::Shift {
                            from: coord_on(st, v, s),
                            to: coord_on(st, v, t),
                            value: sv,
                        });
                        assert(event_ordered(ev, st, v));
                        assert(seq![ev][0] == ev);
                        let rest = if at_edge {
                            Seq::<Move>::empty()
                        } else {
                            scan_events(
                                cells.update(t, Square::Value(sv)).update(s, Square::Empty),
                                st,
                                v,
                                t,
                                s + 1,
                                true,
                            )
                        };
                        if !at_edge {
                            lemma_scan_events_ordered(
                                cells.update(t, Square::Value(sv)).update(s, Square::Empty),
                                st,
                                v,
                                t,
                                s + 1,
                                true,
                            );
                        }
                        lemma_ordered_concat(
                            scan_events(cells, st, v, t, s, tc),
                            seq![ev],
                            rest,
                            st,
                            v,
                        );
                    },
                    Square::Value(tv) => {
                        if tv == sv && tv + sv <= TileValue::MAX {
                            let ev = (Move::Merge {
                                from: coord_on(st, v, s),
                                to: coord_on(st, v, t),
                                start_value: sv,
                                end_value: (tv + sv) as TileValue,
                            });
                            assert(event_ordered(ev, st, v));
                            assert(seq![ev][0] == ev);
                            let rest = if at_edge {
                                Seq::<Move>::empty()
                            } else {
                                scan_events(
                                    cells.update(t, Square::Value((tv + sv) as TileValue)).update(
                                        s,
                                        Square::Empty,
                                    ),
                                    st,
                                    v,
                                    t + 1,
                                    s + 1,
                                    false,
                                )
                            };
                            if !at_edge {
                                lemma_scan_events_ordered(
                                    cells.update(t, Square::Value((tv + sv) as TileValue)).update(
                                        s,
                                        Square::Empty,
                                    ),
                                    st,
                                    v,
                                    t + 1,
                                    s + 1,
                                    false,
                                );
                            }
                            lemma_ordered_concat(
                                scan_events(cells, st, v, t, s, tc),
                                seq![ev],
                                rest,
                                st,
                                v,
                            );
                        } else {
                            let stay_part = if tc {
                                Seq::<Move>::empty()
                            } else {
                                seq![(Move::Stay { at: coord_on(st, v, t), value: tv })]
                            };
                            assert forall|i: int| 0 <= i < stay_part.len() implies event_ordered(
                                #[trigger] stay_part[i],
                                st,
                                v,
                            ) by {}
                            let rest = if t + 1 == s {
                                if at_edge {
                                    seq![(Move::Stay { at: coord_on(st, v, s), value: sv })]
                                } else {
                                    scan_events(cells, st, v, t + 1, s + 1, false)
                                }
                            } else {
                                scan_events(cells, st, v, t + 1, s, false)
                            };
                            if t + 1 == s {
                                if !at_edge {
                                    lemma_scan_events_ordered(cells, st, v, t + 1, s + 1, false);
                                } else {
                                    assert(rest[0] == (Move::Stay {
                                        at: coord_on(st, v, s),
                                        value: sv,
                                    }));
                                }
                            } else {
                                lemma_scan_events_ordered(cells, st, v, t + 1, s, false);
                            }
                            lemma_ordered_concat(
                                scan_events(cells, st, v, t, s, tc),
                                stay_part,
                                rest,
                                st,
                                v,
                            );
                        }
                    },
                }
            },
        }
    }
}

/// Appending the next emitted event to the done part of the log.
proof fn lemma_log_step(full: Seq<Move>, done: Seq<Move>, e: Move, rest: Seq<Move>)
    requires
        full == done + (seq![e] + rest),
    ensures
        full == done.push(e) + rest,
{
    assert(done.push(e) + rest =~= done + (seq![e] + rest));
}

/// Appending the next emitted events (possibly none) to the done part.
proof fn lemma_log_step_seq(full: Seq<Move>, done: Seq<Move>, es: Seq<Move>, rest: Seq<Move>)
    requires
        full == done + (es + rest),
    ensures
        full == (done + es) + rest,
{
    assert((done + es) + rest =~= done + (es + rest));
}

/// A first slide changes the line: the merged image fills a cell that the
/// original line leaves empty.
proof fn lemma_first_shift_changes(
    orig: Seq<Square>,
    mv: Seq<TileValue>,
    line_len: int,
    t_pos: int,
    s_pos: int,
)
    requires
        orig.len() == line_len,
        mv.len() <= line_len,
        0 <= t_pos <= mv.len(),
        0 <= t_pos < s_pos < line_len,
        orig[t_pos] is Empty,
        line_values(orig.skip(s_pos)).len() >= 1,
        mv.skip(t_pos) == merge_values(line_values(orig.skip(s_pos))),
    ensures
        padded(mv, line_len) != orig,
{
    lemma_merge_values_len(line_values(orig.skip(s_pos)));
    assert(mv.skip(t_pos).len() == mv.len() - t_pos);
    assert(padded(mv, line_len)[t_pos] is Value);
}

/// A first merge changes the line: the original holds strictly more tiles
/// than its merged image.
proof fn lemma_first_merge_changes(
    orig: Seq<Square>,
    mv: Seq<TileValue>,
    line_len: int,
    t_pos: int,
    s_pos: int,
)
    requires
        orig.len() == line_len,
        mv.len() <= line_len,
        0 <= t_pos <= mv.len(),
        0 <= t_pos < s_pos < line_len,
        forall|k: int| 0 <= k < t_pos + 1 ==> (#[trigger] orig[k]) is Value,
        line_values(orig.skip(s_pos)).len() >= 1,
        mv.skip(t_pos).len() <= line_values(orig.skip(s_pos)).len(),
    ensures
        padded(mv, line_len) != orig,
{
    lemma_lv_split(orig, s_pos);
    assert forall|k: int| 0 <= k < t_pos + 1 implies orig.take(s_pos)[k] is Value by {
        assert(orig.take(s_pos)[k] == orig[k]);
    }
    lemma_lv_min_values(orig.take(s_pos), t_pos + 1);
    if padded(mv, line_len) == orig {
        lemma_line_values_padded(mv, line_len);
        assert(line_values(orig) == mv);
        assert(mv.skip(t_pos).len() == mv.len() - t_pos);
        assert(false);
    }
}

/// Unfold `merge_values` over a leading pair that combines.
proof fn lemma_merge_values_pair(tv: TileValue, sv: TileValue, rest: Seq<TileValue>)
    requires
        tv == sv,
        tv + sv <= TileValue::MAX,
    ensures
        merge_values(seq![tv, sv] + rest) == seq![(tv + sv) as TileValue] + merge_values(rest),
{
    let vals = seq![tv, sv] + rest;
    assert(vals.skip(2) =~= rest);
}

/// Unfold `merge_values` over a leading pair that does not combine.
proof fn lemma_merge_values_nopair(tv: TileValue, sv: TileValue, rest: Seq<TileValue>)
    requires
        !(tv == sv && tv + sv <= TileValue::MAX),
    ensures
        merge_values(seq![tv, sv] + rest) == seq![tv] + merge_values(seq![sv] + rest),
{
    let vals = seq![tv, sv] + rest;
    assert(vals.skip(1) =~= seq![sv] + rest);
}

/// The tile value under a single cell, as a (zero- or one-element) value
/// sequence.
pub open spec fn cell_values(sq: Square) -> Seq<TileValue> {
    match sq {
        Square::Empty => Seq::empty(),
        Square::Value(v) => seq![v],
    }
}

/// Every merge already logged produced its tile strictly before scan
/// position `bound` on the given line.
pub open spec fn merges_before(moves: Seq<Move>, c: Coord, v: Vector, bound: int) -> bool {
    forall|i: int|
        0 <= i < moves.len() && (#[trigger] moves[i]) is Merge ==> on_line(
            c,
            v,
            moves[i]->Merge_to.x as int,
            moves[i]->Merge_to.y as int,
        ) && pos_on_line(c, v, moves[i]->Merge_to.x as int, moves[i]->Merge_to.y as int) < bound
}

/// Appending an event that only touches cells at or past `bound` keeps the
/// event log's per-line properties.
proof fn lemma_log_push(moves: Seq<Move>, e: Move, c: Coord, v: Vector, bound: int, new_bound: int)
    requires
        events_on_line(moves, c, v),
        no_remerge(moves),
        merges_before(moves, c, v, bound),
        event_on_line(e, c, v),
        bound <= new_bound,
        e is Merge ==> pos_on_line(c, v, e->Merge_to.x as int, e->Merge_to.y as int) >= bound
            && pos_on_line(c, v, e->Merge_from.x as int, e->Merge_from.y as int) >= bound
            && pos_on_line(c, v, e->Merge_to.x as int, e->Merge_to.y as int) < new_bound,
        e is Shift ==> pos_on_line(c, v, e->Shift_from.x as int, e->Shift_from.y as int) >= bound
            && pos_on_line(c, v, e->Shift_to.x as int, e->Shift_to.y as int) >= bound,
        merges_double(moves),
        e is Merge ==> e->Merge_end_value == 2 * e->Merge_start_value,
    ensures
        events_on_line(moves.push(e), c, v),
        no_remerge(moves.push(e)),
        merges_before(moves.push(e), c, v, new_bound),
        merges_double(moves.push(e)),
{
    let pushed = moves.push(e);
    assert forall|i: int, j: int|
        0 <= i < j < pushed.len() && pushed[i] is Merge implies later_untouched(
        #[trigger] pushed[i],
        #[trigger] pushed[j],
    ) by {
        if j < moves.len() {
            assert(no_remerge(moves));
            assert(later_untouched(moves[i], moves[j]));
        } else {
            assert(pushed[j] == e);
            assert(pushed[i] == moves[i]);
            assert(event_on_line(moves[i], c, v));
        }
    }
    assert forall|i: int| 0 <= i < pushed.len() implies event_on_line(#[trigger] pushed[i], c, v) by {
        if i < moves.len() {
            assert(event_on_line(moves[i], c, v));
        }
    }
    assert forall|i: int|
        0 <= i < pushed.len() && (#[trigger] pushed[i]) is Merge implies pushed[i]->Merge_end_value
        == 2 * pushed[i]->Merge_start_value by {
        if i < moves.len() {
            assert(moves[i] is Merge);
        }
    }
    assert forall|i: int|
        0 <= i < pushed.len() && (#[trigger] pushed[i]) is Merge implies on_line(
        c,
        v,
        pushed[i]->Merge_to.x as int,
        pushed[i]->Merge_to.y as int,
    ) && pos_on_line(c, v, pushed[i]->Merge_to.x as int, pushed[i]->Merge_to.y as int) < new_bound by {
        if i < moves.len() {
            assert(moves[i] is Merge);
        }
    }
}

/// A line with an empty cell holds fewer tiles than cells.
pub proof fn lemma_empty_cell_fewer_values(line: Seq<Square>, k: int)
    requires
        0 <= k < line.len(),
        line[k] is Empty,
    ensures
        line_values(line).len() < line.len(),
    decreases line.len(),
{
    if k == 0 {
        lemma_line_values_len(line.skip(1));
    } else {
        lemma_empty_cell_fewer_values(line.skip(1), k - 1);
    }
}

/// A line with fewer tiles than cells has an empty cell.
pub proof fn lemma_fewer_values_empty_cell(line: Seq<Square>) -> (k: int)
    requires
        line_values(line).len() < line.len(),
    ensures
        0 <= k < line.len(),
        line[k] is Empty,
    decreases line.len(),
{
    if line[0] is Empty {
        0
    } else {
        1 + lemma_fewer_values_empty_cell(line.skip(1))
    }
}

/// Stays on both sides of a concatenation, or a real move on one of them.
pub proof fn lemma_all_stays_append(a: Seq<Move>, b: Seq<Move>)
    ensures
        all_stays(a + b) <==> (all_stays(a) && all_stays(b)),
{
    if all_stays(a) && all_stays(b) {
        assert forall|i: int| 0 <= i < (a + b).len() implies (a + b)[i] is Stay by {
            if i < a.len() {
                assert(a[i] is Stay);
            } else {
                assert(b[i - a.len()] is Stay);
            }
        }
    }
    if all_stays(a + b) {
        assert forall|i: int| 0 <= i < a.len() implies a[i] is Stay by {
            assert((a + b)[i] == a[i]);
        }
        assert forall|i: int| 0 <= i < b.len() implies b[i] is Stay by {
            assert((a + b)[a.len() + i] == b[i]);
        }
    }
}

/// The line that a cell belongs to during a shift: its row for a horizontal
/// shift, its column for a vertical one.
pub open spec fn line_index(v: Vector, x: int, y: int) -> int {
    if v.dx != 0 {
        y
    } else {
        x
    }
}

/// Concatenating one more line's event log keeps the whole-shift event
/// properties: logs of distinct lines share no cell, so merged tiles stay
/// untouched across the whole shift.
pub proof fn lemma_log_append(a: Seq<Move>, b: Seq<Move>, v: Vector, st_b: Coord, li: int)
    requires
        no_remerge(a),
        no_remerge(b),
        forall|i: int|
            0 <= i < a.len() && (#[trigger] a[i]) is Merge ==> line_index(
                v,
                a[i]->Merge_to.x as int,
                a[i]->Merge_to.y as int,
            ) < li,
        forall|i: int| 0 <= i < a.len() ==> !((#[trigger] a[i]) is Appear),
        events_on_line(b, st_b, v),
        forall|x: int, y: int| on_line(st_b, v, x, y) ==> line_index(v, x, y) == li,
        merges_double(a),
        merges_double(b),
    ensures
        no_remerge(a + b),
        merges_double(a + b),
        forall|i: int|
            0 <= i < (a + b).len() && (#[trigger] (a + b)[i]) is Merge ==> line_index(
                v,
                (a + b)[i]->Merge_to.x as int,
                (a + b)[i]->Merge_to.y as int,
            ) < li + 1,
        forall|i: int| 0 <= i < (a + b).len() ==> !((#[trigger] (a + b)[i]) is Appear),
{
    let joined = a + b;
    assert forall|i: int, j: int|
        0 <= i < j < joined.len() && joined[i] is Merge implies later_untouched(
        #[trigger] joined[i],
        #[trigger] joined[j],
    ) by {
        if j < a.len() {
            assert(later_untouched(a[i], a[j]));
        } else if i >= a.len() {
            assert(joined[i] == b[i - a.len()]);
            assert(joined[j] == b[j - a.len()]);
            assert(later_untouched(b[i - a.len()], b[j - a.len()]));
        } else {
            // the earlier merge is on an earlier line; the later event's
            // cells are all on line `li`
            assert(joined[i] == a[i]);
            assert(joined[j] == b[j - a.len()]);
            assert(event_on_line(b[j - a.len()], st_b, v));
        }
    }
    assert forall|i: int|
        0 <= i < joined.len() && (#[trigger] joined[i]) is Merge implies line_index(
        v,
        joined[i]->Merge_to.x as int,
        joined[i]->Merge_to.y as int,
    ) < li + 1 by {
        if i < a.len() {
            assert(joined[i] == a[i]);
        } else {
            assert(joined[i] == b[i - a.len()]);
            assert(event_on_line(b[i - a.len()], st_b, v));
        }
    }
    assert forall|i: int| 0 <= i < joined.len() implies !((#[trigger] joined[i]) is Appear) by {
        if i >= a.len() {
            assert(event_on_line(b[i - a.len()], st_b, v));
        }
    }
    assert forall|i: int|
        0 <= i < joined.len() && (#[trigger] joined[i]) is Merge implies joined[i]->Merge_end_value
        == 2 * joined[i]->Merge_start_value by {
        if i < a.len() {
            assert(joined[i] == a[i]);
            assert(a[i] is Merge);
        } else {
            assert(joined[i] == b[i - a.len()]);
            assert(b[i - a.len()] is Merge);
        }
    }
}

/// Appending a `Stay` event leaves "nothing but stays so far" as it was.
proof fn lemma_all_stays_push_stay(moves: Seq<Move>, e: Move)
    requires
        e is Stay,
    ensures
        all_stays(moves.push(e)) <==> all_stays(moves),
{
    if all_stays(moves) {
        assert forall|i: int| 0 <= i < moves.push(e).len() implies moves.push(e)[i] is Stay by {
            if i < moves.len() {
                assert(moves[i] is Stay);
            }
        }
    } else {
        let i = choose|i: int| 0 <= i < moves.len() && !(moves[i] is Stay);
        assert(moves.push(e)[i] == moves[i]);
    }
}

/// Appending a shift or merge means something really moved.
proof fn lemma_all_stays_push_other(moves: Seq<Move>, e: Move)
    requires
        !(e is Stay),
    ensures
        !all_stays(moves.push(e)),
{
    assert(moves.push(e)[moves.len() as int] == e);
}

/// The line merger: consumes one scan cursor and the board, performs the
/// contraction/merge scan for a single row or column, and emits the ordered
/// event log for that line.
pub struct Merger {
    pub cursor: DualCursor,
}

impl Merger {
    pub fn new(cursor: DualCursor) -> (r: Merger)
        ensures
            r.cursor == cursor,
    {
        Merger { cursor }
    }

    /// Run the contraction/merge scan along the cursor's line.
    ///
    /// The line (read from the cursor's start toward the trailing edge) ends
    /// up exactly as [`merged_line`] specifies, and the returned log is
    /// exactly [`scan_events`] of the line as it was; every cell off the
    /// line is untouched. If the log holds nothing but `Stay` events the
    /// line is unchanged, and any real movement really changes it. No tile
    /// produced by a merge is moved or merged again ([`no_remerge`]).
    #[verifier::rlimit(100)]
    pub fn merge(self, board: &mut Board) -> (moves: Vec<Move>)
        requires
            old(board).wf(),
            self.cursor.wf(*old(board)),
            self.cursor.source == self.cursor.target.stepped(self.cursor.direction),
            self.cursor.target_changed == false,
            self.cursor.moves@ == Seq::<Move>::empty(),
        ensures
            final(board).wf(),
            final(board).max_x == old(board).max_x,
            final(board).max_y == old(board).max_y,
            line_seq(*final(board), self.cursor.target, self.cursor.direction) == merged_line(
                line_seq(*old(board), self.cursor.target, self.cursor.direction),
            ),
            forall|x: int, y: int|
                0 <= x <= old(board).max_x && 0 <= y <= old(board).max_y && !on_line(
                    self.cursor.target,
                    self.cursor.direction,
                    x,
                    y,
                ) ==> final(board).cell(x, y) == old(board).cell(x, y),
            all_stays(moves@) ==> line_seq(
                *final(board),
                self.cursor.target,
                self.cursor.direction,
            ) == line_seq(*old(board), self.cursor.target, self.cursor.direction),
            !all_stays(moves@) ==> line_values(
                line_seq(*final(board), self.cursor.target, self.cursor.direction),
            ).len() < run_len(self.cursor.target, self.cursor.direction),
            !all_stays(moves@) ==> line_seq(*final(board), self.cursor.target, self.cursor.direction)
                != line_seq(*old(board), self.cursor.target, self.cursor.direction),
            events_on_line(moves@, self.cursor.target, self.cursor.direction),
            no_remerge(moves@),
            merges_double(moves@),
            moves@ == scan_events(
                line_seq(*old(board), self.cursor.target, self.cursor.direction),
                self.cursor.target,
                self.cursor.direction,
                0,
                1,
                false,
            ),
            forall|i: int|
                0 <= i < moves@.len() ==> event_ordered(
                    #[trigger] moves@[i],
                    self.cursor.target,
                    self.cursor.direction,
                ),
    {
        let mut cursor = self.cursor;
        let ghost st = cursor.target;
        let ghost dir = cursor.direction;
        let ghost g0 = *board;
        let ghost orig = line_seq(g0, st, dir);
        let ghost mv = merge_values(line_values(orig));
        let ghost line_len = run_len(st, dir);
        let ghost mut t_pos: int = 0;
        let ghost mut s_pos: int = 1;
        proof {
            assert(orig.len() == line_len);
            assert(orig.skip(0) =~= orig);
            assert(mv.skip(0) =~= mv);
            lemma_line_values_len(orig);
            lemma_merge_values_len(line_values(orig));
            assert(orig[0] == g0.cell_at(st));
            match g0.cell_at(st) {
                Square::Empty => {
                    lemma_lv_skip_empty(orig, 0);
                    assert(cell_values(g0.cell_at(st)) + line_values(orig.skip(1)) =~= line_values(
                        orig.skip(1),
                    ));
                },
                Square::Value(v) => {
                    lemma_lv_skip_value(orig, 0, v);
                    assert(cell_values(g0.cell_at(st)) + line_values(orig.skip(1)) =~= seq![v]
                        + line_values(orig.skip(1)));
                },
            }
            assert(Seq::<Move>::empty() + scan_events(orig, st, dir, 0, 1, false) =~= scan_events(
                orig,
                st,
                dir,
                0,
                1,
                false,
            ));
        }
        loop
            invariant_except_break
                // cursor geometry: both cursors sit on the scanned line,
                // the source strictly ahead of the target
                cursor.wf(*board),
                cursor.direction == dir,
                0 <= t_pos < s_pos < line_len,
                cursor.target.x as int == line_x(st, dir, t_pos),
                cursor.target.y as int == line_y(st, dir, t_pos),
                cursor.source.x as int == line_x(st, dir, s_pos),
                cursor.source.y as int == line_y(st, dir, s_pos),
                // the cells strictly between the cursors have been vacated
                forall|k: int|
                    t_pos < k < s_pos ==> board.cell(
                        line_x(st, dir, k),
                        line_y(st, dir, k),
                    ) is Empty,
                // the cells at and past the source are untouched
                forall|k: int|
                    s_pos <= k < line_len ==> board.cell(line_x(st, dir, k), line_y(st, dir, k))
                        == orig[k],
                t_pos <= mv.len(),
                // the cells before the target are final: the merged image
                forall|k: int|
                    0 <= k < t_pos ==> board.cell(line_x(st, dir, k), line_y(st, dir, k)) == (
                    Square::Value(mv[k])),
                // what is left to merge: the target's content, then the
                // untouched rest of the original line
                merge_values(
                    cell_values(board.cell(line_x(st, dir, t_pos), line_y(st, dir, t_pos)))
                        + line_values(orig.skip(s_pos)),
                ) == mv.skip(t_pos),
                all_stays(cursor.moves@) ==> forall|k: int|
                    0 <= k < line_len ==> board.cell(line_x(st, dir, k), line_y(st, dir, k))
                        == orig[k],
                merges_before(cursor.moves@, st, dir, t_pos),
                // the full log is what was emitted so far plus what the scan
                // of the rest of the line will emit
                scan_events(orig, st, dir, 0, 1, false) == cursor.moves@ + scan_events(
                    line_seq(*board, st, dir),
                    st,
                    dir,
                    t_pos,
                    s_pos,
                    cursor.target_changed,
                ),
            invariant
                board.wf(),
                board.max_x == g0.max_x,
                board.max_y == g0.max_y,
                st.wf(),
                dir.is_unit(),
                st.max_x == g0.max_x,
                st.max_y == g0.max_y,
                line_len == run_len(st, dir),
                orig == line_seq(g0, st, dir),
                orig.len() == line_len,
                mv == merge_values(line_values(orig)),
                mv.len() <= line_len,
                forall|x: int, y: int|
                    0 <= x <= g0.max_x && 0 <= y <= g0.max_y && !on_line(st, dir, x, y)
                        ==> board.cell(x, y) == g0.cell(x, y),
                !all_stays(cursor.moves@) ==> mv.len() < line_len,
                !all_stays(cursor.moves@) ==> padded(mv, line_len) != orig,
                events_on_line(cursor.moves@, st, dir),
                no_remerge(cursor.moves@),
                merges_double(cursor.moves@),
            ensures
                forall|k: int|
                    0 <= k < line_len ==> board.cell(line_x(st, dir, k), line_y(st, dir, k))
                        == padded(mv, line_len)[k],
                all_stays(cursor.moves@) ==> forall|k: int|
                    0 <= k < line_len ==> board.cell(line_x(st, dir, k), line_y(st, dir, k))
                        == orig[k],
                cursor.moves@ == scan_events(orig, st, dir, 0, 1, false),
            decreases 2 * line_len - t_pos - s_pos,
        {
            proof {
                assert(board.cell_at(cursor.source) == board.cell(
                    line_x(st, dir, s_pos),
                    line_y(st, dir, s_pos),
                ));
                assert(board.cell_at(cursor.target) == board.cell(
                    line_x(st, dir, t_pos),
                    line_y(st, dir, t_pos),
                ));
            }
            match cursor.source_tile(board) {
                Square::Empty => {
                    // an empty source contributes nothing: skip it
                    proof {
                        lemma_lv_skip_empty(orig, s_pos);
                        assert(line_seq(*board, st, dir)[s_pos] is Empty);
                    }
                    let ghost pre = cursor;
                    let advanced = cursor.advance_source(board);
                    match advanced {
                        Ok(()) => {
                            proof {
                                assert(s_pos < line_len - 1);
                                lemma_scan_skip_empty(
                                    line_seq(*board, st, dir),
                                    st,
                                    dir,
                                    t_pos,
                                    s_pos,
                                    cursor.target_changed,
                                );
                                s_pos = s_pos + 1;
                            }
                        },
                        Err(()) => {
                            proof {
                                assert(s_pos == line_len - 1);
                                lemma_lv_skip_end(orig);
                                assert(coord_on(st, dir, t_pos) == pre.target);
                                lemma_scan_end_empty(
                                    line_seq(*board, st, dir),
                                    st,
                                    dir,
                                    t_pos,
                                    pre.target_changed,
                                );
                                assert(cursor.moves@ =~= pre.moves@ + stay_report(
                                    line_seq(*board, st, dir),
                                    st,
                                    dir,
                                    t_pos,
                                    pre.target_changed,
                                ));
                                let tc = cell_values(
                                    board.cell(line_x(st, dir, t_pos), line_y(st, dir, t_pos)),
                                );
                                assert(tc + line_values(orig.skip(s_pos)) =~= tc);
                                assert(merge_values(tc) == tc);
                                assert(mv.skip(t_pos) == tc);
                                assert(mv.skip(t_pos).len() == mv.len() - t_pos);
                                match board.cell_at(pre.target) {
                                    Square::Value(v) => {
                                        assert(mv.len() == t_pos + 1);
                                        assert(mv[t_pos] == mv.skip(t_pos)[0]);
                                        if !pre.target_changed {
                                            lemma_log_push(
                                                pre.moves@,
                                                Move::Stay { at: pre.target, value: v },
                                                st,
                                                dir,
                                                t_pos,
                                                t_pos,
                                            );
                                            lemma_all_stays_push_stay(
                                                pre.moves@,
                                                Move::Stay { at: pre.target, value: v },
                                            );
                                        }
                                    },
                                    Square::Empty => {
                                        assert(mv.len() == t_pos);
                                    },
                                }
                                assert forall|k: int| 0 <= k < line_len implies board.cell(
                                    line_x(st, dir, k),
                                    line_y(st, dir, k),
                                ) == padded(mv, line_len)[k] by {
                                    if k < t_pos {
                                    } else if k == t_pos {
                                    } else {
                                    }
                                }
                            }
                            break;
                        },
                    }
                },
                Square::Value(source_value) => {
                    match cursor.target_tile(board) {
                        Square::Empty => {
                            // slide the source tile onto the empty target
                            proof {
                                lemma_lv_skip_value(orig, s_pos, source_value);
                                let tc = cell_values(
                                    board.cell(line_x(st, dir, t_pos), line_y(st, dir, t_pos)),
                                );
                                assert(tc + line_values(orig.skip(s_pos)) =~= line_values(
                                    orig.skip(s_pos),
                                ));
                                lemma_merge_values_len(line_values(orig.skip(s_pos)));
                                lemma_line_values_len(orig.skip(s_pos));
                                assert(mv.skip(t_pos).len() == mv.len() - t_pos);
                                assert(mv.len() < line_len);
                                if all_stays(cursor.moves@) {
                                    // first real move: the line still equals
                                    // the original, whose target cell is
                                    // empty, yet the merged image fills it
                                    assert(orig[t_pos] is Empty);
                                    lemma_first_shift_changes(orig, mv, line_len, t_pos, s_pos);
                                }
                                lemma_log_push(
                                    cursor.moves@,
                                    Move::Shift {
                                        from: cursor.source,
                                        to: cursor.target,
                                        value: source_value,
                                    },
                                    st,
                                    dir,
                                    t_pos,
                                    t_pos,
                                );
                                lemma_all_stays_push_other(
                                    cursor.moves@,
                                    Move::Shift {
                                        from: cursor.source,
                                        to: cursor.target,
                                        value: source_value,
                                    },
                                );
                            }
                            let ghost cur_old = line_seq(*board, st, dir);
                            let ghost pre_mv = cursor;
                            cursor.move_tile(board, source_value);
                            proof {
                                assert(cell_values(
                                    board.cell(line_x(st, dir, t_pos), line_y(st, dir, t_pos)),
                                ) =~= seq![source_value]);
                                assert(seq![source_value] + line_values(orig.skip(s_pos + 1))
                                    =~= line_values(orig.skip(s_pos)));
                                assert(cur_old[s_pos] == (Square::Value(source_value)));
                                assert(cur_old[t_pos] is Empty);
                                assert(coord_on(st, dir, s_pos) == cursor.source);
                                assert(coord_on(st, dir, t_pos) == cursor.target);
                                let ev = (Move::Shift {
                                    from: cursor.source,
                                    to: cursor.target,
                                    value: source_value,
                                });
                                assert(line_seq(*board, st, dir) =~= cur_old.update(
                                    t_pos,
                                    Square::Value(source_value),
                                ).update(s_pos, Square::Empty));
                                let rest_log = if s_pos == line_len - 1 {
                                    Seq::<Move>::empty()
                                } else {
                                    scan_events(
                                        line_seq(*board, st, dir),
                                        st,
                                        dir,
                                        t_pos,
                                        s_pos + 1,
                                        true,
                                    )
                                };
                                assert(cur_old.len() == line_len);
                                lemma_scan_shift(
                                    cur_old,
                                    st,
                                    dir,
                                    t_pos,
                                    s_pos,
                                    pre_mv.target_changed,
                                    source_value,
                                );
                                assert(scan_events(cur_old, st, dir, t_pos, s_pos, pre_mv.target_changed)
                                    == seq![ev] + rest_log);
                                lemma_log_step(
                                    scan_events(orig, st, dir, 0, 1, false),
                                    pre_mv.moves@,
                                    ev,
                                    rest_log,
                                );
                            }
                            let ghost pre = cursor;
                            let advanced = cursor.advance_source(board);
                            match advanced {
                                Ok(()) => {
                                    proof {
                                        s_pos = s_pos + 1;
                                    }
                                },
                                Err(()) => {
                                    proof {
                                        assert(s_pos == line_len - 1);
                                        assert(cursor.moves@ + Seq::<Move>::empty()
                                            =~= cursor.moves@);
                                        lemma_lv_skip_end(orig);
                                        assert(seq![source_value] + line_values(
                                            orig.skip(s_pos + 1),
                                        ) =~= seq![source_value]);
                                        assert(mv.skip(t_pos) == seq![source_value]);
                                        assert(mv.len() == t_pos + 1);
                                        assert(mv[t_pos] == mv.skip(t_pos)[0]);
                                        assert forall|k: int| 0 <= k < line_len implies board.cell(
                                            line_x(st, dir, k),
                                            line_y(st, dir, k),
                                        ) == padded(mv, line_len)[k] by {
                                            if k < t_pos {
                                            } else if k == t_pos {
                                            } else {
                                            }
                                        }
                                    }
                                    break;
                                },
                            }
                        },
                        Square::Value(target_value) => {
                            if target_value == source_value && target_value <= TileValue::MAX
                                - source_value {
                                // equal neighbours combine, exactly once
                                let merged_value = target_value + source_value;
                                proof {
                                    lemma_lv_skip_value(orig, s_pos, source_value);
                                    let rest = line_values(orig.skip(s_pos + 1));
                                    assert(cell_values(
                                        board.cell(line_x(st, dir, t_pos), line_y(st, dir, t_pos)),
                                    ) + line_values(orig.skip(s_pos)) =~= seq![
                                        target_value,
                                        source_value,
                                    ] + rest);
                                    lemma_merge_values_pair(target_value, source_value, rest);
                                    lemma_merge_values_len(rest);
                                    lemma_line_values_len(orig.skip(s_pos + 1));
                                    assert(mv.skip(t_pos) == seq![merged_value]
                                        + merge_values(rest));
                                    assert(mv.skip(t_pos).len() == mv.len() - t_pos);
                                    assert(mv.len() < line_len);
                                    assert(mv[t_pos] == mv.skip(t_pos)[0]);
                                    if all_stays(cursor.moves@) {
                                        // first real move: the original line
                                        // holds strictly more tiles than its
                                        // merged image, so they differ
                                        assert forall|k: int|
                                            0 <= k < t_pos + 1 implies (#[trigger] orig[k]) is Value by {
                                            assert(board.cell(
                                                line_x(st, dir, k),
                                                line_y(st, dir, k),
                                            ) == orig[k]);
                                            if k < t_pos {
                                                assert(board.cell(
                                                    line_x(st, dir, k),
                                                    line_y(st, dir, k),
                                                ) == (Square::Value(mv[k])));
                                            } else {
                                                assert(board.cell(
                                                    line_x(st, dir, t_pos),
                                                    line_y(st, dir, t_pos),
                                                ) == (Square::Value(target_value)));
                                            }
                                        }
                                        assert(mv.skip(t_pos).len() <= 1 + rest.len());
                                        lemma_first_merge_changes(orig, mv, line_len, t_pos, s_pos);
                                    }
                                    lemma_log_push(
                                        cursor.moves@,
                                        Move::Merge {
                                            from: cursor.source,
                                            to: cursor.target,
                                            start_value: source_value,
                                            end_value: merged_value,
                                        },
                                        st,
                                        dir,
                                        t_pos,
                                        t_pos + 1,
                                    );
                                    lemma_all_stays_push_other(
                                        cursor.moves@,
                                        Move::Merge {
                                            from: cursor.source,
                                            to: cursor.target,
                                            start_value: source_value,
                                            end_value: merged_value,
                                        },
                                    );
                                }
                                let ghost cur_old = line_seq(*board, st, dir);
                                let ghost pre_mg = cursor;
                                cursor.merge_tiles(board, source_value, merged_value);
                                proof {
                                    assert(cur_old[s_pos] == (Square::Value(source_value)));
                                    assert(cur_old[t_pos] == (Square::Value(target_value)));
                                    assert(coord_on(st, dir, s_pos) == cursor.source);
                                    assert(coord_on(st, dir, t_pos) == cursor.target);
                                    let ev = (Move::Merge {
                                        from: cursor.source,
                                        to: cursor.target,
                                        start_value: source_value,
                                        end_value: merged_value,
                                    });
                                    assert(line_seq(*board, st, dir) =~= cur_old.update(
                                        t_pos,
                                        Square::Value(merged_value),
                                    ).update(s_pos, Square::Empty));
                                    let rest_log = if s_pos == line_len - 1 {
                                        Seq::<Move>::empty()
                                    } else {
                                        scan_events(
                                            line_seq(*board, st, dir),
                                            st,
                                            dir,
                                            t_pos + 1,
                                            s_pos + 1,
                                            false,
                                        )
                                    };
                                    assert(cur_old.len() == line_len);
                                    lemma_scan_merge(
                                        cur_old,
                                        st,
                                        dir,
                                        t_pos,
                                        s_pos,
                                        pre_mg.target_changed,
                                        target_value,
                                        source_value,
                                    );
                                    assert(scan_events(
                                        cur_old,
                                        st,
                                        dir,
                                        t_pos,
                                        s_pos,
                                        pre_mg.target_changed,
                                    ) == seq![ev] + rest_log);
                                    lemma_log_step(
                                        scan_events(orig, st, dir, 0, 1, false),
                                        pre_mg.moves@,
                                        ev,
                                        rest_log,
                                    );
                                }
                                let ghost pre = cursor;
                                let advanced = cursor.advance_both(board);
                                match advanced {
                                    Ok(()) => {
                                        proof {
                                            let rest = line_values(orig.skip(s_pos + 1));
                                            assert(mv.skip(t_pos + 1) =~= mv.skip(t_pos).skip(1));
                                            assert((seq![merged_value] + merge_values(rest)).skip(1)
                                                =~= merge_values(rest));
                                            t_pos = t_pos + 1;
                                            s_pos = s_pos + 1;
                                            assert(board.cell(
                                                line_x(st, dir, t_pos),
                                                line_y(st, dir, t_pos),
                                            ) is Empty);
                                            assert(cell_values(
                                                board.cell(
                                                    line_x(st, dir, t_pos),
                                                    line_y(st, dir, t_pos),
                                                ),
                                            ) + rest =~= rest);
                                        }
                                    },
                                    Err(()) => {
                                        proof {
                                            assert(s_pos == line_len - 1);
                                            assert(cursor.moves@ + Seq::<Move>::empty()
                                                =~= cursor.moves@);
                                            lemma_lv_skip_end(orig);
                                            let rest = line_values(orig.skip(s_pos + 1));
                                            assert(rest =~= Seq::<TileValue>::empty());
                                            assert(merge_values(rest) =~= Seq::<
                                                TileValue,
                                            >::empty());
                                            assert(mv.skip(t_pos) =~= seq![merged_value]);
                                            assert(mv.len() == t_pos + 1);
                                            assert(mv[t_pos] == mv.skip(t_pos)[0]);
                                            assert forall|k: int| 0 <= k < line_len implies board.cell(
                                                line_x(st, dir, k),
                                                line_y(st, dir, k),
                                            ) == padded(mv, line_len)[k] by {
                                                if k < t_pos {
                                                } else if k == t_pos {
                                                } else {
                                                }
                                            }
                                        }
                                        break;
                                    },
                                }
                            } else {
                                // distinct neighbours cannot combine: the
                                // target tile is final
                                proof {
                                    lemma_lv_skip_value(orig, s_pos, source_value);
                                    let rest = line_values(orig.skip(s_pos + 1));
                                    assert(cell_values(
                                        board.cell(line_x(st, dir, t_pos), line_y(st, dir, t_pos)),
                                    ) + line_values(orig.skip(s_pos)) =~= seq![
                                        target_value,
                                        source_value,
                                    ] + rest);
                                    lemma_merge_values_nopair(target_value, source_value, rest);
                                    assert(mv.skip(t_pos) == seq![target_value] + merge_values(
                                        seq![source_value] + rest,
                                    ));
                                    assert(mv.skip(t_pos).len() == mv.len() - t_pos);
                                    assert(mv[t_pos] == mv.skip(t_pos)[0]);
                                    assert(seq![source_value] + rest =~= line_values(
                                        orig.skip(s_pos),
                                    ));
                                    assert(coord_on(st, dir, t_pos) == cursor.target);
                                    assert(line_seq(*board, st, dir)[t_pos] == (Square::Value(
                                        target_value,
                                    )));
                                    assert(line_seq(*board, st, dir)[s_pos] == (Square::Value(
                                        source_value,
                                    )));
                                    if !cursor.target_changed {
                                        lemma_log_push(
                                            cursor.moves@,
                                            Move::Stay { at: cursor.target, value: target_value },
                                            st,
                                            dir,
                                            t_pos,
                                            t_pos + 1,
                                        );
                                        lemma_all_stays_push_stay(
                                            cursor.moves@,
                                            Move::Stay { at: cursor.target, value: target_value },
                                        );
                                    }
                                }
                                let ghost pre = cursor;
                                let advanced = cursor.advance_target(board);
                                match advanced {
                                    Ok(()) => {
                                        proof {
                                            assert(mv.skip(t_pos + 1) =~= mv.skip(t_pos).skip(1));
                                            assert((seq![target_value] + merge_values(
                                                seq![source_value] + line_values(
                                                    orig.skip(s_pos + 1),
                                                ),
                                            )).skip(1) =~= merge_values(
                                                seq![source_value] + line_values(
                                                    orig.skip(s_pos + 1),
                                                ),
                                            ));
                                            let cur = line_seq(*board, st, dir);
                                            let stay_part = if pre.target_changed {
                                                Seq::<Move>::empty()
                                            } else {
                                                seq![
                                                    (Move::Stay {
                                                        at: coord_on(st, dir, t_pos),
                                                        value: target_value,
                                                    }),
                                                ]
                                            };
                                            let rest_log = if t_pos + 1 == s_pos {
                                                scan_events(cur, st, dir, t_pos + 1, s_pos + 1, false)
                                            } else {
                                                scan_events(cur, st, dir, t_pos + 1, s_pos, false)
                                            };
                                            assert(cur.len() == line_len);
                                            lemma_scan_nomerge(
                                                cur,
                                                st,
                                                dir,
                                                t_pos,
                                                s_pos,
                                                pre.target_changed,
                                                target_value,
                                                source_value,
                                            );
                                            assert(scan_events(
                                                cur,
                                                st,
                                                dir,
                                                t_pos,
                                                s_pos,
                                                pre.target_changed,
                                            ) == stay_part + rest_log);
                                            assert(cursor.moves@ =~= pre.moves@ + stay_part);
                                            lemma_log_step_seq(
                                                scan_events(orig, st, dir, 0, 1, false),
                                                pre.moves@,
                                                stay_part,
                                                rest_log,
                                            );
                                            if t_pos + 1 == s_pos {
                                                s_pos = s_pos + 1;
                                            }
                                            t_pos = t_pos + 1;
                                        }
                                    },
                                    Err(()) => {
                                        proof {
                                            assert(t_pos + 1 == s_pos);
                                            assert(s_pos == line_len - 1);
                                            lemma_lv_skip_end(orig);
                                            let rest = line_values(orig.skip(s_pos + 1));
                                            assert(rest =~= Seq::<TileValue>::empty());
                                            assert(seq![source_value] + rest =~= seq![
                                                source_value,
                                            ]);
                                            assert(merge_values(seq![source_value]) == seq![
                                                source_value,
                                            ]);
                                            assert(mv.skip(t_pos) =~= seq![
                                                target_value,
                                                source_value,
                                            ]);
                                            assert(mv.len() == t_pos + 2);
                                            assert(mv[t_pos] == mv.skip(t_pos)[0]);
                                            assert(mv[t_pos + 1] == mv.skip(t_pos)[1]);
                                            // the trailing source tile is
                                            // reported in place
                                            let reported = pre.stay_reported(*board);
                                            let stepped = pre.target.stepped(dir);
                                            match board.cell_at(pre.source) {
                                                Square::Value(v) => {
                                                    lemma_log_push(
                                                        reported,
                                                        Move::Stay { at: stepped, value: v },
                                                        st,
                                                        dir,
                                                        t_pos,
                                                        t_pos,
                                                    );
                                                    lemma_all_stays_push_stay(
                                                        reported,
                                                        Move::Stay { at: stepped, value: v },
                                                    );
                                                },
                                                Square::Empty => {},
                                            }
                                            let cur = line_seq(*board, st, dir);
                                            let stay_part = if pre.target_changed {
                                                Seq::<Move>::empty()
                                            } else {
                                                seq![
                                                    (Move::Stay {
                                                        at: coord_on(st, dir, t_pos),
                                                        value: target_value,
                                                    }),
                                                ]
                                            };
                                            let last_stay = (Move::Stay {
                                                at: coord_on(st, dir, s_pos),
                                                value: source_value,
                                            });
                                            assert(cur.len() == line_len);
                                            lemma_scan_nomerge(
                                                cur,
                                                st,
                                                dir,
                                                t_pos,
                                                s_pos,
                                                pre.target_changed,
                                                target_value,
                                                source_value,
                                            );
                                            assert(scan_events(
                                                cur,
                                                st,
                                                dir,
                                                t_pos,
                                                s_pos,
                                                pre.target_changed,
                                            ) == stay_part + seq![last_stay]);
                                            assert(stepped == coord_on(st, dir, s_pos));
                                            assert(reported =~= pre.moves@ + stay_part);
                                            assert(cursor.moves@ =~= reported.push(last_stay));
                                            assert(reported.push(last_stay) =~= pre.moves@ + (
                                            stay_part + seq![last_stay]));
                                            assert forall|k: int| 0 <= k < line_len implies board.cell(
                                                line_x(st, dir, k),
                                                line_y(st, dir, k),
                                            ) == padded(mv, line_len)[k] by {
                                                if k < t_pos {
                                                } else if k == t_pos {
                                                } else {
                                                }
                                            }
                                        }
                                        break;
                                    },
                                }
                            }
                        },
                    }
                },
            }
        }
        proof {
            assert(line_seq(*board, st, dir) =~= padded(mv, line_len));
            lemma_line_values_len(orig);
            lemma_merge_values_len(line_values(orig));
            lemma_line_values_padded(mv, line_len);
            if all_stays(cursor.moves@) {
                assert(line_seq(*board, st, dir) =~= orig);
            }
            lemma_scan_events_ordered(orig, st, dir, 0, 1, false);
            assert forall|i: int| 0 <= i < cursor.moves@.len() implies event_ordered(
                #[trigger] cursor.moves@[i],
                st,
                dir,
            ) by {
                assert(cursor.moves@[i] == scan_events(orig, st, dir, 0, 1, false)[i]);
            }
        }
        cursor.moves()
    }
}

} // verus!
