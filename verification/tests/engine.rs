//! Behaviour of the transition engine beyond the single-column scenarios:
//! event logs, no-op detection, mass conservation, spawn determinism, and
//! the game state machine.

use game2048::board::Board;
use game2048::coord::{Coord, Vector};
use game2048::game::{Command, Game, GameState};
use game2048::moves::Move;
use game2048::Square;

fn board_with_column(column: &[u16]) -> Board {
    let mut board = Board::new(1, column.len());
    for (y, value) in column.iter().enumerate() {
        board.put(
            board.coord(0, y),
            match *value {
                0 => Square::Empty,
                _ => Square::Value(*value),
            },
        );
    }
    board
}

fn board_sum(board: &Board) -> u64 {
    let mut sum: u64 = 0;
    for x in 0..board.size_x() {
        for y in 0..board.size_y() {
            if let Square::Value(v) = board.at_xy(x, y) {
                sum += v as u64;
            }
        }
    }
    sum
}

fn tile_count(board: &Board) -> usize {
    let mut n = 0;
    for x in 0..board.size_x() {
        for y in 0..board.size_y() {
            if let Square::Value(_) = board.at_xy(x, y) {
                n += 1;
            }
        }
    }
    n
}

#[test]
fn noop_shift_returns_none_and_keeps_grid() {
    let mut board = board_with_column(&[2, 4, 8, 16]);
    let before: Vec<Square> = (0..4).map(|y| board.at_xy(0, y)).collect();
    assert!(board.shift_up().is_none());
    let after: Vec<Square> = (0..4).map(|y| board.at_xy(0, y)).collect();
    assert_eq!(before, after);
}

#[test]
fn merge_is_reported_once_with_doubled_value() {
    let mut board = board_with_column(&[2, 2, 0, 0]);
    let moves = board.shift_up().expect("a merge is a real move");
    let mut merges = 0;
    for m in &moves {
        match m {
            Move::Merge { from, to, start_value, end_value } => {
                merges += 1;
                assert_eq!((from.x, from.y), (0, 1));
                assert_eq!((to.x, to.y), (0, 0));
                assert_eq!(*start_value, 2);
                assert_eq!(*end_value, 4);
            },
            Move::Appear { .. } => panic!("a shift never spawns a tile"),
            _ => {},
        }
    }
    assert_eq!(merges, 1);
}

#[test]
fn slide_is_reported_as_shift_event() {
    let mut board = board_with_column(&[0, 0, 8, 0]);
    let moves = board.shift_up().expect("a slide is a real move");
    assert_eq!(moves.len(), 1);
    match moves[0] {
        Move::Shift { from, to, value } => {
            assert_eq!((from.x, from.y), (0, 2));
            assert_eq!((to.x, to.y), (0, 0));
            assert_eq!(value, 8);
        },
        _ => panic!("expected exactly one slide event"),
    }
}

#[test]
fn blocked_tiles_are_reported_as_stays() {
    let mut board = board_with_column(&[4, 2, 2, 2]);
    let moves = board.shift_up().expect("the pair of twos merges");
    // the leading 4 cannot move: it is reported in place exactly once
    let stays_at_origin = moves
        .iter()
        .filter(|m| matches!(m, Move::Stay { at, value: 4 } if at.x == 0 && at.y == 0))
        .count();
    assert_eq!(stays_at_origin, 1);
}

#[test]
fn shift_conserves_mass() {
    let mut board = board_with_column(&[2, 2, 4, 8]);
    let before = board_sum(&board);
    board.shift_up().expect("the twos merge");
    assert_eq!(board_sum(&board), before);
}

#[test]
fn merged_tile_does_not_merge_again() {
    // [2, 2, 4, 0]: the twos make a 4; it must not eat the next 4
    let mut board = board_with_column(&[2, 2, 4, 0]);
    board.shift_up().expect("the twos merge");
    let column: Vec<Square> = (0..4).map(|y| board.at_xy(0, y)).collect();
    assert_eq!(
        column,
        vec![Square::Value(4), Square::Value(4), Square::Empty, Square::Empty],
    );
}

#[test]
fn place_tile_is_deterministic() {
    let make = || {
        let mut board = Board::new(2, 2);
        board.put(board.coord(0, 0), Square::Value(2));
        board
    };
    // free cells in scan order: (0,1), (1,0), (1,1)
    let mut first = make();
    let mut second = make();
    let m1 = first.place_tile(1, true);
    let m2 = second.place_tile(1, true);
    match (m1, m2) {
        (Move::Appear { at: a1, value: v1 }, Move::Appear { at: a2, value: v2 }) => {
            assert_eq!((a1.x, a1.y), (1, 0));
            assert_eq!((a2.x, a2.y), (1, 0));
            assert_eq!(v1, 4);
            assert_eq!(v2, 4);
        },
        _ => panic!("place_tile reports an appearance"),
    }
    assert!(matches!(first.at_xy(1, 0), Square::Value(4)));
    assert!(matches!(second.at_xy(1, 0), Square::Value(4)));
}

#[test]
fn place_tile_spawns_two_without_the_chance() {
    let mut board = Board::new(2, 1);
    let m = board.place_tile(0, false);
    match m {
        Move::Appear { at, value } => {
            assert_eq!((at.x, at.y), (0, 0));
            assert_eq!(value, 2);
        },
        _ => panic!("place_tile reports an appearance"),
    }
}

#[test]
fn new_tile_fills_the_last_free_cell() {
    let mut board = board_with_column(&[2, 4, 0, 8]);
    let mut randomizer = game2048::random::Randomizer::new();
    let m = board.new_tile(&mut randomizer);
    match m {
        Move::Appear { at, value } => {
            assert_eq!((at.x, at.y), (0, 2));
            assert!(value == 2 || value == 4);
        },
        _ => panic!("new_tile reports an appearance"),
    }
    assert_eq!(tile_count(&board), 4);
}

#[test]
fn initialize_leaves_exactly_one_tile() {
    let mut board = board_with_column(&[2, 4, 8, 16]);
    let mut randomizer = game2048::random::Randomizer::new();
    let m = board.initialize(&mut randomizer);
    assert!(matches!(m, Move::Appear { .. }));
    assert_eq!(tile_count(&board), 1);
    let sum = board_sum(&board);
    assert!(sum == 2 || sum == 4);
}

#[test]
fn coord_translation_is_bounds_checked() {
    let board = Board::new(2, 2);
    let corner = board.coord(1, 1);
    assert!(corner.add(Vector::new(1, 0)).is_err());
    assert!(corner.add(Vector::new(0, 1)).is_err());
    let back = corner.add(Vector::new(-1, 0)).expect("x == 0 is on the board");
    assert_eq!((back.x, back.y), (0, 1));
    let up = corner.add(Vector::new(0, -1)).expect("y == 0 is on the board");
    assert_eq!((up.x, up.y), (1, 0));
}

#[test]
fn coords_compare_by_position_alone() {
    let small = Coord::new(1, 1, 1, 1);
    let large = Coord::new(1, 1, 7, 7);
    assert_eq!(small, large);
    assert!(Coord::new(0, 1, 1, 1) != small);
}

#[test]
fn new_game_starts_with_one_tile_and_one_move() {
    let game = Game::new(4, 4);
    assert!(matches!(game.state(), GameState::Running));
    assert_eq!(game.move_count(), 1);
    assert_eq!(game.latest_moves().len(), 1);
    assert!(matches!(game.latest_moves()[0], Move::Appear { .. }));
    assert_eq!(tile_count(&game.board), 1);
}

#[test]
fn quit_ends_the_game_without_touching_the_board() {
    let mut game = Game::new(3, 3);
    let before = board_sum(&game.board);
    game.execute(Command::Quit);
    assert!(matches!(game.state(), GameState::Quit));
    assert_eq!(game.move_count(), 1);
    assert_eq!(board_sum(&game.board), before);
}

#[test]
fn nop_changes_nothing() {
    let mut game = Game::new(3, 3);
    let before = board_sum(&game.board);
    game.execute(Command::Nop);
    assert!(matches!(game.state(), GameState::Running));
    assert_eq!(game.move_count(), 1);
    assert_eq!(board_sum(&game.board), before);
    assert_eq!(game.latest_moves().len(), 1);
}

#[test]
fn a_real_shift_spawns_one_tile_and_counts() {
    let mut game = Game::new(2, 2);
    // craft a row that must merge: [2, 2] on top
    game.board.put(game.board.coord(0, 0), Square::Value(2));
    game.board.put(game.board.coord(1, 0), Square::Value(2));
    game.board.put(game.board.coord(0, 1), Square::Empty);
    game.board.put(game.board.coord(1, 1), Square::Empty);
    game.execute(Command::Left);
    assert_eq!(game.move_count(), 2);
    assert!(matches!(game.board.at_xy(0, 0), Square::Value(4)));
    // the spawned tile is the log's last event
    let last = game.latest_moves().last().expect("the log is not empty");
    assert!(matches!(last, Move::Appear { .. }));
    let sum = board_sum(&game.board);
    assert!(sum == 6 || sum == 8);
    assert_eq!(tile_count(&game.board), 2);
}

#[test]
fn an_impossible_shift_counts_nothing_and_spawns_nothing() {
    let mut game = Game::new(2, 2);
    // a single tile already in the corner cannot move left or up
    game.board.put(game.board.coord(0, 0), Square::Value(2));
    game.board.put(game.board.coord(1, 0), Square::Empty);
    game.board.put(game.board.coord(0, 1), Square::Empty);
    game.board.put(game.board.coord(1, 1), Square::Empty);
    game.execute(Command::Left);
    game.execute(Command::Up);
    assert_eq!(game.move_count(), 1);
    assert_eq!(tile_count(&game.board), 1);
}

#[test]
fn shifts_in_all_four_directions() {
    let mut board = Board::new(3, 3);
    board.put(board.coord(1, 1), Square::Value(2));
    board.shift_left().expect("the tile slides to x == 0");
    assert!(matches!(board.at_xy(0, 1), Square::Value(2)));
    board.shift_down().expect("the tile slides to y == 2");
    assert!(matches!(board.at_xy(0, 2), Square::Value(2)));
    board.shift_right().expect("the tile slides to x == 2");
    assert!(matches!(board.at_xy(2, 2), Square::Value(2)));
    board.shift_up().expect("the tile slides to y == 0");
    assert!(matches!(board.at_xy(2, 0), Square::Value(2)));
    assert_eq!(board_sum(&board), 2);
}

fn same_coord(a: &Coord, b: &Coord) -> bool {
    a.x == b.x && a.y == b.y
}

fn same_move(a: &Move, b: &Move) -> bool {
    match (a, b) {
        (Move::Appear { at: a1, value: v1 }, Move::Appear { at: a2, value: v2 }) => {
            same_coord(a1, a2) && v1 == v2
        },
        (
            Move::Shift { from: f1, to: t1, value: v1 },
            Move::Shift { from: f2, to: t2, value: v2 },
        ) => same_coord(f1, f2) && same_coord(t1, t2) && v1 == v2,
        (
            Move::Merge { from: f1, to: t1, start_value: s1, end_value: e1 },
            Move::Merge { from: f2, to: t2, start_value: s2, end_value: e2 },
        ) => same_coord(f1, f2) && same_coord(t1, t2) && s1 == s2 && e1 == e2,
        (Move::Stay { at: a1, value: v1 }, Move::Stay { at: a2, value: v2 }) => {
            same_coord(a1, a2) && v1 == v2
        },
        _ => false,
    }
}

#[test]
fn transition_replays_identically_with_fixed_draws() {
    let run = || {
        let mut board = board_with_column(&[0, 2, 0, 2]);
        let moves = board.shift_up().expect("the twos merge");
        // a fixed pair of draws in place of the randomizer
        let appear = board.place_tile(1, false);
        (board, moves, appear)
    };
    let (board1, moves1, appear1) = run();
    let (board2, moves2, appear2) = run();
    for y in 0..4 {
        assert_eq!(board1.at_xy(0, y), board2.at_xy(0, y));
    }
    assert_eq!(moves1.len(), moves2.len());
    for (a, b) in moves1.iter().zip(moves2.iter()) {
        assert!(same_move(a, b));
    }
    assert!(same_move(&appear1, &appear2));
    // and the outcome is the specified one
    assert!(matches!(board1.at_xy(0, 0), Square::Value(4)));
    assert!(matches!(board1.at_xy(0, 2), Square::Value(2)));
}

#[test]
fn scenario_4_2_2_2_has_exact_event_log() {
    // the leading 4 stays, the pair of 2s merges, the trailing 2 slides but
    // does not merge with the freshly produced 4
    let mut board = board_with_column(&[4, 2, 2, 2]);
    let moves = board.shift_up().expect("the twos merge");
    assert_eq!(moves.len(), 3);
    assert!(matches!(moves[0], Move::Stay { at, value: 4 } if (at.x, at.y) == (0, 0)));
    assert!(matches!(
        moves[1],
        Move::Merge { from, to, start_value: 2, end_value: 4 }
            if (from.x, from.y) == (0, 2) && (to.x, to.y) == (0, 1)
    ));
    assert!(matches!(
        moves[2],
        Move::Shift { from, to, value: 2 } if (from.x, from.y) == (0, 3) && (to.x, to.y) == (0, 2)
    ));
}

#[test]
fn scenario_2_0_0_2_has_exact_event_log() {
    // the two 2s combine despite the gap: one merge, nothing else
    let mut board = board_with_column(&[2, 0, 0, 2]);
    let moves = board.shift_up().expect("the twos merge");
    assert_eq!(moves.len(), 1);
    assert!(matches!(
        moves[0],
        Move::Merge { from, to, start_value: 2, end_value: 4 }
            if (from.x, from.y) == (0, 3) && (to.x, to.y) == (0, 0)
    ));
}
