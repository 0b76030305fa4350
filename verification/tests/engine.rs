use tetris_engine::block::{Block, Rect};
use tetris_engine::board::{Action, Board};
use tetris_engine::color::Color;

const FILL_COLOR: Color = Color::DarkGray;
const BG: Color = Color::Black;

fn empty_state() -> Vec<Vec<Color>> {
    let mut state = Vec::new();
    for _ in 0..10 {
        let mut col = Vec::new();
        for _ in 0..20 {
            col.push(BG);
        }
        state.push(col);
    }
    state
}

fn fill(state: &mut Vec<Vec<Color>>, x: usize, y: usize) {
    state[x][y] = FILL_COLOR;
}

/// Clearing two rows in one put awards 2 x (10 x 3) = 60 points for the
/// lines plus the flat put bonus of 5, for a net 65.
#[test]
fn put_scores_sixty_five_for_double_clear() {
    let mut state = empty_state();
    for x in 0..10 {
        if x != 4 && x != 5 {
            fill(&mut state, x, 18);
            fill(&mut state, x, 19);
        }
    }
    let mut board = Board::from_data(state, Block::new_yellow(), None).unwrap();
    let cleared = board.make_action(Action::Put);
    assert_eq!(cleared, 2);
    assert_eq!(board.score(), 65);
    // Both rows vanished: nothing from the old stack remains.
    for x in 0..10 {
        assert_eq!(board.state[x][18], BG);
        assert_eq!(board.state[x][19], BG);
    }
}

/// Clearing one row drops every row above it by one and puts a fresh
/// background row on top; rows keep their relative order.
#[test]
fn clear_shifts_rows_down() {
    let mut state = empty_state();
    for x in 0..10 {
        if !(3..=6).contains(&x) {
            fill(&mut state, x, 19);
        }
    }
    fill(&mut state, 0, 10);
    fill(&mut state, 0, 11);
    fill(&mut state, 9, 12);
    let mut board = Board::from_data(state, Block::new_cyan(), None).unwrap();
    let cleared = board.make_action(Action::Put);
    assert_eq!(cleared, 1);
    assert_eq!(board.score(), 35);
    // The markers moved down one row; their relative order is preserved.
    assert_eq!(board.state[0][10], BG);
    assert_eq!(board.state[0][11], FILL_COLOR);
    assert_eq!(board.state[0][12], FILL_COLOR);
    assert_eq!(board.state[9][13], FILL_COLOR);
    assert_eq!(board.state[9][12], BG);
}

/// A put on an empty board awards only the flat bonus of 5.
#[test]
fn put_without_lines_scores_five() {
    let mut board = Board::from_data(empty_state(), Block::new_purple(), None).unwrap();
    let cleared = board.make_action(Action::Put);
    assert_eq!(cleared, 0);
    assert_eq!(board.score(), 5);
}

/// Each garbage line is enemy-colored in every column but one random one,
/// and lines stack from the bottom.
#[test]
fn garbage_lines_have_one_gap_each() {
    let mut board = Board::from_data(empty_state(), Block::new_yellow(), None).unwrap();
    board.add_enemy_lines(2);
    for y in [18usize, 19usize] {
        let mut gray = 0;
        let mut bg = 0;
        for x in 0..10 {
            match board.state[x][y] {
                Color::Gray => gray += 1,
                Color::Black => bg += 1,
                other => panic!("unexpected color in a garbage row: {:?}", other),
            }
        }
        assert_eq!(gray, 9);
        assert_eq!(bg, 1);
    }
    assert_eq!(board.score(), 0);
}

/// Garbage injection drops the oldest stored row: cells above move up one
/// stored slot, and the active piece is re-overlaid.
#[test]
fn garbage_shifts_history_and_keeps_overlay() {
    let mut state = empty_state();
    fill(&mut state, 0, 2);
    let mut board = Board::from_data(state, Block::new_yellow(), None).unwrap();
    board.add_enemy_lines(1);
    assert_eq!(board.state[0][1], FILL_COLOR);
    assert_eq!(board.state[0][2], BG);
    // The overlay survives the shift: the O piece still shows at its anchor.
    assert_eq!(board.state[4][0], Color::Yellow);
    assert_eq!(board.state[5][0], Color::Yellow);
}

/// A spawn that lands on pre-filled cells ends the game, and every further
/// command and tick is a no-op.
#[test]
fn game_over_on_blocked_spawn() {
    let mut state = empty_state();
    // One of these two cells lies inside every shape's spawn position.
    fill(&mut state, 4, 0);
    fill(&mut state, 3, 1);
    let corner = Rect {
        x: 8,
        y: 18,
        width: 2,
        height: 2,
    };
    let mut board = Board::from_data(state, Block::new_yellow(), Some(corner)).unwrap();
    assert!(!board.has_game_ended());
    board.make_action(Action::Put);
    assert!(board.has_game_ended());

    let state_before = board.state.clone();
    let score_before = board.score();
    board.make_action(Action::Left);
    board.make_action(Action::Right);
    board.make_action(Action::Down);
    board.make_action(Action::Rotate);
    board.make_action(Action::Put);
    board.move_down();
    board.tick_count();
    assert!(board.has_game_ended());
    assert_eq!(board.score(), score_before);
    for x in 0..10 {
        for y in 0..20 {
            assert_eq!(board.state[x][y], state_before[x][y]);
        }
    }
}

/// Rotating the I piece at spawn commits the vertical state re-anchored by
/// its bounding-box offset.
#[test]
fn rotate_cyan_at_spawn() {
    let mut board = Board::from_data(empty_state(), Block::new_cyan(), None).unwrap();
    board.make_action(Action::Rotate);
    for y in 0..4 {
        assert_eq!(board.state[5][y], Color::Cyan);
    }
    let mut filled = 0;
    for x in 0..10 {
        for y in 0..20 {
            if board.state[x][y] != BG {
                filled += 1;
            }
        }
    }
    assert_eq!(filled, 4);
}

/// Rotating against the left wall nudges the piece right before the commit;
/// the result stays fully on the board.
#[test]
fn rotate_kicks_off_left_wall() {
    let mut board = Board::from_data(empty_state(), Block::new_cyan(), None).unwrap();
    // Horizontal at x 3..=6; go vertical (at x 5), push to the wall, rotate.
    board.make_action(Action::Rotate);
    for _ in 0..5 {
        board.make_action(Action::Left);
    }
    assert_eq!(board.state[0][0], Color::Cyan);
    board.make_action(Action::Rotate);
    for x in 0..4 {
        assert_eq!(board.state[x][0], Color::Cyan);
    }
    let mut filled = 0;
    for x in 0..10 {
        for y in 0..20 {
            if board.state[x][y] != BG {
                filled += 1;
            }
        }
    }
    assert_eq!(filled, 4);
}

/// A rotation with no room reverts completely: the T piece boxed in by
/// filled cells keeps its state and anchor.
#[test]
fn rotate_blocked_is_a_no_op() {
    let mut state = empty_state();
    // The T spawns with cells (3,1) (4,0) (4,1) (5,1). Rotating would need
    // (4,0..3)-ish room; wall it in below and beside.
    for x in 0..10 {
        fill(&mut state, x, 2);
    }
    fill(&mut state, 3, 0);
    fill(&mut state, 5, 0);
    let mut board = Board::from_data(state, Block::new_purple(), None).unwrap();
    let before = board.state.clone();
    board.make_action(Action::Rotate);
    for x in 0..10 {
        for y in 0..20 {
            assert_eq!(board.state[x][y], before[x][y]);
        }
    }
}

/// A manual down move that leaves the piece still falling awards one point;
/// one that ends on a resting piece awards nothing.
#[test]
fn soft_drop_scoring() {
    let mut board = Board::from_data(empty_state(), Block::new_yellow(), None).unwrap();
    board.make_action(Action::Down);
    assert_eq!(board.score(), 1);

    let corner = Rect {
        x: 4,
        y: 18,
        width: 2,
        height: 2,
    };
    let mut rested = Board::from_data(empty_state(), Block::new_yellow(), Some(corner)).unwrap();
    rested.make_action(Action::Down);
    assert_eq!(rested.score(), 0);
}

/// Soft-dropping the O piece from spawn to the floor: it rests with its
/// bounding box two rows above the bottom edge, and only the moves that
/// leave it falling score.
#[test]
fn yellow_drops_to_floor() {
    let mut board = Board::from_data(empty_state(), Block::new_yellow(), None).unwrap();
    for _ in 0..30 {
        board.make_action(Action::Down);
    }
    assert_eq!(board.state[4][18], Color::Yellow);
    assert_eq!(board.state[4][19], Color::Yellow);
    assert_eq!(board.state[5][18], Color::Yellow);
    assert_eq!(board.state[5][19], Color::Yellow);
    assert_eq!(board.state[4][0], BG);
    assert_eq!(board.score(), 17);
}

/// The piece reports resting exactly when a down move would fail.
#[test]
fn is_put_down_at_floor_only() {
    let mut top = Board::from_data(empty_state(), Block::new_red(), None).unwrap();
    assert!(!top.is_put_down());

    let corner = Rect {
        x: 3,
        y: 18,
        width: 3,
        height: 2,
    };
    let mut low = Board::from_data(empty_state(), Block::new_red(), Some(corner)).unwrap();
    assert!(low.is_put_down());
}

/// Three consecutive resting ticks lock the piece; ticks award no points.
#[test]
fn tick_locks_after_three_resting_ticks() {
    let corner = Rect {
        x: 8,
        y: 18,
        width: 2,
        height: 2,
    };
    let mut board = Board::from_data(empty_state(), Block::new_yellow(), Some(corner)).unwrap();
    assert_eq!(board.tick_count(), 0);
    assert_eq!(board.tick_count(), 0);
    // Not locked yet: nothing was cleared and the game goes on.
    assert!(!board.has_game_ended());
    assert_eq!(board.tick_count(), 0);
    // After the third resting tick the piece is baked in and a new piece
    // has spawned on the empty upper board.
    assert_eq!(board.state[8][18], Color::Yellow);
    assert_eq!(board.state[8][19], Color::Yellow);
    assert_eq!(board.state[9][18], Color::Yellow);
    assert_eq!(board.state[9][19], Color::Yellow);
    assert!(!board.has_game_ended());
    assert_eq!(board.score(), 0);
}

/// A falling piece resets the lock-delay counter: ticks alone never lock a
/// piece that can still descend.
#[test]
fn tick_does_not_lock_a_falling_piece() {
    let mut board = Board::from_data(empty_state(), Block::new_green(), None).unwrap();
    for _ in 0..5 {
        assert_eq!(board.tick_count(), 0);
    }
    // Still exactly four piece cells, none baked anywhere but the spawn
    // rows: the piece never locked.
    let mut filled = 0;
    for x in 0..10 {
        for y in 0..20 {
            if board.state[x][y] != BG {
                filled += 1;
            }
        }
    }
    assert_eq!(filled, 4);
}

/// A fresh board holds exactly one piece of four cells from the catalog.
#[test]
fn new_player_spawns_one_catalog_piece() {
    let board = Board::new_player();
    assert!(!board.has_game_ended());
    assert_eq!(board.score(), 0);
    let mut filled = 0;
    for x in 0..10 {
        for y in 0..20 {
            let c = board.state[x][y];
            if c != BG {
                assert!(c != Color::Gray);
                filled += 1;
            }
        }
    }
    assert_eq!(filled, 4);
}

/// Rebuilding a board from ill-sized data is refused.
#[test]
fn from_data_rejects_bad_grids() {
    let mut short = empty_state();
    short[3].pop();
    assert!(Board::from_data(short, Block::new_cyan(), None).is_none());

    let mut narrow = empty_state();
    narrow.pop();
    assert!(Board::from_data(narrow, Block::new_cyan(), None).is_none());

    // An anchor that pushes the piece off the board is refused too.
    let corner = Rect {
        x: 9,
        y: 0,
        width: 2,
        height: 2,
    };
    assert!(Board::from_data(empty_state(), Block::new_yellow(), Some(corner)).is_none());
}

/// Injecting zero garbage lines changes nothing.
#[test]
fn zero_garbage_lines_change_nothing() {
    let mut board = Board::from_data(empty_state(), Block::new_blue(), None).unwrap();
    let before = board.state.clone();
    board.add_enemy_lines(0);
    for x in 0..10 {
        for y in 0..20 {
            assert_eq!(board.state[x][y], before[x][y]);
        }
    }
}

/// Side moves stop at the walls and never corrupt the piece.
#[test]
fn side_moves_stop_at_walls() {
    let mut board = Board::from_data(empty_state(), Block::new_yellow(), None).unwrap();
    for _ in 0..20 {
        board.make_action(Action::Left);
    }
    assert_eq!(board.state[0][0], Color::Yellow);
    assert_eq!(board.state[0][1], Color::Yellow);
    assert_eq!(board.state[1][0], Color::Yellow);
    assert_eq!(board.state[1][1], Color::Yellow);
    for _ in 0..30 {
        board.make_action(Action::Right);
    }
    assert_eq!(board.state[8][0], Color::Yellow);
    assert_eq!(board.state[8][1], Color::Yellow);
    assert_eq!(board.state[9][0], Color::Yellow);
    assert_eq!(board.state[9][1], Color::Yellow);
    let mut filled: usize = 0;
    for x in 0..10 {
        for y in 0..20 {
            if board.state[x][y] != BG {
                filled += 1;
            }
        }
    }
    assert_eq!(filled, 4);
}

/// A full T rotation cycle: entering the third state re-anchors one row
/// down, entering the fourth re-anchors one row up, and four rotations
/// return the piece exactly to its spawn cells.
#[test]
fn rotate_t_cycles_through_reanchored_states() {
    let mut board = Board::from_data(empty_state(), Block::new_purple(), None).unwrap();
    let spawn_cells = [(3, 1), (4, 0), (4, 1), (5, 1)];
    let expect = [
        [(4, 0), (4, 1), (4, 2), (5, 1)],
        [(3, 1), (4, 1), (4, 2), (5, 1)],
        [(3, 1), (4, 0), (4, 1), (4, 2)],
        [(3, 1), (4, 0), (4, 1), (5, 1)],
    ];
    for cells in &expect {
        board.make_action(Action::Rotate);
        let mut filled: usize = 0;
        for x in 0..10 {
            for y in 0..20 {
                if board.state[x][y] != BG {
                    filled += 1;
                }
            }
        }
        assert_eq!(filled, 4);
        for &(x, y) in cells {
            assert_eq!(board.state[x][y], Color::Purple);
        }
    }
    for &(x, y) in &spawn_cells {
        assert_eq!(board.state[x][y], Color::Purple);
    }
}

/// A hard lock by itself awards only the per-line score: one cleared row is
/// thirty points, with no flat bonus.
#[test]
fn put_block_awards_per_line_only() {
    let mut state = empty_state();
    for x in 0..10 {
        if !(3..=6).contains(&x) {
            fill(&mut state, x, 19);
        }
    }
    let mut board = Board::from_data(state, Block::new_cyan(), None).unwrap();
    let cleared = board.put_block();
    assert_eq!(cleared, 1);
    assert_eq!(board.score(), 30);
}

/// One garbage line: the bottom row gains nine enemy cells and one gap, and
/// the untouched piece still shows at its anchor.
#[test]
fn single_garbage_line_shape() {
    let mut board = Board::from_data(empty_state(), Block::new_yellow(), None).unwrap();
    board.add_enemy_line();
    let mut gray: usize = 0;
    let mut bg: usize = 0;
    for x in 0..10 {
        match board.state[x][19] {
            Color::Gray => gray += 1,
            Color::Black => bg += 1,
            other => panic!("unexpected color in a garbage row: {:?}", other),
        }
    }
    assert_eq!(gray, 9);
    assert_eq!(bg, 1);
    assert_eq!(board.state[4][0], Color::Yellow);
    assert_eq!(board.state[5][1], Color::Yellow);
}
