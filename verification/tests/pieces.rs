use tetris_engine::block::{Block, Cell, Rect};
use tetris_engine::board::Board;
use tetris_engine::color::Color;

const FULL_BLOCK: char = '*';
const FILL_COLOR: Color = Color::DarkGray;
const EMPTY_COLOR: Color = Color::Black;

fn empty_board() -> Vec<Vec<char>> {
    let mut rows = Vec::new();
    for _ in 0..20 {
        let mut row = Vec::new();
        for _ in 0..10 {
            row.push('_');
        }
        rows.push(row);
    }
    rows
}

fn from_char_to_color(state: &Vec<Vec<char>>) -> Vec<Vec<Color>> {
    let mut color_state: Vec<Vec<Color>> = Vec::new();

    for _ in 0..state[0].len() {
        color_state.push(Vec::new());
    }

    for row in 0..state.len() {
        for col in 0..state[row].len() {
            if state[row][col] == FULL_BLOCK {
                color_state[col].push(FILL_COLOR);
            } else {
                color_state[col].push(EMPTY_COLOR);
            }
        }
    }

    color_state
}

fn blocks_to_fill_color(state: &Vec<Vec<Color>>) -> Vec<Vec<Color>> {
    let mut fill_color_state = state.clone();

    for col in &mut fill_color_state {
        for row in col {
            if *row != EMPTY_COLOR {
                *row = FILL_COLOR;
            }
        }
    }

    fill_color_state
}

fn equals(first: &Vec<Vec<Color>>, second: &Vec<Vec<Color>>) -> bool {
    if first.len() != second.len() {
        return false;
    }
    for i in 0..first.len() {
        if first[i].len() != second[i].len() {
            return false;
        }
        for j in 0..first[i].len() {
            if first[i][j] != second[i][j] {
                return false;
            }
        }
    }
    return true;
}

fn fill_cells(state: &mut Vec<Vec<Color>>, cells: &Vec<Cell>) {
    for cell in cells {
        state[cell.x as usize][cell.y as usize] = FILL_COLOR;
    }
}

fn get_block(block: &str) -> Block {
    match block {
        "cyan" => Block::new_cyan(),
        "blue" => Block::new_blue(),
        "orange" => Block::new_orange(),
        "green" => Block::new_green(),
        "red" => Block::new_red(),
        "purple" => Block::new_purple(),
        "yellow" => Block::new_yellow(),
        other => panic!("no such piece: {}", other),
    }
}

fn init_case(block_color: &str, cells: Vec<Cell>) {
    let mut color_state = from_char_to_color(&empty_board());
    let block = get_block(block_color);
    let board = Board::from_data(color_state.clone(), block, None).unwrap();

    fill_cells(&mut color_state, &cells);

    assert!(equals(&blocks_to_fill_color(&board.state), &color_state));
}

#[test]
fn tests_test_cyan() {
    init_case(
        "cyan",
        vec![
            Cell { x: 3, y: 0 },
            Cell { x: 4, y: 0 },
            Cell { x: 5, y: 0 },
            Cell { x: 6, y: 0 },
        ],
    );
}

#[test]
fn tests_test_blue() {
    init_case(
        "blue",
        vec![
            Cell { x: 3, y: 0 },
            Cell { x: 3, y: 1 },
            Cell { x: 4, y: 1 },
            Cell { x: 5, y: 1 },
        ],
    );
}

#[test]
fn tests_test_orange() {
    init_case(
        "orange",
        vec![
            Cell { x: 3, y: 1 },
            Cell { x: 4, y: 1 },
            Cell { x: 5, y: 0 },
            Cell { x: 5, y: 1 },
        ],
    );
}

#[test]
fn tests_test_green() {
    init_case(
        "green",
        vec![
            Cell { x: 3, y: 1 },
            Cell { x: 4, y: 0 },
            Cell { x: 4, y: 1 },
            Cell { x: 5, y: 0 },
        ],
    );
}

#[test]
fn tests_test_red() {
    init_case(
        "red",
        vec![
            Cell { x: 3, y: 0 },
            Cell { x: 4, y: 0 },
            Cell { x: 4, y: 1 },
            Cell { x: 5, y: 1 },
        ],
    );
}

#[test]
fn tests_test_purple() {
    init_case(
        "purple",
        vec![
            Cell { x: 3, y: 1 },
            Cell { x: 4, y: 0 },
            Cell { x: 4, y: 1 },
            Cell { x: 5, y: 1 },
        ],
    );
}

#[test]
fn tests_test_yellow() {
    init_case(
        "yellow",
        vec![
            Cell { x: 4, y: 0 },
            Cell { x: 4, y: 1 },
            Cell { x: 5, y: 0 },
            Cell { x: 5, y: 1 },
        ],
    );
}

fn move_down_case(block_color: &str, cells: Vec<Cell>) {
    let mut color_state = from_char_to_color(&empty_board());
    let block = get_block(block_color);
    let mut board = Board::from_data(color_state.clone(), block, None).unwrap();
    board.move_down();

    fill_cells(&mut color_state, &cells);

    assert!(equals(&blocks_to_fill_color(&board.state), &color_state));
}

#[test]
fn test_cyan() {
    move_down_case(
        "cyan",
        vec![
            Cell { x: 3, y: 1 },
            Cell { x: 4, y: 1 },
            Cell { x: 5, y: 1 },
            Cell { x: 6, y: 1 },
        ],
    );
}

#[test]
fn test_blue() {
    move_down_case(
        "blue",
        vec![
            Cell { x: 3, y: 1 },
            Cell { x: 3, y: 2 },
            Cell { x: 4, y: 2 },
            Cell { x: 5, y: 2 },
        ],
    );
}

#[test]
fn test_orange() {
    move_down_case(
        "orange",
        vec![
            Cell { x: 3, y: 2 },
            Cell { x: 4, y: 2 },
            Cell { x: 5, y: 1 },
            Cell { x: 5, y: 2 },
        ],
    );
}

#[test]
fn test_green() {
    move_down_case(
        "green",
        vec![
            Cell { x: 3, y: 2 },
            Cell { x: 4, y: 1 },
            Cell { x: 4, y: 2 },
            Cell { x: 5, y: 1 },
        ],
    );
}

#[test]
fn test_red() {
    move_down_case(
        "red",
        vec![
            Cell { x: 3, y: 1 },
            Cell { x: 4, y: 1 },
            Cell { x: 4, y: 2 },
            Cell { x: 5, y: 2 },
        ],
    );
}

#[test]
fn test_purple() {
    move_down_case(
        "purple",
        vec![
            Cell { x: 3, y: 2 },
            Cell { x: 4, y: 1 },
            Cell { x: 4, y: 2 },
            Cell { x: 5, y: 2 },
        ],
    );
}

#[test]
fn test_yellow() {
    move_down_case(
        "yellow",
        vec![
            Cell { x: 4, y: 1 },
            Cell { x: 4, y: 2 },
            Cell { x: 5, y: 1 },
            Cell { x: 5, y: 2 },
        ],
    );
}

fn test_cannot_perform_bottom(block_color: &str, rect: Rect) {
    let color_state = from_char_to_color(&empty_board());
    let block = get_block(block_color);
    let mut board = Board::from_data(color_state, block, Some(rect)).unwrap();

    let state_before = board.state.clone();
    board.move_down();

    assert!(equals(
        &blocks_to_fill_color(&state_before),
        &blocks_to_fill_color(&board.state)
    ));
}

#[test]
fn move_down_test_cyan() {
    test_cannot_perform_bottom(
        "cyan",
        Rect {
            x: 3,
            y: 19,
            width: 4,
            height: 1,
        },
    );
}

#[test]
fn move_down_test_blue() {
    test_cannot_perform_bottom(
        "blue",
        Rect {
            x: 3,
            y: 18,
            width: 3,
            height: 2,
        },
    );
}

#[test]
fn move_down_test_orange() {
    test_cannot_perform_bottom(
        "orange",
        Rect {
            x: 3,
            y: 18,
            width: 3,
            height: 2,
        },
    );
}

#[test]
fn move_down_test_green() {
    test_cannot_perform_bottom(
        "green",
        Rect {
            x: 3,
            y: 18,
            width: 3,
            height: 2,
        },
    );
}

#[test]
fn move_down_test_red() {
    test_cannot_perform_bottom(
        "red",
        Rect {
            x: 3,
            y: 18,
            width: 3,
            height: 2,
        },
    );
}

#[test]
fn move_down_test_purple() {
    test_cannot_perform_bottom(
        "purple",
        Rect {
            x: 3,
            y: 18,
            width: 3,
            height: 2,
        },
    );
}

#[test]
fn move_down_test_yellow() {
    test_cannot_perform_bottom(
        "yellow",
        Rect {
            x: 4,
            y: 18,
            width: 2,
            height: 2,
        },
    );
}
