use connect4::game::{
    apply_action, check_action, check_state, ActionError, Connect4Action, Connect4Check,
    Connect4Result, Connect4State, COLS, ROWS,
};

/// Build a state from per-column cell codes, bottom row first:
/// 0 and 1 are pieces of that player, 2 is an empty cell.
fn make_state(columns: [[u8; 6]; 7], next_player: usize) -> Connect4State {
    let mut board: Vec<Option<usize>> = vec![None; ROWS * COLS];
    for (c, column) in columns.iter().enumerate() {
        for (r, code) in column.iter().enumerate() {
            board[c * ROWS + r] = match code {
                0 => Some(0),
                1 => Some(1),
                _ => None,
            };
        }
    }
    Connect4State { board, next_player }
}

fn occupied_cells(state: &Connect4State) -> usize {
    state.board.iter().filter(|cell| cell.is_some()).count()
}

#[test]
fn new_game_is_empty_and_in_progress() {
    let state = Connect4State::default();
    assert_eq!(state.board.len(), ROWS * COLS);
    assert!(state.board.iter().all(|cell| cell.is_none()));
    assert_eq!(state.next_player, 0);
    assert_eq!(check_state(&state), Connect4Check::InProgress);
}

#[test]
fn evaluate_is_pure() {
    let state = make_state(
        [
            [0, 2, 2, 2, 2, 2],
            [0, 2, 2, 2, 2, 2],
            [0, 2, 2, 2, 2, 2],
            [1, 2, 2, 2, 2, 2],
            [2, 2, 2, 2, 2, 2],
            [2, 2, 2, 2, 2, 2],
            [2, 2, 2, 2, 2, 2],
        ],
        1,
    );
    let first = check_state(&state);
    let second = check_state(&state);
    assert_eq!(first, second);
}

#[test]
fn horizontal_near_miss_is_in_progress() {
    let state = make_state(
        [
            [0, 2, 2, 2, 2, 2],
            [0, 2, 2, 2, 2, 2],
            [0, 2, 2, 2, 2, 2],
            [1, 2, 2, 2, 2, 2],
            [2, 2, 2, 2, 2, 2],
            [2, 2, 2, 2, 2, 2],
            [2, 2, 2, 2, 2, 2],
        ],
        1,
    );
    assert_eq!(check_state(&state), Connect4Check::InProgress);
}

#[test]
fn full_board_without_alignment_is_a_tie() {
    // Cell (c, r) holds player (r + c / 2) % 2: every straight line of four
    // mixes both players.
    let mut columns = [[2u8; 6]; 7];
    for c in 0..7 {
        for r in 0..6 {
            columns[c][r] = ((r + c / 2) % 2) as u8;
        }
    }
    let state = make_state(columns, 0);
    assert_eq!(
        check_state(&state),
        Connect4Check::Over(Connect4Result::Tie)
    );
}

#[test]
fn horizontal_win_is_detected() {
    let state = make_state(
        [
            [1, 2, 2, 2, 2, 2],
            [1, 2, 2, 2, 2, 2],
            [1, 2, 2, 2, 2, 2],
            [1, 2, 2, 2, 2, 2],
            [0, 0, 0, 2, 2, 2],
            [2, 2, 2, 2, 2, 2],
            [2, 2, 2, 2, 2, 2],
        ],
        0,
    );
    assert_eq!(
        check_state(&state),
        Connect4Check::Over(Connect4Result::Winner(1))
    );
}

#[test]
fn diagonal_up_win_is_detected() {
    let state = make_state(
        [
            [0, 2, 2, 2, 2, 2],
            [1, 0, 2, 2, 2, 2],
            [1, 1, 0, 2, 2, 2],
            [1, 1, 1, 0, 2, 2],
            [2, 2, 2, 2, 2, 2],
            [2, 2, 2, 2, 2, 2],
            [2, 2, 2, 2, 2, 2],
        ],
        1,
    );
    assert_eq!(
        check_state(&state),
        Connect4Check::Over(Connect4Result::Winner(0))
    );
}

#[test]
fn diagonal_down_win_is_detected() {
    let state = make_state(
        [
            [0, 0, 0, 1, 2, 2],
            [0, 0, 1, 2, 2, 2],
            [0, 1, 2, 2, 2, 2],
            [1, 2, 2, 2, 2, 2],
            [2, 2, 2, 2, 2, 2],
            [2, 2, 2, 2, 2, 2],
            [2, 2, 2, 2, 2, 2],
        ],
        1,
    );
    assert_eq!(
        check_state(&state),
        Connect4Check::Over(Connect4Result::Winner(1))
    );
}

#[test]
fn check_action_accepts_open_columns_only() {
    let mut columns = [[2u8; 6]; 7];
    columns[2] = [0, 1, 0, 1, 0, 1]; // column 2 filled to the top
    let state = make_state(columns, 0);
    assert!(check_action(&state, &Connect4Action { column: 0 }));
    assert!(!check_action(&state, &Connect4Action { column: 2 }));
    assert!(!check_action(&state, &Connect4Action { column: 7 }));
}

#[test]
fn apply_fills_lowest_row_and_alternates_turns() {
    let mut state = Connect4State::default();

    let first = apply_action(&mut state, &Connect4Action { column: 3 });
    assert_eq!(first, Ok(Connect4Check::InProgress));
    assert_eq!(state.board[3 * ROWS], Some(0));
    assert_eq!(state.next_player, 1);
    assert_eq!(occupied_cells(&state), 1);

    let second = apply_action(&mut state, &Connect4Action { column: 3 });
    assert_eq!(second, Ok(Connect4Check::InProgress));
    assert_eq!(state.board[3 * ROWS + 1], Some(1));
    assert_eq!(state.next_player, 0);
    assert_eq!(occupied_cells(&state), 2);

    let third = apply_action(&mut state, &Connect4Action { column: 0 });
    assert_eq!(third, Ok(Connect4Check::InProgress));
    assert_eq!(state.next_player, 1);
    assert_eq!(occupied_cells(&state), 3);
}

#[test]
fn unknown_column_is_rejected_without_mutation() {
    let mut state = Connect4State::default();
    let before = state.board.clone();
    let result = apply_action(&mut state, &Connect4Action { column: 7 });
    assert_eq!(result, Err(ActionError::UnknownColumn(7)));
    assert_eq!(state.board, before);
    assert_eq!(state.next_player, 0);
}

#[test]
fn full_column_is_rejected_without_mutation() {
    let mut state = Connect4State::default();
    for _ in 0..ROWS {
        apply_action(&mut state, &Connect4Action { column: 0 }).unwrap();
    }
    let before = state.board.clone();
    let mover_before = state.next_player;
    let result = apply_action(&mut state, &Connect4Action { column: 0 });
    assert_eq!(result, Err(ActionError::FullColumn(0)));
    assert_eq!(state.board, before);
    assert_eq!(state.next_player, mover_before);
}

#[test]
fn four_vertical_drops_win_the_game() {
    let mut state = Connect4State::default();
    // player 0 stacks column 3, player 1 answers in column 0
    for turn in 0..6 {
        let column = if turn % 2 == 0 { 3 } else { 0 };
        let check = apply_action(&mut state, &Connect4Action { column }).unwrap();
        assert_eq!(check, Connect4Check::InProgress);
    }
    let check = apply_action(&mut state, &Connect4Action { column: 3 }).unwrap();
    assert_eq!(check, Connect4Check::Over(Connect4Result::Winner(0)));
    assert_eq!(
        check_state(&state),
        Connect4Check::Over(Connect4Result::Winner(0))
    );
}
