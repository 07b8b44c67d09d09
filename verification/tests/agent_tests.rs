use connect4::agents::{
    best_index, outcome_score, play, simulate_one, Agent, MctsAgent, RandAgent,
};
use connect4::game::{
    check_action, check_state, Connect4Check, Connect4Result, Connect4State, COLS, ROWS,
};

/// Build a state from per-column cell codes, bottom row first:
/// 0 and 1 are pieces of that player, 2 is an empty cell.
fn make_state(columns: [[u8; 6]; 7], next_player: usize) -> Connect4State {
    let mut board: Vec<Option<usize>> = vec![None; ROWS * COLS];
    for (c, column) in columns.iter().enumerate() {
        for (r, code) in column.iter().enumerate() {
            board[c * ROWS + r] = match code {
                0 => Some(0),
                1 => Some(1),
                _ => None,
            };
        }
    }
    Connect4State { board, next_player }
}

#[test]
fn outcome_score_counts_wins_losses_and_ties() {
    assert_eq!(outcome_score(&Connect4Result::Winner(0), 0), 1);
    assert_eq!(outcome_score(&Connect4Result::Winner(1), 0), -1);
    assert_eq!(outcome_score(&Connect4Result::Winner(1), 1), 1);
    assert_eq!(outcome_score(&Connect4Result::Tie, 0), 0);
    assert_eq!(outcome_score(&Connect4Result::Tie, 1), 0);
}

#[test]
fn best_index_takes_the_first_highest_total() {
    assert_eq!(best_index(&vec![3, 1, 2]), 0);
    assert_eq!(best_index(&vec![5, 7, 7]), 1);
    assert_eq!(best_index(&vec![-4, -2, -2, -9]), 1);
    assert_eq!(best_index(&vec![0]), 0);
}

#[test]
fn rand_agent_returns_legal_moves() {
    let state = Connect4State::default();
    let agent = RandAgent;
    for _ in 0..20 {
        let action = agent.choose_move(&state);
        assert!(check_action(&state, &action));
    }
}

#[test]
fn rand_agent_finds_the_single_open_column() {
    let mut columns = [[2u8; 6]; 7];
    for c in 0..7 {
        if c != 5 {
            columns[c] = [0, 1, 0, 1, 0, 1];
        }
    }
    let state = make_state(columns, 0);
    let action = RandAgent.choose_move(&state);
    assert_eq!(action.column, 5);
}

#[test]
fn mcts_agent_returns_legal_moves() {
    let state = Connect4State::default();
    let first = MctsAgent.choose_move(&state);
    assert!(check_action(&state, &first));
    let second = MctsAgent.choose_move(&state);
    assert!(check_action(&state, &second));
}

#[test]
fn play_runs_a_random_game_to_its_end() {
    let mut state = Connect4State::default();
    let outcome = play(&mut state, &RandAgent, &RandAgent).unwrap();
    match outcome {
        Connect4Result::Winner(player) => {
            assert!(player < 2);
            assert_eq!(
                check_state(&state),
                Connect4Check::Over(Connect4Result::Winner(player))
            );
        }
        Connect4Result::Tie => {
            assert_eq!(
                check_state(&state),
                Connect4Check::Over(Connect4Result::Tie)
            );
            assert!(state.board.iter().all(|cell| cell.is_some()));
        }
    }
}

#[test]
fn simulate_scores_an_already_won_position() {
    let state = make_state(
        [
            [0, 0, 0, 0, 2, 2],
            [1, 1, 1, 2, 2, 2],
            [2, 2, 2, 2, 2, 2],
            [2, 2, 2, 2, 2, 2],
            [2, 2, 2, 2, 2, 2],
            [2, 2, 2, 2, 2, 2],
            [2, 2, 2, 2, 2, 2],
        ],
        1,
    );
    assert_eq!(simulate_one(&state, 0), 1);
    assert_eq!(simulate_one(&state, 1), -1);
}

#[test]
fn simulate_scores_a_tied_position_as_zero() {
    let mut columns = [[2u8; 6]; 7];
    for c in 0..7 {
        for r in 0..6 {
            columns[c][r] = ((r + c / 2) % 2) as u8;
        }
    }
    let state = make_state(columns, 0);
    assert_eq!(simulate_one(&state, 0), 0);
    assert_eq!(simulate_one(&state, 1), 0);
}

#[test]
fn mcts_agent_avoids_the_column_that_loses_every_playout() {
    // Player 0 to move. Only columns 1 and 4 are open. Dropping in column 1
    // completes a vertical alignment at once; dropping in column 4 leaves
    // player 1 two replies, each of which completes a horizontal alignment,
    // so every playout from that successor is a loss.
    let state = make_state(
        [
            [1, 0, 0, 1, 1, 0],
            [0, 0, 0, 2, 2, 2],
            [0, 1, 0, 1, 1, 0],
            [1, 0, 1, 1, 0, 1],
            [0, 1, 1, 0, 2, 2],
            [0, 0, 1, 0, 0, 1],
            [1, 1, 0, 0, 1, 1],
        ],
        0,
    );
    assert_eq!(check_state(&state), Connect4Check::InProgress);
    assert!(check_action(&state, &connect4::game::Connect4Action { column: 1 }));
    assert!(check_action(&state, &connect4::game::Connect4Action { column: 4 }));

    let action = MctsAgent.choose_move(&state);
    assert_eq!(action.column, 1);
}
