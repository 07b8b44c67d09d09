//! The game-state engine: the board, legality checking, move application and
//! terminal-condition detection for a gravity-based four-in-a-row game.

use vstd::prelude::*;

verus! {

/// Number of rows of the board; row 0 is the bottom row.
pub const ROWS: usize = 6;

/// Number of columns of the board.
pub const COLS: usize = 7;

/// A move: the column the acting player drops a piece into. The acting player
/// is implicit: it is the `next_player` of the state the action is applied to.
#[derive(Debug)]
pub struct Connect4Action {
    pub column: usize,
}

/// The board in column-major order (column `c`, row `r` sits at `c * ROWS + r`)
/// together with the player to move. An occupied cell holds the owning
/// player's index.
#[derive(Debug)]
pub struct Connect4State {
    pub board: Vec<Option<usize>>,
    pub next_player: usize,
}

/// The outcome of a finished game.
#[derive(Debug, PartialEq, Eq, Structural)]
pub enum Connect4Result {
    Winner(usize),
    Tie,
}

/// The terminal status of a state, recomputed fresh on every query.
#[derive(Debug, PartialEq, Eq, Structural)]
pub enum Connect4Check {
    InProgress,
    Over(Connect4Result),
}

/// Why a move was rejected.
#[derive(Debug, PartialEq, Eq, Structural)]
pub enum ActionError {
    /// The column index lies outside `[0, COLS)`.
    UnknownColumn(usize),
    /// The column exists but every row in it is occupied.
    FullColumn(usize),
}

/// The linear index of column `c`, row `r` in the column-major board.
pub open spec fn idx(c: int, r: int) -> int {
    c * (ROWS as int) + r
}

/// The cell of board `b` at column `c`, row `r`.
pub open spec fn cell(b: Seq<Option<usize>>, c: int, r: int) -> Option<usize> {
    b[idx(c, r)]
}

/// A well-formed board: full size, every occupied cell owned by player 0 or 1,
/// and within each column the occupied cells form a contiguous bottom-up
/// prefix (no piece floats above an empty cell).
pub open spec fn board_wf(b: Seq<Option<usize>>) -> bool {
    &&& b.len() == ROWS * COLS
    &&& forall|c: int, r: int|
        0 <= c < COLS && 0 <= r < ROWS ==> ((#[trigger] cell(b, c, r)) matches Some(p) ==> p < 2)
    &&& forall|c: int, r: int|
        0 <= c < COLS && 1 <= r < ROWS && (#[trigger] cell(b, c, r)) is Some ==> cell(
            b,
            c,
            r - 1,
        ) is Some
}

/// A well-formed state: well-formed board and a valid player to move.
pub open spec fn state_wf(s: Connect4State) -> bool {
    board_wf(s.board@) && s.next_player < 2
}

/// Player `p` owns the four vertically stacked cells starting at `(c, r)`.
pub open spec fn vert_at(b: Seq<Option<usize>>, p: usize, c: int, r: int) -> bool {
    &&& cell(b, c, r) == Some(p)
    &&& cell(b, c, r + 1) == Some(p)
    &&& cell(b, c, r + 2) == Some(p)
    &&& cell(b, c, r + 3) == Some(p)
}

/// Player `p` owns the four cells running rightward from `(c, r)`.
pub open spec fn horiz_at(b: Seq<Option<usize>>, p: usize, c: int, r: int) -> bool {
    &&& cell(b, c, r) == Some(p)
    &&& cell(b, c + 1, r) == Some(p)
    &&& cell(b, c + 2, r) == Some(p)
    &&& cell(b, c + 3, r) == Some(p)
}

/// Player `p` owns the four cells running up-right from `(c, r)`.
pub open spec fn diag_up_at(b: Seq<Option<usize>>, p: usize, c: int, r: int) -> bool {
    &&& cell(b, c, r) == Some(p)
    &&& cell(b, c + 1, r + 1) == Some(p)
    &&& cell(b, c + 2, r + 2) == Some(p)
    &&& cell(b, c + 3, r + 3) == Some(p)
}

/// Player `p` owns the four cells running down-right from `(c, r)`.
pub open spec fn diag_down_at(b: Seq<Option<usize>>, p: usize, c: int, r: int) -> bool {
    &&& cell(b, c, r) == Some(p)
    &&& cell(b, c + 1, r - 1) == Some(p)
    &&& cell(b, c + 2, r - 2) == Some(p)
    &&& cell(b, c + 3, r - 3) == Some(p)
}

/// Player `p` holds some vertical alignment.
pub open spec fn vert_win(b: Seq<Option<usize>>, p: usize) -> bool {
    exists|c: int, r: int|
        0 <= c < COLS && 0 <= r <= ROWS - 4 && #[trigger] vert_at(b, p, c, r)
}

/// Player `p` holds some horizontal alignment.
pub open spec fn horiz_win(b: Seq<Option<usize>>, p: usize) -> bool {
    exists|c: int, r: int|
        0 <= c <= COLS - 4 && 0 <= r < ROWS && #[trigger] horiz_at(b, p, c, r)
}

/// Player `p` holds some up-right diagonal alignment.
pub open spec fn diag_up_win(b: Seq<Option<usize>>, p: usize) -> bool {
    exists|c: int, r: int|
        0 <= c <= COLS - 4 && 0 <= r <= ROWS - 4 && #[trigger] diag_up_at(b, p, c, r)
}

/// Player `p` holds some down-right diagonal alignment.
pub open spec fn diag_down_win(b: Seq<Option<usize>>, p: usize) -> bool {
    exists|c: int, r: int|
        0 <= c <= COLS - 4 && 3 <= r < ROWS && #[trigger] diag_down_at(b, p, c, r)
}

/// Player `p` holds four in a row in some direction.
pub open spec fn has_win(b: Seq<Option<usize>>, p: usize) -> bool {
    vert_win(b, p) || horiz_win(b, p) || diag_up_win(b, p) || diag_down_win(b, p)
}

/// Every column's topmost cell is occupied. On a well-formed board this is
/// exactly "every cell is occupied".
pub open spec fn is_full(b: Seq<Option<usize>>) -> bool {
    forall|c: int| 0 <= c < COLS ==> (#[trigger] cell(b, c, ROWS - 1)) is Some
}

/// The game is still running: no alignment and at least one open cell.
pub open spec fn in_progress(b: Seq<Option<usize>>) -> bool {
    !has_win(b, 0) && !has_win(b, 1) && !is_full(b)
}

/// What a terminal-status value says of a board. For a board on which at most
/// one player holds an alignment this pins the status down uniquely.
pub open spec fn check_matches(b: Seq<Option<usize>>, chk: Connect4Check) -> bool {
    match chk {
        Connect4Check::InProgress => in_progress(b),
        Connect4Check::Over(outcome) => match outcome {
            Connect4Result::Winner(p) => p < 2 && has_win(b, p),
            Connect4Result::Tie => is_full(b) && !has_win(b, 0) && !has_win(b, 1),
        },
    }
}

/// Column `c` of state `s` can take a piece: it exists and its top cell is open.
pub open spec fn is_legal(s: Connect4State, c: int) -> bool {
    0 <= c < COLS && cell(s.board@, c, ROWS - 1) is None
}

/// Some column of `s` can take a piece.
pub open spec fn has_legal_move(s: Connect4State) -> bool {
    exists|c: int| #[trigger] is_legal(s, c)
}

/// On a board that is not full, some column is open for a move.
pub proof fn lemma_not_full_has_legal(s: Connect4State)
    requires
        !is_full(s.board@),
    ensures
        has_legal_move(s),
{
    assert(exists|c: int| 0 <= c < COLS && !((#[trigger] cell(s.board@, c, ROWS - 1)) is Some));
    let c = choose|c: int| 0 <= c < COLS && !((#[trigger] cell(s.board@, c, ROWS - 1)) is Some);
    assert(is_legal(s, c));
}

impl Default for Connect4State {
    /// A fresh game: the empty board with player 0 to move.
    fn default() -> (s: Self)
        ensures
            state_wf(s),
            s.board@.len() == ROWS * COLS,
            forall|i: int| 0 <= i < s.board@.len() ==> s.board@[i] is None,
            s.next_player == 0,
            in_progress(s.board@),
    {
        let mut board: Vec<Option<usize>> = Vec::new();
        let mut i: usize = 0;
        while i < ROWS * COLS
            invariant
                i <= ROWS * COLS,
                board@.len() == i,
                forall|j: int| 0 <= j < i ==> board@[j] is None,
            decreases ROWS * COLS - i,
        {
            board.push(None);
            i += 1;
        }
        let s = Connect4State { board, next_player: 0 };
        proof {
            assert(cell(s.board@, 0, ROWS - 1) is None);
        }
        s
    }
}

/// Scan for a vertical alignment, column by column, bottom row first.
#[verifier::rlimit(20)]
fn scan_vertical(state: &Connect4State) -> (found: Option<usize>)
    requires
        state_wf(*state),
    ensures
        found matches Some(p) ==> p < 2 && vert_win(state.board@, p),
        found is None ==> forall|p: usize, c: int, r: int|
            0 <= c < COLS && 0 <= r <= ROWS - 4 ==> !(#[trigger] vert_at(state.board@, p, c, r)),
{
    let mut col: usize = 0;
    while col < COLS
        invariant
            state_wf(*state),
            col <= COLS,
            forall|p: usize, c: int, r: int|
                0 <= c < col && 0 <= r <= ROWS - 4 ==> !(#[trigger] vert_at(state.board@, p, c, r)),
        decreases COLS - col,
    {
        let mut row: usize = 0;
        while row < ROWS - 3
            invariant
                state_wf(*state),
                col < COLS,
                row <= ROWS - 3,
                forall|p: usize, r: int|
                    0 <= r < row ==> !(#[trigger] vert_at(state.board@, p, col as int, r)),
            decreases ROWS - 3 - row,
        {
            let base = col * ROWS + row;
            match (state.board[base], state.board[base + 1], state.board[base + 2], state.board[base
                + 3]) {
                (Some(i), Some(j), Some(k), Some(l)) => {
                    if i == j && j == k && k == l {
                        proof {
                            assert(vert_at(state.board@, i, col as int, row as int));
                        }
                        return Some(i);
                    }
                },
                _ => {},
            }
            proof {
                assert forall|p: usize| !vert_at(state.board@, p, col as int, row as int) by {
                    assert(cell(state.board@, col as int, row as int) == state.board@[base as int]);
                }
            }
            row += 1;
        }
        col += 1;
    }
    None
}

/// Scan for a horizontal alignment, row by row, leftmost start first.
#[verifier::rlimit(20)]
fn scan_horizontal(state: &Connect4State) -> (found: Option<usize>)
    requires
        state_wf(*state),
    ensures
        found matches Some(p) ==> p < 2 && horiz_win(state.board@, p),
        found is None ==> forall|p: usize, c: int, r: int|
            0 <= c <= COLS - 4 && 0 <= r < ROWS ==> !(#[trigger] horiz_at(state.board@, p, c, r)),
{
    let mut row: usize = 0;
    while row < ROWS
        invariant
            state_wf(*state),
            row <= ROWS,
            forall|p: usize, c: int, r: int|
                0 <= c <= COLS - 4 && 0 <= r < row ==> !(#[trigger] horiz_at(state.board@, p, c, r)),
        decreases ROWS - row,
    {
        let mut col: usize = 0;
        while col < COLS - 3
            invariant
                state_wf(*state),
                row < ROWS,
                col <= COLS - 3,
                forall|p: usize, c: int|
                    0 <= c < col ==> !(#[trigger] horiz_at(state.board@, p, c, row as int)),
            decreases COLS - 3 - col,
        {
            match (
                state.board[col * ROWS + row],
                state.board[(col + 1) * ROWS + row],
                state.board[(col + 2) * ROWS + row],
                state.board[(col + 3) * ROWS + row],
            ) {
                (Some(i), Some(j), Some(k), Some(l)) => {
                    if i == j && j == k && k == l {
                        proof {
                            assert(horiz_at(state.board@, i, col as int, row as int));
                        }
                        return Some(i);
                    }
                },
                _ => {},
            }
            proof {
                assert forall|p: usize| !horiz_at(state.board@, p, col as int, row as int) by {
                    assert(cell(state.board@, col as int, row as int) == state.board@[(col * ROWS + row) as int]);
                    assert(cell(state.board@, col + 1, row as int) == state.board@[((col + 1) * ROWS + row) as int]);
                    assert(cell(state.board@, col + 2, row as int) == state.board@[((col + 2) * ROWS + row) as int]);
                    assert(cell(state.board@, col + 3, row as int) == state.board@[((col + 3) * ROWS + row) as int]);
                }
            }
            col += 1;
        }
        row += 1;
    }
    None
}

/// Scan for an up-right diagonal alignment.
#[verifier::rlimit(20)]
fn scan_diag_up(state: &Connect4State) -> (found: Option<usize>)
    requires
        state_wf(*state),
    ensures
        found matches Some(p) ==> p < 2 && diag_up_win(state.board@, p),
        found is None ==> forall|p: usize, c: int, r: int|
            0 <= c <= COLS - 4 && 0 <= r <= ROWS - 4 ==> !(#[trigger] diag_up_at(
                state.board@,
                p,
                c,
                r,
            )),
{
    let mut col: usize = 0;
    while col < COLS - 3
        invariant
            state_wf(*state),
            col <= COLS - 3,
            forall|p: usize, c: int, r: int|
                0 <= c < col && 0 <= r <= ROWS - 4 ==> !(#[trigger] diag_up_at(
                    state.board@,
                    p,
                    c,
                    r,
                )),
        decreases COLS - 3 - col,
    {
        let mut row: usize = 0;
        while row < ROWS - 3
            invariant
                state_wf(*state),
                col < COLS - 3,
                row <= ROWS - 3,
                forall|p: usize, r: int|
                    0 <= r < row ==> !(#[trigger] diag_up_at(state.board@, p, col as int, r)),
            decreases ROWS - 3 - row,
        {
            match (
                state.board[col * ROWS + row],
                state.board[(col + 1) * ROWS + row + 1],
                state.board[(col + 2) * ROWS + row + 2],
                state.board[(col + 3) * ROWS + row + 3],
            ) {
                (Some(i), Some(j), Some(k), Some(l)) => {
                    if i == j && j == k && k == l {
                        proof {
                            assert(diag_up_at(state.board@, i, col as int, row as int));
                        }
                        return Some(i);
                    }
                },
                _ => {},
            }
            proof {
                assert forall|p: usize| !diag_up_at(state.board@, p, col as int, row as int) by {
                    assert(cell(state.board@, col as int, row as int) == state.board@[(col * ROWS + row) as int]);
                    assert(cell(state.board@, col + 1, row + 1) == state.board@[((col + 1) * ROWS + row + 1) as int]);
                    assert(cell(state.board@, col + 2, row + 2) == state.board@[((col + 2) * ROWS + row + 2) as int]);
                    assert(cell(state.board@, col + 3, row + 3) == state.board@[((col + 3) * ROWS + row + 3) as int]);
                }
            }
            row += 1;
        }
        col += 1;
    }
    None
}

/// Scan for a down-right diagonal alignment.
#[verifier::rlimit(20)]
fn scan_diag_down(state: &Connect4State) -> (found: Option<usize>)
    requires
        state_wf(*state),
    ensures
        found matches Some(p) ==> p < 2 && diag_down_win(state.board@, p),
        found is None ==> forall|p: usize, c: int, r: int|
            0 <= c <= COLS - 4 && 3 <= r < ROWS ==> !(#[trigger] diag_down_at(
                state.board@,
                p,
                c,
                r,
            )),
{
    let mut col: usize = 0;
    while col < COLS - 3
        invariant
            state_wf(*state),
            col <= COLS - 3,
            forall|p: usize, c: int, r: int|
                0 <= c < col && 3 <= r < ROWS ==> !(#[trigger] diag_down_at(state.board@, p, c, r)),
        decreases COLS - 3 - col,
    {
        let mut row: usize = 3;
        while row < ROWS
            invariant
                state_wf(*state),
                col < COLS - 3,
                3 <= row <= ROWS,
                forall|p: usize, r: int|
                    3 <= r < row ==> !(#[trigger] diag_down_at(state.board@, p, col as int, r)),
            decreases ROWS - row,
        {
            match (
                state.board[col * ROWS + row],
                state.board[(col + 1) * ROWS + row - 1],
                state.board[(col + 2) * ROWS + row - 2],
                state.board[(col + 3) * ROWS + row - 3],
            ) {
                (Some(i), Some(j), Some(k), Some(l)) => {
                    if i == j && j == k && k == l {
                        proof {
                            assert(diag_down_at(state.board@, i, col as int, row as int));
                        }
                        return Some(i);
                    }
                },
                _ => {},
            }
            proof {
                assert forall|p: usize| !diag_down_at(state.board@, p, col as int, row as int) by {
                    assert(cell(state.board@, col as int, row as int) == state.board@[(col * ROWS + row) as int]);
                    assert(cell(state.board@, col + 1, row - 1) == state.board@[((col + 1) * ROWS + row - 1) as int]);
                    assert(cell(state.board@, col + 2, row - 2) == state.board@[((col + 2) * ROWS + row - 2) as int]);
                    assert(cell(state.board@, col + 3, row - 3) == state.board@[((col + 3) * ROWS + row - 3) as int]);
                }
            }
            row += 1;
        }
        col += 1;
    }
    None
}

/// Evaluate the terminal status of a state. A pure function of the board
/// contents: it scans the four alignment directions and returns the first
/// winner found, a tie when the board is full without an alignment, and
/// "in progress" otherwise.
pub fn check_state(state: &Connect4State) -> (chk: Connect4Check)
    requires
        state_wf(*state),
    ensures
        check_matches(state.board@, chk),
{
    match scan_vertical(state) {
        Some(p) => {
            return Connect4Check::Over(Connect4Result::Winner(p));
        },
        None => {},
    }
    match scan_horizontal(state) {
        Some(p) => {
            return Connect4Check::Over(Connect4Result::Winner(p));
        },
        None => {},
    }
    match scan_diag_up(state) {
        Some(p) => {
            return Connect4Check::Over(Connect4Result::Winner(p));
        },
        None => {},
    }
    match scan_diag_down(state) {
        Some(p) => {
            return Connect4Check::Over(Connect4Result::Winner(p));
        },
        None => {},
    }
    let mut col: usize = 0;
    while col < COLS
        invariant
            state_wf(*state),
            col <= COLS,
            !has_win(state.board@, 0),
            !has_win(state.board@, 1),
            forall|c: int| 0 <= c < col ==> (#[trigger] cell(state.board@, c, ROWS - 1)) is Some,
        decreases COLS - col,
    {
        if state.board[col * ROWS + ROWS - 1].is_none() {
            proof {
                assert(cell(state.board@, col as int, ROWS - 1) is None);
            }
            return Connect4Check::InProgress;
        }
        proof {
            assert(cell(state.board@, col as int, ROWS - 1) == state.board@[(col * ROWS + ROWS - 1) as int]);
        }
        col += 1;
    }
    Connect4Check::Over(Connect4Result::Tie)
}

impl Clone for Connect4State {
    /// An independent copy of the state: same board contents, same player to
    /// move.
    fn clone(&self) -> (other: Self)
        ensures
            other.board@ == self.board@,
            other.next_player == self.next_player,
    {
        let mut board: Vec<Option<usize>> = Vec::new();
        let mut i: usize = 0;
        while i < self.board.len()
            invariant
                i <= self.board@.len(),
                board@.len() == i,
                forall|j: int| 0 <= j < i ==> board@[j] == self.board@[j],
            decreases self.board@.len() - i,
        {
            board.push(self.board[i]);
            i += 1;
        }
        proof {
            assert(board@ =~= self.board@);
        }
        Connect4State { board, next_player: self.next_player }
    }
}

/// Evaluating one unchanged board twice gives one answer: the status that
/// `check_state` promises is unique, as long as the two players do not both
/// hold an alignment at once (a board no play that stops at a terminal
/// status ever shows).
pub proof fn lemma_check_state_deterministic(
    b: Seq<Option<usize>>,
    chk1: Connect4Check,
    chk2: Connect4Check,
)
    requires
        check_matches(b, chk1),
        check_matches(b, chk2),
        !(has_win(b, 0) && has_win(b, 1)),
    ensures
        chk1 == chk2,
{
}

/// The turn strictly alternates across successful applications: after one
/// move the other player is up, and after two the first player is up again.
pub proof fn lemma_next_player_alternates(s0: Connect4State, s1: Connect4State, s2: Connect4State)
    requires
        s0.next_player < 2,
        s1.next_player == 1 - s0.next_player,
        s2.next_player == 1 - s1.next_player,
    ensures
        s1.next_player != s0.next_player,
        s2.next_player == s0.next_player,
{
}

/// A full board without an alignment evaluates to a tie, never to an
/// in-progress status.
pub proof fn lemma_full_without_win_is_tie(b: Seq<Option<usize>>, chk: Connect4Check)
    requires
        check_matches(b, chk),
        is_full(b),
        !has_win(b, 0),
        !has_win(b, 1),
    ensures
        chk == Connect4Check::Over(Connect4Result::Tie),
{
}

/// The number of occupied cells of a board.
pub open spec fn occupied(b: Seq<Option<usize>>) -> int
    decreases b.len(),
{
    if b.len() == 0 {
        0
    } else {
        occupied(b.drop_last()) + if b.last() is Some {
            1int
        } else {
            0int
        }
    }
}

/// The occupied-cell count never exceeds the board size.
pub proof fn lemma_occupied_bounds(b: Seq<Option<usize>>)
    ensures
        0 <= occupied(b) <= b.len(),
    decreases b.len(),
{
    if b.len() > 0 {
        lemma_occupied_bounds(b.drop_last());
    }
}

/// Filling one empty cell raises the occupied-cell count by exactly one.
pub proof fn lemma_occupied_update(b: Seq<Option<usize>>, i: int, v: Option<usize>)
    requires
        0 <= i < b.len(),
        b[i] is None,
        v is Some,
    ensures
        occupied(b.update(i, v)) == occupied(b) + 1,
    decreases b.len(),
{
    let u = b.update(i, v);
    if i == b.len() - 1 {
        assert(u.drop_last() =~= b.drop_last());
    } else {
        assert(u.drop_last() =~= b.drop_last().update(i, v));
        lemma_occupied_update(b.drop_last(), i, v);
        assert(u.last() == b.last());
    }
}

/// Row `r` is where a piece dropped into column `c` lands: the lowest row of
/// the column whose cell is empty.
pub open spec fn drops_to(b: Seq<Option<usize>>, c: int, r: int) -> bool {
    &&& 0 <= r < ROWS
    &&& cell(b, c, r) is None
    &&& forall|q: int| 0 <= q < r ==> (#[trigger] cell(b, c, q)) is Some
}

/// Apply a move: drop the mover's piece into the lowest empty row of the
/// chosen column, hand the turn to the other player, and report the terminal
/// status of the updated state. Fails, leaving the state untouched, when the
/// column does not exist or is full.
pub fn apply_action(state: &mut Connect4State, action: &Connect4Action) -> (res: Result<
    Connect4Check,
    ActionError,
>)
    requires
        state_wf(*old(state)),
    ensures
        state_wf(*final(state)),
        res is Err ==> final(state).board@ == old(state).board@ && final(state).next_player == old(
            state,
        ).next_player,
        (res == Err::<Connect4Check, ActionError>(ActionError::UnknownColumn(action.column)))
            <==> action.column >= COLS,
        (res == Err::<Connect4Check, ActionError>(ActionError::FullColumn(action.column))) <==> (
        action.column < COLS && cell(old(state).board@, action.column as int, ROWS - 1) is Some),
        res is Ok <==> is_legal(*old(state), action.column as int),
        res matches Ok(chk) ==> {
            &&& exists|r: int|
                #[trigger] drops_to(old(state).board@, action.column as int, r)
                    && final(state).board@ == old(state).board@.update(
                    idx(action.column as int, r),
                    Some(old(state).next_player),
                )
            &&& final(state).next_player == 1 - old(state).next_player
            &&& occupied(final(state).board@) == occupied(old(state).board@) + 1
            &&& check_matches(final(state).board@, chk)
        },
{
    if action.column >= COLS {
        return Err(ActionError::UnknownColumn(action.column));
    }
    let col = action.column;
    let mut row: usize = 0;
    while row < ROWS
        invariant
            state_wf(*state),
            state.board@ == old(state).board@,
            state.next_player == old(state).next_player,
            col == action.column < COLS,
            row <= ROWS,
            forall|q: int| 0 <= q < row ==> (#[trigger] cell(state.board@, col as int, q)) is Some,
        decreases ROWS - row,
    {
        if state.board[col * ROWS + row].is_none() {
            let player = state.next_player;
            let position = col * ROWS + row;
            proof {
                assert(cell(state.board@, col as int, row as int) is None);
                assert(drops_to(old(state).board@, col as int, row as int));
                lemma_occupied_update(
                    old(state).board@,
                    idx(col as int, row as int),
                    Some(player),
                );
            }
            state.board.set(position, Some(player));
            state.next_player = 1 - player;
            proof {
                let b0 = old(state).board@;
                let b1 = state.board@;
                assert forall|c: int, r: int| 0 <= c < COLS && 0 <= r < ROWS && !(c == col && r
                    == row) implies cell(b1, c, r) == cell(b0, c, r) by {
                    assert(idx(c, r) != idx(col as int, row as int));
                }
                assert(cell(b1, col as int, row as int) == Some(player));
                assert(state_wf(*state));
                // the column's top cell was empty, by the bottom-up-fill invariant
                if cell(b0, col as int, ROWS - 1) is Some {
                    lemma_column_filled_down(b0, col as int, row as int);
                    assert(false);
                }
                assert(is_legal(*old(state), col as int));
            }
            let chk = check_state(state);
            return Ok(chk);
        }
        row += 1;
    }
    proof {
        assert(cell(state.board@, col as int, ROWS - 1) is Some);
    }
    Err(ActionError::FullColumn(col))
}

/// On a well-formed board, an occupied cell has every cell beneath it in the
/// same column occupied as well.
pub proof fn lemma_column_filled_down(b: Seq<Option<usize>>, c: int, r: int)
    requires
        board_wf(b),
        0 <= c < COLS,
        0 <= r < ROWS,
        cell(b, c, ROWS - 1) is Some,
    ensures
        cell(b, c, r) is Some,
    decreases ROWS - r,
{
    if r < ROWS - 1 {
        lemma_column_filled_down(b, c, r + 1);
    }
}

/// Whether `action` is a legal move at `state`: the column index is in range
/// and the column's topmost cell is empty.
pub fn check_action(state: &Connect4State, action: &Connect4Action) -> (legal: bool)
    requires
        state_wf(*state),
    ensures
        legal == is_legal(*state, action.column as int),
{
    if action.column >= COLS {
        return false;
    }
    state.board[action.column * ROWS + ROWS - 1].is_none()
}

} // verus!
