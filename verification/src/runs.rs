use crate::board::BoardView;
use crate::board::lemma_first_winner_stable;
use crate::cell::CellState;
use crate::diagonals::cell_at;
use crate::diagonals::diagonal_lines;
use crate::diagonals::is_straight;
use crate::diagonals::lemma_diagonal_cover;
use crate::diagonals::lemma_diagonal_lines_shape;
use crate::diagonals::line_on_board;
use crate::diagonals::on_board;
use crate::diagonals::run_on_board;
use crate::diagonals::Direction;
use crate::streak::completes_at;
use crate::streak::lemma_first_completion;
use crate::streak::lemma_line_winner;
use crate::streak::first_completion;
use crate::streak::line_winner;
use vstd::prelude::*;

verus! {

impl BoardView {
    /// `player` holds the cells of a run of the winning length that starts
    /// at `(row, col)` and goes in direction `dir` without leaving the board.
    pub open spec fn has_run(self, player: CellState, row: int, col: int, dir: Direction) -> bool {
        &&& player.is_player()
        &&& run_on_board(self.size(), self.run_length, row, col, dir)
        &&& forall|i: int|
            0 <= i < self.run_length ==> self.cells[(#[trigger] cell_at(row, col, dir, i)).0][cell_at(
                row,
                col,
                dir,
                i,
            ).1] == player
    }

    /// `player` holds a run of the winning length somewhere on the board.
    pub open spec fn has_some_run(self, player: CellState) -> bool {
        exists|row: int, col: int, dir: Direction| self.has_run(player, row, col, dir)
    }
}

/// Where the first `n` lines have a winner, one of them is the first to have
/// one, and the winner is that line's.
pub proof fn lemma_first_winner_line(board: BoardView, lines: Seq<Seq<(int, int)>>, n: nat) -> (at:
    int)
    requires
        board.first_winner(lines, n) is Some,
    ensures
        0 <= at < n,
        board.first_winner(lines, at as nat) is None,
        line_winner(board.marks_along(lines[at]), board.run_length) == board.first_winner(
            lines,
            n,
        ),
    decreases n,
{
    if board.first_winner(lines, (n - 1) as nat) is Some {
        lemma_first_winner_line(board, lines, (n - 1) as nat)
    } else {
        n - 1
    }
}

/// Each scan line lies on the board and is straight in one of the four
/// directions, which is returned.
pub proof fn lemma_scan_line_shape(board: BoardView, i: int) -> (dir: Direction)
    requires
        board.wf(),
        0 <= i < board.scan_lines().len(),
    ensures
        line_on_board(board.size(), board.scan_lines()[i]),
        is_straight(board.scan_lines()[i], dir),
{
    let n = board.size();
    let k = board.run_length;
    let main_len = diagonal_lines(n, k, Direction::Main).len();
    if i < n {
        Direction::Across
    } else if i < 2 * n {
        Direction::Down
    } else if i < 2 * n + main_len {
        lemma_diagonal_lines_shape(n, k, Direction::Main, i - 2 * n);
        Direction::Main
    } else {
        lemma_diagonal_lines_shape(n, k, Direction::Anti, i - 2 * n - main_len);
        Direction::Anti
    }
}

/// Soundness of the search: whoever is reported as winner is a player and
/// holds a run of the winning length on the board.
pub proof fn lemma_winner_holds_run(board: BoardView)
    requires
        board.wf(),
        board.winner() is Some,
    ensures
        board.winner()->0.is_player(),
        board.has_some_run(board.winner()->0),
{
    let lines = board.scan_lines();
    let k = board.run_length;
    let player = board.winner()->0;
    let at = lemma_first_winner_line(board, lines, lines.len());
    let dir = lemma_scan_line_shape(board, at);
    let line = lines[at];
    let marks = board.marks_along(line);
    lemma_first_completion(marks, k, marks.len());
    let end = first_completion(marks, k, marks.len())->0;
    let first = end - k + 1;
    let row = line[first].0;
    let col = line[first].1;
    assert forall|i: int| 0 <= i < k implies #[trigger] cell_at(row, col, dir, i) == line[first
        + i] by {
        assert(line[first] == cell_at(line[0].0, line[0].1, dir, first));
        assert(line[first + i] == cell_at(line[0].0, line[0].1, dir, first + i));
    }
    assert forall|i: int| 0 <= i < k implies on_board(
        board.size(),
        #[trigger] cell_at(row, col, dir, i),
    ) by {
        assert(on_board(board.size(), line[first + i]));
    }
    assert forall|i: int| 0 <= i < k implies board.cells[(#[trigger] cell_at(
        row,
        col,
        dir,
        i,
    )).0][cell_at(row, col, dir, i).1] == player by {
        assert(marks[first + i] == marks[end]);
    }
    assert(board.has_run(player, row, col, dir));
}

/// Where a run stands in the search: the scan line that holds it and the
/// position in that line at which it is complete. Every run of the winning
/// length, wherever it stands and in whichever of the four directions it
/// goes, lies on a scan line.
pub proof fn lemma_run_position(
    board: BoardView,
    player: CellState,
    row: int,
    col: int,
    dir: Direction,
) -> (at: (int, int))
    requires
        board.wf(),
        board.has_run(player, row, col, dir),
    ensures
        0 <= at.0 < board.scan_lines().len(),
        completes_at(board.marks_along(board.scan_lines()[at.0]), board.run_length, at.1),
        board.marks_along(board.scan_lines()[at.0])[at.1] == player,
{
    let n = board.size();
    let k = board.run_length;
    let lines = board.scan_lines();
    let main_len = diagonal_lines(n, k, Direction::Main).len();
    assert(on_board(n, cell_at(row, col, dir, 0)));
    assert(on_board(n, cell_at(row, col, dir, k - 1)));
    let (at, offset): (int, int) = match dir {
        Direction::Across => (row, col),
        Direction::Down => (n + col, row),
        Direction::Main => {
            let found = lemma_diagonal_cover(n, k, dir, row, col);
            (2 * n + found.0, found.1)
        },
        Direction::Anti => {
            let found = lemma_diagonal_cover(n, k, dir, row, col);
            (2 * n + main_len + found.0, found.1)
        },
    };
    let line = lines[at];
    assert(0 <= at < lines.len());
    assert(0 <= offset && offset + k <= line.len());
    assert forall|i: int| 0 <= i < k implies line[offset + i] == cell_at(row, col, dir, i) by {}
    let marks = board.marks_along(line);
    let end = offset + k - 1;
    assert forall|j: int| end - k < j <= end implies marks[j] == player by {
        assert(line[offset + (j - offset)] == cell_at(row, col, dir, j - offset));
    }
    (at, end)
}

/// Completeness of the search: a run of the winning length, wherever it
/// stands and in whichever of the four directions it goes, is not missed.
pub proof fn lemma_run_is_found(
    board: BoardView,
    player: CellState,
    row: int,
    col: int,
    dir: Direction,
)
    requires
        board.wf(),
        board.has_run(player, row, col, dir),
    ensures
        board.winner() is Some,
{
    let lines = board.scan_lines();
    let at = lemma_run_position(board, player, row, col, dir);
    lemma_line_winner(board.marks_along(lines[at.0]), board.run_length);
    assert(board.first_winner(lines, (at.0 + 1) as nat) is Some);
    lemma_first_winner_stable(board, lines, (at.0 + 1) as nat, lines.len());
}

/// The order of the search decides between several runs: a player's run
/// that is complete at position `end` of scan line `at` wins where every run
/// that is complete on an earlier scan line, or earlier on the same line, is
/// that player's too.
pub proof fn lemma_earliest_run_wins(board: BoardView, player: CellState, at: int, end: int)
    requires
        board.wf(),
        0 <= at < board.scan_lines().len(),
        completes_at(board.marks_along(board.scan_lines()[at]), board.run_length, end),
        board.marks_along(board.scan_lines()[at])[end] == player,
        forall|l: int, e: int|
            (0 <= l < at || (l == at && e < end)) && completes_at(
                board.marks_along(#[trigger] board.scan_lines()[l]),
                board.run_length,
                e,
            ) ==> #[trigger] board.marks_along(board.scan_lines()[l])[e] == player,
    ensures
        board.winner() == Some(player),
{
    let lines = board.scan_lines();
    let k = board.run_length;
    lemma_line_winner(board.marks_along(lines[at]), k);
    assert(board.first_winner(lines, (at + 1) as nat) is Some);
    lemma_first_winner_stable(board, lines, (at + 1) as nat, lines.len());
    let first = lemma_first_winner_line(board, lines, (at + 1) as nat);
    let marks = board.marks_along(lines[first]);
    lemma_first_completion(marks, k, marks.len());
    let e = first_completion(marks, k, marks.len())->0;
    assert(completes_at(board.marks_along(board.scan_lines()[first]), k, e));
    if first == at && e != end {
        assert(e < end);
    }
    assert(board.marks_along(board.scan_lines()[first])[e] == player);
}

/// Before the first move a board of at least one cell is well formed, not
/// full, and without a winner.
pub proof fn lemma_initial_board(size: nat, run_length: nat)
    requires
        size >= 1,
        run_length >= 1,
    ensures
        BoardView::initial(size, run_length).wf(),
        !BoardView::initial(size, run_length).is_full(),
        BoardView::initial(size, run_length).winner() is None,
{
    let board = BoardView::initial(size, run_length);
    assert(board.cells[0][0] == CellState::Empty);
    if board.winner() is Some {
        lemma_winner_holds_run(board);
        let player = board.winner()->0;
        let (row, col, dir) = choose|row: int, col: int, dir: Direction|
            board.has_run(player, row, col, dir);
        assert(on_board(size, cell_at(row, col, dir, 0)));
        assert(board.cells[cell_at(row, col, dir, 0).0][cell_at(row, col, dir, 0).1] == player);
    }
}

/// A move keeps the board well formed and its size and run length as they
/// were; a valid move fills one empty cell with the mover's mark, leaves every
/// other cell alone, and hands the turn to the other player.
pub proof fn lemma_play(board: BoardView, row: int, col: int)
    requires
        board.wf(),
    ensures
        board.play(row, col).wf(),
        board.play(row, col).size() == board.size(),
        board.play(row, col).run_length == board.run_length,
        !board.is_valid_move(row, col) ==> board.play(row, col) == board,
        board.is_valid_move(row, col) ==> {
            &&& board.play(row, col).cells[row][col] == board.turn
            &&& board.play(row, col).turn != board.turn
            &&& !board.play(row, col).is_valid_move(row, col)
            &&& forall|r: int, c: int|
                0 <= r < board.size() && 0 <= c < board.size() && (r != row || c != col)
                    ==> board.play(row, col).cells[r][c] == board.cells[r][c]
        },
{
    if board.is_valid_move(row, col) {
        let after = board.play(row, col);
        assert forall|r: int| 0 <= r < after.size() implies (#[trigger] after.cells[r]).len()
            == after.size() by {
            assert(board.cells[r].len() == board.size());
        }
    }
}

} // verus!
