use crate::board::BoardView;
use crate::cell::CellState;
use crate::environment::reward_for;
use vstd::prelude::*;

verus! {

/// How many of the first `n` cells of `row` carry a mark.
pub open spec fn marked_in(row: Seq<CellState>, n: nat) -> nat
    decreases n,
{
    if n == 0 {
        0
    } else {
        marked_in(row, (n - 1) as nat) + if row[n - 1].is_player() {
            1nat
        } else {
            0nat
        }
    }
}

/// How many cells of the first `n` rows of `cells` carry a mark.
pub open spec fn marked_rows(cells: Seq<Seq<CellState>>, n: nat) -> nat
    decreases n,
{
    if n == 0 {
        0
    } else {
        marked_rows(cells, (n - 1) as nat) + marked_in(cells[n - 1], cells[n - 1].len())
    }
}

impl BoardView {
    /// The number of moves that the board holds.
    pub open spec fn marks(self) -> nat {
        marked_rows(self.cells, self.size())
    }
}

/// A row holds no more marks than cells, and as many only where no cell is
/// empty.
pub proof fn lemma_marked_in_bound(row: Seq<CellState>, n: nat)
    requires
        n <= row.len(),
    ensures
        marked_in(row, n) <= n,
        marked_in(row, n) == n <==> forall|i: int| 0 <= i < n ==> row[i].is_player(),
    decreases n,
{
    if n > 0 {
        lemma_marked_in_bound(row, (n - 1) as nat);
    }
}

/// Marking an empty cell of a row adds one to the count of every prefix that
/// holds the cell, and nothing to the others.
pub proof fn lemma_marked_in_update(row: Seq<CellState>, n: nat, col: int, mark: CellState)
    requires
        n <= row.len(),
        0 <= col < row.len(),
        row[col] == CellState::Empty,
        mark.is_player(),
    ensures
        marked_in(row.update(col, mark), n) == marked_in(row, n) + if col < n {
            1nat
        } else {
            0nat
        },
    decreases n,
{
    if n > 0 {
        lemma_marked_in_update(row, (n - 1) as nat, col, mark);
    }
}

/// Replacing one row changes the count of the rows by the difference between
/// the new row's marks and the old row's.
pub proof fn lemma_marked_rows_update(
    cells: Seq<Seq<CellState>>,
    n: nat,
    row: int,
    with: Seq<CellState>,
)
    requires
        n <= cells.len(),
        0 <= row < cells.len(),
    ensures
        marked_rows(cells.update(row, with), n) == marked_rows(cells, n) + if row < n {
            marked_in(with, with.len()) - marked_in(cells[row], cells[row].len())
        } else {
            0
        },
    decreases n,
{
    if n > 0 {
        lemma_marked_rows_update(cells, (n - 1) as nat, row, with);
    }
}

/// The first `n` rows of a square grid of side `size` hold at most
/// `n * size` marks, and that many only where none of their cells is empty.
pub proof fn lemma_marked_rows_bound(cells: Seq<Seq<CellState>>, size: nat, n: nat)
    requires
        n <= cells.len(),
        forall|r: int| 0 <= r < cells.len() ==> (#[trigger] cells[r]).len() == size,
    ensures
        marked_rows(cells, n) <= n * size,
        marked_rows(cells, n) == n * size <==> forall|r: int, c: int|
            0 <= r < n && 0 <= c < size ==> (#[trigger] cells[r][c]).is_player(),
    decreases n,
{
    if n > 0 {
        let before = (n - 1) as nat;
        lemma_marked_rows_bound(cells, size, before);
        lemma_marked_in_bound(cells[n - 1], size);
        assert(n * size == before * size + size) by (nonlinear_arith)
            requires
                n == before + 1,
        ;
        if marked_rows(cells, n) == n * size {
            assert forall|r: int, c: int| 0 <= r < n && 0 <= c < size implies (
            #[trigger] cells[r][c]).is_player() by {
                if r == n - 1 {
                    assert(cells[n - 1][c].is_player());
                }
            }
        }
        if forall|r: int, c: int|
            0 <= r < n && 0 <= c < size ==> (#[trigger] cells[r][c]).is_player() {
            let last = cells[n - 1];
            assert forall|c: int| 0 <= c < size implies (#[trigger] last[c]).is_player() by {
                assert(cells[n - 1][c].is_player());
            }
        }
    } else {
        assert(0 * size == 0) by (nonlinear_arith);
    }
}

/// A board holds at most as many marks as it has cells, and as many exactly
/// when it is full.
pub proof fn lemma_marks_bound(board: BoardView)
    requires
        board.wf(),
    ensures
        board.marks() <= board.size() * board.size(),
        board.marks() == board.size() * board.size() <==> board.is_full(),
{
    lemma_marked_rows_bound(board.cells, board.size(), board.size());
}

/// Every valid move adds one mark to the board; any other leaves the count.
pub proof fn lemma_move_adds_mark(board: BoardView, row: int, col: int)
    requires
        board.wf(),
    ensures
        board.play(row, col).marks() == board.marks() + if board.is_valid_move(row, col) {
            1nat
        } else {
            0nat
        },
{
    if board.is_valid_move(row, col) {
        let old_row = board.cells[row];
        let new_row = old_row.update(col, board.turn);
        lemma_marked_in_update(old_row, old_row.len(), col, board.turn);
        lemma_marked_rows_update(board.cells, board.size(), row, new_row);
    }
}

/// An episode ends: while the reward is 0 the board is not full, so that a
/// valid move is left, and each valid move adds a mark to a board that holds
/// no more marks than cells.
pub proof fn lemma_episode_goes_on(board: BoardView, player: CellState)
    requires
        board.wf(),
        reward_for(board, player) == 0,
    ensures
        board.marks() < board.size() * board.size(),
        exists|row: int, col: int| board.is_valid_move(row, col),
{
    lemma_marks_bound(board);
    let (row, col) = choose|row: int, col: int|
        0 <= row < board.size() && 0 <= col < board.size() && !(#[trigger] board.cells[row][col]
            != CellState::Empty);
    assert(board.is_valid_move(row, col));
}

} // verus!
