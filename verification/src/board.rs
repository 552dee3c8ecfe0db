use crate::cell::CellState;
use crate::diagonals::calculate_diagonals_coords;
use crate::diagonals::coords_of;
use crate::diagonals::diagonal_lines;
use crate::diagonals::lines_of;
use crate::diagonals::DiagonalCoord;
use crate::diagonals::lemma_diagonal_lines_shape;
use crate::diagonals::line_on_board;
use crate::diagonals::on_board;
use crate::diagonals::segment;
use crate::diagonals::Direction;
use crate::runs::lemma_initial_board;
use crate::streak::completes_at;
use crate::streak::first_completion;
use crate::streak::lemma_completion_stable;
use crate::streak::line_winner;
use vstd::prelude::*;

verus! {

/// Why a board cannot be built.
#[derive(Clone, Copy, Debug, PartialEq, Eq, Structural)]
pub enum ConfigError {
    /// The board would have no cell.
    ZeroSize,
    /// A run of no marks would win before the first move.
    ZeroRunLength,
}

/// A grid of cells, row by row.
pub type Grid = Vec<Vec<CellState>>;

/// A grid read as a sequence of rows of cells.
pub open spec fn grid_view(grid: Seq<Vec<CellState>>) -> Seq<Seq<CellState>> {
    Seq::new(grid.len(), |r: int| grid[r]@)
}

/// The mathematical content of a board.
pub struct BoardView {
    /// The marks, row by row.
    pub cells: Seq<Seq<CellState>>,
    /// The player to move.
    pub turn: CellState,
    /// How many equal marks in a line win the game.
    pub run_length: nat,
}

impl BoardView {
    /// The number of rows, which is also the number of columns.
    pub open spec fn size(self) -> nat {
        self.cells.len()
    }

    /// A square grid with at least one cell, a positive run length and a
    /// player to move.
    pub open spec fn wf(self) -> bool {
        &&& self.size() >= 1
        &&& self.run_length >= 1
        &&& self.turn.is_player()
        &&& forall|r: int| 0 <= r < self.size() ==> (#[trigger] self.cells[r]).len() == self.size()
    }

    /// The board before the first move.
    pub open spec fn initial(size: nat, run_length: nat) -> BoardView {
        BoardView {
            cells: Seq::new(size, |r: int| Seq::new(size, |c: int| CellState::Empty)),
            turn: CellState::X,
            run_length,
        }
    }

    /// The cell lies on the board and is empty.
    pub open spec fn is_valid_move(self, row: int, col: int) -> bool {
        &&& 0 <= row < self.size()
        &&& 0 <= col < self.size()
        &&& self.cells[row][col] == CellState::Empty
    }

    /// The board after the player to move has asked for `(row, col)`: marked
    /// and handed to the other player where the move is valid, unchanged where
    /// it is not.
    pub open spec fn play(self, row: int, col: int) -> BoardView {
        if self.is_valid_move(row, col) {
            BoardView {
                cells: self.cells.update(row, self.cells[row].update(col, self.turn)),
                turn: self.turn.spec_opponent(),
                run_length: self.run_length,
            }
        } else {
            self
        }
    }

    /// The lines that are searched for a run, in the order of the search:
    /// the rows from the top, the columns from the left, the diagonals
    /// parallel to the main diagonal, and those parallel to the anti-diagonal.
    pub open spec fn scan_lines(self) -> Seq<Seq<(int, int)>> {
        Seq::new(self.size(), |r: int| segment(r, 0, self.size(), Direction::Across))
            + Seq::new(self.size(), |c: int| segment(0, c, self.size(), Direction::Down))
            + diagonal_lines(self.size(), self.run_length, Direction::Main)
            + diagonal_lines(self.size(), self.run_length, Direction::Anti)
    }

    /// The marks met when `line` is walked over the grid.
    pub open spec fn marks_along(self, line: Seq<(int, int)>) -> Seq<CellState> {
        Seq::new(line.len(), |i: int| self.cells[line[i].0][line[i].1])
    }

    /// The winner of the first among the first `n` of `lines` that has one.
    pub open spec fn first_winner(self, lines: Seq<Seq<(int, int)>>, n: nat) -> Option<CellState>
        decreases n,
    {
        if n == 0 {
            None
        } else {
            match self.first_winner(lines, (n - 1) as nat) {
                Some(player) => Some(player),
                None => line_winner(self.marks_along(lines[n - 1]), self.run_length),
            }
        }
    }

    /// The player whose run is found first when the scan lines are searched
    /// in order, each from its first cell to its last.
    pub open spec fn winner(self) -> Option<CellState> {
        self.first_winner(self.scan_lines(), self.scan_lines().len())
    }

    /// `cells` lists the empty cells of the board, each once, row by row from
    /// the top and within a row from the left.
    pub open spec fn lists_empty_cells(self, cells: Seq<(int, int)>) -> bool {
        &&& forall|i: int|
            0 <= i < cells.len() ==> self.is_valid_move((#[trigger] cells[i]).0, cells[i].1)
        &&& forall|i: int, j: int|
            0 <= i < j < cells.len() ==> row_major_before(#[trigger] cells[i], #[trigger] cells[j])
        &&& forall|r: int, c: int| #[trigger]
            self.is_valid_move(r, c) ==> exists|i: int|
                0 <= i < cells.len() && #[trigger] cells[i] == (r, c)
    }

    /// No cell is empty.
    pub open spec fn is_full(self) -> bool {
        forall|r: int, c: int|
            0 <= r < self.size() && 0 <= c < self.size() ==> (#[trigger] self.cells[r][c])
                != CellState::Empty
    }
}

/// A board of arbitrary size.
#[derive(Debug)]
pub struct Board {
    grid: Grid,
    turn: CellState,
    size: usize,
    win_condition_length: usize,
    /// The diagonal scan lines: the group parallel to the main diagonal, then
    /// the group parallel to the anti-diagonal.
    diagonals_coords: Vec<Vec<DiagonalCoord>>,
}

impl View for Board {
    type V = BoardView;

    closed spec fn view(&self) -> BoardView {
        BoardView {
            cells: grid_view(self.grid@),
            turn: self.turn,
            run_length: self.win_condition_length as nat,
        }
    }
}

/// A grid of `size` rows of `size` empty cells.
fn empty_grid(size: usize) -> (grid: Grid)
    ensures
        grid.len() == size,
        forall|r: int| 0 <= r < size ==> (#[trigger] grid[r]).len() == size,
        grid_view(grid@) == BoardView::initial(size as nat, 1).cells,
{
    let mut grid: Grid = Vec::new();
    let mut r: usize = 0;
    while r < size
        invariant
            r <= size,
            grid.len() == r,
            forall|i: int| 0 <= i < r ==> (#[trigger] grid[i])@ == Seq::new(
                size as nat,
                |c: int| CellState::Empty,
            ),
        decreases size - r,
    {
        let mut row: Vec<CellState> = Vec::new();
        let mut c: usize = 0;
        while c < size
            invariant
                c <= size,
                row.len() == c,
                forall|i: int| 0 <= i < c ==> row[i] == CellState::Empty,
            decreases size - c,
        {
            row.push(CellState::Empty);
            c += 1;
        }
        assert(row@ =~= Seq::new(size as nat, |c: int| CellState::Empty));
        grid.push(row);
        r += 1;
    }
    assert(grid_view(grid@) =~= BoardView::initial(size as nat, 1).cells);
    grid
}

/// Writes `mark` into the cell at row `row`, column `col`.
fn set_cell(grid: &mut Grid, row: usize, col: usize, mark: CellState)
    requires
        row < old(grid).len(),
        col < old(grid)[row as int].len(),
    ensures
        final(grid).len() == old(grid).len(),
        forall|r: int|
            0 <= r < old(grid).len() ==> (#[trigger] final(grid)[r]).len() == old(grid)[r].len(),
        grid_view(final(grid)@) == grid_view(old(grid)@).update(
            row as int,
            old(grid)[row as int]@.update(col as int, mark),
        ),
    no_unwind
{
    grid[row][col] = mark;
    assert(grid_view(grid@) =~= grid_view(old(grid)@).update(
        row as int,
        old(grid)[row as int]@.update(col as int, mark),
    ));
}

/// Cell `a` is met before cell `b` when the grid is read row by row.
pub open spec fn row_major_before(a: (int, int), b: (int, int)) -> bool {
    a.0 < b.0 || (a.0 == b.0 && a.1 < b.1)
}

/// A winner found among the first `n` lines stays the winner however many
/// more lines are searched.
pub proof fn lemma_first_winner_stable(
    board: BoardView,
    lines: Seq<Seq<(int, int)>>,
    n: nat,
    m: nat,
)
    requires
        n <= m,
        board.first_winner(lines, n) is Some,
    ensures
        board.first_winner(lines, m) == board.first_winner(lines, n),
    decreases m,
{
    if n < m {
        lemma_first_winner_stable(board, lines, n, (m - 1) as nat);
    }
}

impl Board {
    /// What holds of every board: the grid is square, a player is to move,
    /// and the index of diagonals is the one that belongs to the board's size
    /// and run length.
    #[verifier::type_invariant]
    closed spec fn inv(&self) -> bool {
        &&& self.size >= 1
        &&& self.win_condition_length >= 1
        &&& self.turn.is_player()
        &&& self.grid.len() == self.size
        &&& forall|r: int| 0 <= r < self.size ==> (#[trigger] self.grid[r]).len() == self.size
        &&& self.diagonals_coords.len() == 2
        &&& lines_of(self.diagonals_coords[0]@) == diagonal_lines(
            self.size as nat,
            self.win_condition_length as nat,
            Direction::Main,
        )
        &&& lines_of(self.diagonals_coords[1]@) == diagonal_lines(
            self.size as nat,
            self.win_condition_length as nat,
            Direction::Anti,
        )
    }

    /// Creates an empty board on which `X` moves first. A board without cells
    /// and a run length of zero are refused.
    pub fn new(size: usize, win_condition_length: usize) -> (made: Result<Board, ConfigError>)
        ensures
            match made {
                Ok(board) => {
                    &&& size >= 1
                    &&& win_condition_length >= 1
                    &&& board@ == BoardView::initial(size as nat, win_condition_length as nat)
                    &&& board@.wf()
                },
                Err(ConfigError::ZeroSize) => size == 0,
                Err(ConfigError::ZeroRunLength) => size >= 1 && win_condition_length == 0,
            },
    {
        if size == 0 {
            return Err(ConfigError::ZeroSize);
        }
        if win_condition_length == 0 {
            return Err(ConfigError::ZeroRunLength);
        }
        let board = Board {
            grid: empty_grid(size),
            turn: CellState::X,
            size,
            win_condition_length,
            diagonals_coords: calculate_diagonals_coords(size, win_condition_length),
        };
        Ok(board)
    }

    /// Clears the grid and hands the first move back to `X`.
    pub fn reset(&mut self)
        ensures
            final(self)@ == BoardView::initial(old(self)@.size(), old(self)@.run_length),
            final(self)@.wf(),
            !final(self)@.is_full(),
            final(self)@.winner() is None,
    {
        proof {
            use_type_invariant(&*self);
            lemma_initial_board(self.size as nat, self.win_condition_length as nat);
        }
        self.grid = empty_grid(self.size);
        self.turn = CellState::X;
    }

    /// Returns the player to move.
    pub fn get_current_player(&self) -> (player: CellState)
        ensures
            player == self@.turn,
            self@.wf(),
    {
        proof {
            use_type_invariant(self);
        }
        self.turn
    }

    /// Plays the move at row `x_axis`, column `y_axis` for the player to move.
    /// A move that is not valid leaves the board as it was.
    pub fn play_move(&mut self, x_axis: usize, y_axis: usize)
        ensures
            final(self)@ == old(self)@.play(x_axis as int, y_axis as int),
            final(self)@.wf(),
    {
        proof {
            use_type_invariant(&*self);
        }
        if self.is_valid_move(x_axis, y_axis) {
            let mark = self.turn;
            set_cell(&mut self.grid, x_axis, y_axis, mark);
            self.next_turn();
        }
    }

    /// Checks that the cell lies on the board and is empty.
    pub fn is_valid_move(&self, x_axis: usize, y_axis: usize) -> (valid: bool)
        ensures
            valid == self@.is_valid_move(x_axis as int, y_axis as int),
            self@.wf(),
    {
        proof {
            use_type_invariant(self);
        }
        (x_axis < self.size && y_axis < self.size) && self.grid[x_axis][y_axis] == CellState::Empty
    }

    /// Hands the move to the other player.
    fn next_turn(&mut self)
        ensures
            final(self)@ == (BoardView { turn: old(self)@.turn.spec_opponent(), ..old(self)@ }),
    {
        proof {
            use_type_invariant(&*self);
        }
        self.turn = self.turn.opponent();
    }

    /// Returns whether no empty cell is left.
    pub fn is_board_full(&self) -> (full: bool)
        ensures
            full == self@.is_full(),
            self@.wf(),
    {
        proof {
            use_type_invariant(self);
        }
        let mut r: usize = 0;
        while r < self.size
            invariant
                self.inv(),
                r <= self.size,
                forall|i: int, j: int|
                    0 <= i < r && 0 <= j < self.size ==> (#[trigger] self@.cells[i][j])
                        != CellState::Empty,
            decreases self.size - r,
        {
            let mut c: usize = 0;
            while c < self.size
                invariant
                    self.inv(),
                    r < self.size,
                    c <= self.size,
                    forall|j: int|
                        0 <= j < c ==> (#[trigger] self@.cells[r as int][j]) != CellState::Empty,
                decreases self.size - c,
            {
                if self.grid[r][c] == CellState::Empty {
                    assert(self@.cells[r as int][c as int] == CellState::Empty);
                    return false;
                }
                c += 1;
            }
            r += 1;
        }
        true
    }

    /// Given a sequence of marks, returns the player whose run of the winning
    /// length is the first to be completed in it, if there is one.
    pub fn find_winner(&self, sequence: &[CellState]) -> (found: Option<CellState>)
        ensures
            found == line_winner(sequence@, self@.run_length),
    {
        proof {
            use_type_invariant(self);
        }
        let ghost line = sequence@;
        let ghost k = self.win_condition_length as nat;
        let mut run_length: usize = 0;
        let mut run_mark = CellState::Empty;
        let mut i: usize = 0;
        while i < sequence.len()
            invariant
                line == sequence@,
                k == self.win_condition_length,
                k >= 1,
                i <= line.len(),
                first_completion(line, k, i as nat) is None,
                run_length <= i,
                run_length < k,
                run_length == 0 ==> run_mark == CellState::Empty,
                run_length > 0 ==> run_mark.is_player(),
                forall|j: int| i - run_length <= j < i ==> line[j] == run_mark,
                run_length < i ==> line[i - run_length - 1] != run_mark || run_length == 0,
                run_length == 0 && i > 0 ==> line[i - 1] == CellState::Empty,
            decreases line.len() - i,
        {
            let cell = sequence[i];
            if cell == CellState::Empty {
                run_length = 0;
                run_mark = CellState::Empty;
            } else if cell == run_mark {
                run_length += 1;
            } else {
                run_mark = cell;
                run_length = 1;
            }
            if run_length == self.win_condition_length {
                proof {
                    assert(completes_at(line, k, i as int));
                    lemma_completion_stable(line, k, (i + 1) as nat, line.len());
                }
                return Some(cell);
            }
            proof {
                if completes_at(line, k, i as int) {
                    assert(line[i - run_length] == cell);
                }
            }
            i += 1;
        }
        None
    }

    /// The marks of column `index`, from the top row down.
    fn column(&self, index: usize) -> (marks: Vec<CellState>)
        requires
            index < self@.size(),
        ensures
            marks@ == self@.marks_along(
                segment(0, index as int, self@.size(), Direction::Down),
            ),
    {
        proof {
            use_type_invariant(self);
        }
        let mut marks: Vec<CellState> = Vec::new();
        let mut r: usize = 0;
        while r < self.size
            invariant
                self.inv(),
                index < self.size,
                r <= self.size,
                marks.len() == r,
                forall|i: int| 0 <= i < r ==> marks[i] == self@.cells[i][index as int],
            decreases self.size - r,
        {
            marks.push(self.grid[r][index]);
            r += 1;
        }
        assert(marks@ =~= self@.marks_along(
            segment(0, index as int, self@.size(), Direction::Down),
        ));
        marks
    }

    /// The marks met along `coords`.
    fn marks_on(&self, coords: &DiagonalCoord) -> (marks: Vec<CellState>)
        requires
            line_on_board(self@.size(), coords_of(coords@)),
        ensures
            marks@ == self@.marks_along(coords_of(coords@)),
    {
        proof {
            use_type_invariant(self);
        }
        let ghost line = coords_of(coords@);
        let mut marks: Vec<CellState> = Vec::new();
        let mut i: usize = 0;
        while i < coords.len()
            invariant
                self.inv(),
                line == coords_of(coords@),
                line_on_board(self@.size(), line),
                i <= coords.len(),
                marks.len() == i,
                forall|j: int| 0 <= j < i ==> marks[j] == self@.cells[line[j].0][line[j].1],
            decreases coords.len() - i,
        {
            let (x_axis, y_axis) = coords[i];
            assert(on_board(self@.size(), line[i as int]));
            marks.push(self.grid[x_axis][y_axis]);
            i += 1;
        }
        assert(marks@ =~= self@.marks_along(line));
        marks
    }

    /// Returns the winner of the game if there is any: the player whose run
    /// is met first when the rows, the columns and the two groups of
    /// diagonals are searched in that order.
    pub fn is_winner(&self) -> (found: Option<CellState>)
        ensures
            found == self@.winner(),
            self@.wf(),
    {
        proof {
            use_type_invariant(self);
        }
        let ghost lines = self@.scan_lines();
        let ghost n = self.size as nat;
        let ghost k = self.win_condition_length as nat;
        let mut r: usize = 0;
        while r < self.size
            invariant
                self.inv(),
                lines == self@.scan_lines(),
                r <= self.size,
                self@.first_winner(lines, r as nat) is None,
            decreases self.size - r,
        {
            let found = self.find_winner(self.grid[r].as_slice());
            proof {
                assert(lines[r as int] == segment(r as int, 0, self@.size(), Direction::Across));
                assert(self.grid[r as int]@ =~= self@.marks_along(lines[r as int]));
            }
            if let Some(winner) = found {
                proof {
                    lemma_first_winner_stable(self@, lines, (r + 1) as nat, lines.len());
                }
                return Some(winner);
            }
            r += 1;
        }
        let mut index: usize = 0;
        while index < self.size
            invariant
                self.inv(),
                lines == self@.scan_lines(),
                n == self.size,
                index <= self.size,
                self@.first_winner(lines, (n + index) as nat) is None,
            decreases self.size - index,
        {
            let sequence = self.column(index);
            let found = self.find_winner(sequence.as_slice());
            proof {
                assert(lines[n + index] == segment(
                    0,
                    index as int,
                    self@.size(),
                    Direction::Down,
                ));
            }
            if let Some(winner) = found {
                proof {
                    lemma_first_winner_stable(self@, lines, (n + index + 1) as nat, lines.len());
                }
                return Some(winner);
            }
            index += 1;
        }
        let ghost mut base: nat = 2 * n;
        let mut group: usize = 0;
        while group < 2
            invariant
                self.inv(),
                lines == self@.scan_lines(),
                n == self.size,
                k == self.win_condition_length,
                group <= 2,
                base == 2 * n + if group == 0 {
                    0
                } else if group == 1 {
                    diagonal_lines(n, k, Direction::Main).len()
                } else {
                    diagonal_lines(n, k, Direction::Main).len() + diagonal_lines(
                        n,
                        k,
                        Direction::Anti,
                    ).len()
                },
                self@.first_winner(lines, base) is None,
            decreases 2 - group,
        {
            let ghost dir = if group == 0 {
                Direction::Main
            } else {
                Direction::Anti
            };
            let diagonals = &self.diagonals_coords[group];
            let mut i: usize = 0;
            while i < diagonals.len()
                invariant
                    self.inv(),
                    lines == self@.scan_lines(),
                    n == self.size,
                    k == self.win_condition_length,
                    group < 2,
                    dir == if group == 0 {
                        Direction::Main
                    } else {
                        Direction::Anti
                    },
                    diagonals == &self.diagonals_coords[group as int],
                    base == 2 * n + if group == 0 {
                        0
                    } else {
                        diagonal_lines(n, k, Direction::Main).len()
                    },
                    i <= diagonals.len(),
                    self@.first_winner(lines, (base + i) as nat) is None,
                decreases diagonals.len() - i,
            {
                proof {
                    assert(lines_of(diagonals@) == diagonal_lines(n, k, dir));
                    assert(lines_of(diagonals@)[i as int] == coords_of(diagonals[i as int]@));
                    lemma_diagonal_lines_shape(n, k, dir, i as int);
                    assert(lines[base + i] == diagonal_lines(n, k, dir)[i as int]);
                }
                let sequence = self.marks_on(&diagonals[i]);
                let found = self.find_winner(sequence.as_slice());
                if let Some(winner) = found {
                    proof {
                        lemma_first_winner_stable(self@, lines, (base + i + 1) as nat, lines.len());
                    }
                    return Some(winner);
                }
                i += 1;
            }
            proof {
                base = base + diagonals.len() as nat;
            }
            group += 1;
        }
        None
    }

    /// Returns the empty cells in a fixed order: row by row from the top, and
    /// within a row from the left.
    pub fn get_possible_actions(&self) -> (actions: Vec<(usize, usize)>)
        ensures
            self@.lists_empty_cells(coords_of(actions@)),
            self@.wf(),
    {
        proof {
            use_type_invariant(self);
        }
        let mut actions: Vec<(usize, usize)> = Vec::new();
        let mut r: usize = 0;
        while r < self.size
            invariant
                self.inv(),
                r <= self.size,
                forall|i: int|
                    0 <= i < actions.len() ==> self@.is_valid_move(
                        (#[trigger] coords_of(actions@)[i]).0,
                        coords_of(actions@)[i].1,
                    ) && coords_of(actions@)[i].0 < r,
                forall|i: int, j: int|
                    0 <= i < j < actions.len() ==> row_major_before(
                        #[trigger] coords_of(actions@)[i],
                        #[trigger] coords_of(actions@)[j],
                    ),
                forall|x: int, y: int| #[trigger]
                    self@.is_valid_move(x, y) && x < r ==> exists|i: int|
                        0 <= i < actions.len() && #[trigger] coords_of(actions@)[i] == (x, y),
            decreases self.size - r,
        {
            let mut c: usize = 0;
            while c < self.size
                invariant
                    self.inv(),
                    r < self.size,
                    c <= self.size,
                    forall|i: int|
                        0 <= i < actions.len() ==> self@.is_valid_move(
                            (#[trigger] coords_of(actions@)[i]).0,
                            coords_of(actions@)[i].1,
                        ) && row_major_before(coords_of(actions@)[i], (r as int, c as int)),
                    forall|i: int, j: int|
                        0 <= i < j < actions.len() ==> row_major_before(
                            #[trigger] coords_of(actions@)[i],
                            #[trigger] coords_of(actions@)[j],
                        ),
                    forall|x: int, y: int| #[trigger]
                        self@.is_valid_move(x, y) && row_major_before((x, y), (r as int, c as int))
                            ==> exists|i: int|
                            0 <= i < actions.len() && #[trigger] coords_of(actions@)[i] == (x, y),
                decreases self.size - c,
            {
                if self.grid[r][c] == CellState::Empty {
                    let ghost listed = coords_of(actions@);
                    actions.push((r, c));
                    proof {
                        let grown = coords_of(actions@);
                        assert(grown =~= listed.push((r as int, c as int)));
                        assert forall|x: int, y: int| #[trigger]
                            self@.is_valid_move(x, y) && row_major_before(
                                (x, y),
                                (r as int, c + 1),
                            ) implies exists|i: int|
                            0 <= i < grown.len() && #[trigger] grown[i] == (x, y) by {
                            if x == r && y == c {
                                assert(grown[listed.len() as int] == (x, y));
                            } else {
                                let i = choose|i: int|
                                    0 <= i < listed.len() && #[trigger] listed[i] == (x, y);
                                assert(grown[i] == (x, y));
                            }
                        }
                    }
                }
                c += 1;
            }
            r += 1;
        }
        actions
    }

    /// Returns a copy of the grid.
    pub fn get_grid(&self) -> (grid: Grid)
        ensures
            grid_view(grid@) == self@.cells,
            self@.wf(),
    {
        proof {
            use_type_invariant(self);
        }
        let mut grid: Grid = Vec::new();
        let mut r: usize = 0;
        while r < self.size
            invariant
                self.inv(),
                r <= self.size,
                grid.len() == r,
                forall|i: int| 0 <= i < r ==> (#[trigger] grid[i])@ == self.grid[i]@,
            decreases self.size - r,
        {
            let mut row: Vec<CellState> = Vec::new();
            let mut c: usize = 0;
            while c < self.size
                invariant
                    self.inv(),
                    r < self.size,
                    c <= self.size,
                    row.len() == c,
                    forall|j: int| 0 <= j < c ==> row[j] == self.grid[r as int][j],
                decreases self.size - c,
            {
                row.push(self.grid[r][c]);
                c += 1;
            }
            assert(row@ =~= self.grid[r as int]@);
            grid.push(row);
            r += 1;
        }
        assert(grid_view(grid@) =~= self@.cells);
        grid
    }
}

} // verus!
