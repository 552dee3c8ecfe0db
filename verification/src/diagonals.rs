use vstd::prelude::*;

verus! {

/// The cells of one scan line, in the order in which they are walked.
pub type DiagonalCoord = Vec<(usize, usize)>;

/// The four headings along which a run of marks counts. With every step the
/// row or the column moves by at most one.
#[derive(Clone, Copy, Debug, PartialEq, Eq, Structural)]
pub enum Direction {
    /// Along a row: the column grows.
    Across,
    /// Along a column: the row grows.
    Down,
    /// Parallel to the main diagonal: row and column grow together.
    Main,
    /// Parallel to the anti-diagonal: the row grows while the column shrinks.
    Anti,
}

/// The cell reached after `i` steps from `(row, col)` in direction `dir`.
pub open spec fn cell_at(row: int, col: int, dir: Direction, i: int) -> (int, int) {
    match dir {
        Direction::Across => (row, col + i),
        Direction::Down => (row + i, col),
        Direction::Main => (row + i, col + i),
        Direction::Anti => (row + i, col - i),
    }
}

/// The straight line of `len` cells that starts at `(row, col)`.
pub open spec fn segment(row: int, col: int, len: nat, dir: Direction) -> Seq<(int, int)> {
    Seq::new(len, |i: int| cell_at(row, col, dir, i))
}

/// How many of the first `len` cells of a line from column `col` have a
/// column that is not negative.
pub open spec fn visible_len(col: nat, len: nat, dir: Direction) -> nat {
    if dir == Direction::Anti && col + 1 < len {
        col + 1
    } else {
        len
    }
}

/// A line of machine coordinates read as mathematical ones.
pub open spec fn coords_of(line: Seq<(usize, usize)>) -> Seq<(int, int)> {
    Seq::new(line.len(), |i: int| (line[i].0 as int, line[i].1 as int))
}

/// A group of lines read as sequences of mathematical coordinates.
pub open spec fn lines_of(lines: Seq<DiagonalCoord>) -> Seq<Seq<(int, int)>> {
    Seq::new(lines.len(), |i: int| coords_of(lines[i]@))
}

/// Walks `length` steps from `(start_row, start_col)` and keeps the cells whose
/// column has not dropped below zero.
pub fn generate_coords(
    start_row: usize,
    start_col: usize,
    length: usize,
    direction: Direction,
) -> (line: DiagonalCoord)
    requires
        direction != Direction::Across ==> start_row + length <= usize::MAX,
        direction == Direction::Across || direction == Direction::Main ==> start_col + length
            <= usize::MAX,
    ensures
        coords_of(line@) == segment(
            start_row as int,
            start_col as int,
            visible_len(start_col as nat, length as nat, direction),
            direction,
        ),
{
    let mut line: Vec<(usize, usize)> = Vec::new();
    let mut i: usize = 0;
    while i < length
        invariant
            i <= length,
            direction != Direction::Across ==> start_row + length <= usize::MAX,
            direction == Direction::Across || direction == Direction::Main ==> start_col + length
                <= usize::MAX,
            coords_of(line@) == segment(
                start_row as int,
                start_col as int,
                visible_len(start_col as nat, i as nat, direction),
                direction,
            ),
        decreases length - i,
    {
        let ghost walked = line@;
        let ghost seen = visible_len(start_col as nat, i as nat, direction);
        assert(coords_of(walked).len() == seen);
        match direction {
            Direction::Across => {
                line.push((start_row, start_col + i));
            },
            Direction::Down => {
                line.push((start_row + i, start_col));
            },
            Direction::Main => {
                line.push((start_row + i, start_col + i));
            },
            Direction::Anti => {
                if i <= start_col {
                    line.push((start_row + i, start_col - i));
                }
            },
        }
        i += 1;
        assert forall|j: int| 0 <= j < walked.len() implies coords_of(line@)[j] == cell_at(
            start_row as int,
            start_col as int,
            direction,
            j,
        ) by {
            assert(coords_of(line@)[j] == coords_of(walked)[j]);
            assert(coords_of(walked)[j] == segment(
                start_row as int,
                start_col as int,
                seen,
                direction,
            )[j]);
        }
        assert(coords_of(line@) =~= segment(
            start_row as int,
            start_col as int,
            visible_len(start_col as nat, i as nat, direction),
            direction,
        ));
    }
    line
}

/// How many anchors along one edge of a `size` by `size` board start a diagonal
/// that holds at least `k` cells.
pub open spec fn anchor_count(size: nat, k: nat) -> nat {
    if k > size {
        0
    } else if k == 0 {
        size
    } else {
        (size - k + 1) as nat
    }
}

/// The line of `len` cells whose first cell lies `start` rows down the edge
/// from which direction `dir` leaves: the left edge for `Main`, the right edge
/// for `Anti`.
pub open spec fn edge_line(size: nat, start: nat, len: nat, dir: Direction) -> Seq<(int, int)> {
    if dir == Direction::Anti {
        segment(start as int, size - 1, len, dir)
    } else {
        segment(start as int, 0, len, dir)
    }
}

/// The line of `len` cells whose first cell lies on the top edge, `start`
/// columns away from the corner in which the edge lines begin.
pub open spec fn top_line(size: nat, start: nat, len: nat, dir: Direction) -> Seq<(int, int)> {
    if dir == Direction::Anti {
        segment(0, size - 1 - start, len, dir)
    } else {
        segment(0, start as int, len, dir)
    }
}

/// The lines listed for anchor `start`: every length from the longest that
/// fits, `size - start`, down to `k`; for each length the edge line and, away
/// from the corner anchor, the top line after it.
pub open spec fn anchor_block(size: nat, k: nat, start: nat, dir: Direction) -> Seq<
    Seq<(int, int)>,
> {
    let lengths = (size - start - k + 1) as nat;
    if start == 0 {
        Seq::new(lengths, |j: int| edge_line(size, start, (size - j) as nat, dir))
    } else {
        Seq::new(
            2 * lengths,
            |j: int|
                if j % 2 == 0 {
                    edge_line(size, start, (size - start - j / 2) as nat, dir)
                } else {
                    top_line(size, start, (size - start - j / 2) as nat, dir)
                },
        )
    }
}

/// The blocks of the first `n` anchors, one after the other.
pub open spec fn anchor_blocks(size: nat, k: nat, dir: Direction, n: nat) -> Seq<Seq<(int, int)>>
    decreases n,
{
    if n == 0 {
        Seq::empty()
    } else {
        anchor_blocks(size, k, dir, (n - 1) as nat) + anchor_block(size, k, (n - 1) as nat, dir)
    }
}

/// Every diagonal line of direction `dir` that is scanned on a `size` by `size`
/// board for runs of `k`, in scan order.
pub open spec fn diagonal_lines(size: nat, k: nat, dir: Direction) -> Seq<Seq<(int, int)>> {
    anchor_blocks(size, k, dir, anchor_count(size, k))
}

/// Builds the index of diagonal scan lines of a `size` by `size` board: first
/// the group parallel to the main diagonal, then the group parallel to the
/// anti-diagonal, each holding every diagonal of at least `minimal_length`
/// cells together with its prefixes down to that length.
pub fn calculate_diagonals_coords(size: usize, minimal_length: usize) -> (index: Vec<
    Vec<DiagonalCoord>,
>)
    ensures
        index.len() == 2,
        lines_of(index[0]@) == diagonal_lines(
            size as nat,
            minimal_length as nat,
            Direction::Main,
        ),
        lines_of(index[1]@) == diagonal_lines(
            size as nat,
            minimal_length as nat,
            Direction::Anti,
        ),
        1 <= minimal_length <= size ==> index[0].len() == index[1].len() == (size
            - minimal_length + 1) * (size - minimal_length + 1),
        minimal_length > size ==> index[0].len() == index[1].len() == 0,
{
    let ghost n = size as nat;
    let ghost k = minimal_length as nat;
    let mut main_diagonals: Vec<DiagonalCoord> = Vec::new();
    let mut anti_diagonals: Vec<DiagonalCoord> = Vec::new();
    let mut start: usize = 0;
    assert(lines_of(main_diagonals@) =~= anchor_blocks(n, k, Direction::Main, 0));
    assert(lines_of(anti_diagonals@) =~= anchor_blocks(n, k, Direction::Anti, 0));
    while start < size && size - start >= minimal_length
        invariant
            n == size,
            k == minimal_length,
            start <= anchor_count(n, k),
            lines_of(main_diagonals@) == anchor_blocks(n, k, Direction::Main, start as nat),
            lines_of(anti_diagonals@) == anchor_blocks(n, k, Direction::Anti, start as nat),
        decreases size - start,
    {
        let ghost main_before = lines_of(main_diagonals@);
        let ghost anti_before = lines_of(anti_diagonals@);
        let ghost main_block = anchor_block(n, k, start as nat, Direction::Main);
        let ghost anti_block = anchor_block(n, k, start as nat, Direction::Anti);
        let mut length: usize = size - start;
        let ghost mut filled: nat = 0;
        loop
            invariant_except_break
                filled == if start == 0 {
                    n - start - length
                } else {
                    2 * (n - start - length)
                },
            invariant
                n == size,
                k == minimal_length,
                start < size,
                k <= length <= size - start,
                main_block == anchor_block(n, k, start as nat, Direction::Main),
                anti_block == anchor_block(n, k, start as nat, Direction::Anti),
                filled <= main_block.len(),
                lines_of(main_diagonals@) == main_before + main_block.take(filled as int),
                lines_of(anti_diagonals@) == anti_before + anti_block.take(filled as int),
            ensures
                filled == main_block.len(),
            decreases length,
        {
            let ghost main_now = lines_of(main_diagonals@);
            let ghost anti_now = lines_of(anti_diagonals@);
            main_diagonals.push(generate_coords(start, 0, length, Direction::Main));
            anti_diagonals.push(generate_coords(start, size - 1, length, Direction::Anti));
            proof {
                assert(main_block[filled as int] == edge_line(
                    n,
                    start as nat,
                    length as nat,
                    Direction::Main,
                ));
                assert(anti_block[filled as int] == edge_line(
                    n,
                    start as nat,
                    length as nat,
                    Direction::Anti,
                ));
                assert(lines_of(main_diagonals@) =~= main_now.push(main_block[filled as int]));
                assert(lines_of(anti_diagonals@) =~= anti_now.push(anti_block[filled as int]));
                assert(main_block.take(filled + 1int) =~= main_block.take(filled as int).push(
                    main_block[filled as int],
                ));
                assert(anti_block.take(filled + 1int) =~= anti_block.take(filled as int).push(
                    anti_block[filled as int],
                ));
                assert(lines_of(main_diagonals@) =~= main_before + main_block.take(filled + 1int));
                assert(lines_of(anti_diagonals@) =~= anti_before + anti_block.take(filled + 1int));
                filled = filled + 1;
            }
            if start > 0 {
                let ghost main_mid = lines_of(main_diagonals@);
                let ghost anti_mid = lines_of(anti_diagonals@);
                main_diagonals.push(generate_coords(0, start, length, Direction::Main));
                anti_diagonals.push(
                    generate_coords(0, size - 1 - start, length, Direction::Anti),
                );
                proof {
                    assert(main_block[filled as int] == top_line(
                        n,
                        start as nat,
                        length as nat,
                        Direction::Main,
                    ));
                    assert(anti_block[filled as int] == top_line(
                        n,
                        start as nat,
                        length as nat,
                        Direction::Anti,
                    ));
                    assert(lines_of(main_diagonals@) =~= main_mid.push(main_block[filled as int]));
                    assert(lines_of(anti_diagonals@) =~= anti_mid.push(anti_block[filled as int]));
                    assert(main_block.take(filled + 1int) =~= main_block.take(filled as int).push(
                        main_block[filled as int],
                    ));
                    assert(anti_block.take(filled + 1int) =~= anti_block.take(filled as int).push(
                        anti_block[filled as int],
                    ));
                    assert(lines_of(main_diagonals@) =~= main_before + main_block.take(
                        filled + 1int,
                    ));
                    assert(lines_of(anti_diagonals@) =~= anti_before + anti_block.take(
                        filled + 1int,
                    ));
                    filled = filled + 1;
                }
            }
            if length == minimal_length {
                break;
            }
            length -= 1;
        }
        proof {
            assert(main_block.take(filled as int) =~= main_block);
            assert(anti_block.take(filled as int) =~= anti_block);
        }
        start += 1;
    }
    proof {
        lemma_diagonal_line_count(n, k, Direction::Main);
        lemma_diagonal_line_count(n, k, Direction::Anti);
    }
    let mut index: Vec<Vec<DiagonalCoord>> = Vec::new();
    index.push(main_diagonals);
    index.push(anti_diagonals);
    index
}

/// A cell of a `size` by `size` board.
pub open spec fn on_board(size: nat, cell: (int, int)) -> bool {
    0 <= cell.0 < size && 0 <= cell.1 < size
}

/// Every cell of `line` lies on the board.
pub open spec fn line_on_board(size: nat, line: Seq<(int, int)>) -> bool {
    forall|i: int| 0 <= i < line.len() ==> on_board(size, #[trigger] line[i])
}

/// `line` walks in direction `dir` from its first cell, one step per position.
pub open spec fn is_straight(line: Seq<(int, int)>, dir: Direction) -> bool {
    forall|i: int|
        0 <= i < line.len() ==> #[trigger] line[i] == cell_at(line[0].0, line[0].1, dir, i)
}

/// The `k` cells from `(row, col)` in direction `dir` all lie on the board.
pub open spec fn run_on_board(size: nat, k: nat, row: int, col: int, dir: Direction) -> bool {
    forall|i: int| 0 <= i < k ==> on_board(size, #[trigger] cell_at(row, col, dir, i))
}

/// Where the block of anchor `start` begins among the blocks of `n` anchors,
/// and that it stands there unchanged.
pub proof fn lemma_block_position(size: nat, k: nat, dir: Direction, n: nat, start: nat, j: int)
    requires
        start < n,
        0 <= j < anchor_block(size, k, start, dir).len(),
    ensures
        anchor_blocks(size, k, dir, start).len() + j < anchor_blocks(size, k, dir, n).len(),
        anchor_blocks(size, k, dir, n)[anchor_blocks(size, k, dir, start).len() + j]
            == anchor_block(size, k, start, dir)[j],
    decreases n,
{
    if start + 1 < n {
        lemma_block_position(size, k, dir, (n - 1) as nat, start, j);
    }
}

/// Every line among the blocks of `n` anchors belongs to the block of one of
/// them.
pub proof fn lemma_block_of_line(size: nat, k: nat, dir: Direction, n: nat, i: int) -> (at: (
    nat,
    int,
))
    requires
        0 <= i < anchor_blocks(size, k, dir, n).len(),
    ensures
        at.0 < n,
        0 <= at.1 < anchor_block(size, k, at.0, dir).len(),
        anchor_blocks(size, k, dir, n)[i] == anchor_block(size, k, at.0, dir)[at.1],
    decreases n,
{
    let before = anchor_blocks(size, k, dir, (n - 1) as nat);
    if i < before.len() {
        lemma_block_of_line(size, k, dir, (n - 1) as nat, i)
    } else {
        ((n - 1) as nat, i - before.len())
    }
}

/// Each indexed diagonal lies on the board, is straight, and holds at least
/// `k` cells.
pub proof fn lemma_diagonal_lines_shape(size: nat, k: nat, dir: Direction, i: int)
    requires
        dir == Direction::Main || dir == Direction::Anti,
        0 <= i < diagonal_lines(size, k, dir).len(),
    ensures
        diagonal_lines(size, k, dir)[i].len() >= k,
        line_on_board(size, diagonal_lines(size, k, dir)[i]),
        is_straight(diagonal_lines(size, k, dir)[i], dir),
{
    let at = lemma_block_of_line(size, k, dir, anchor_count(size, k), i);
}

/// The index has as many lines per direction as there are pairs of an anchor
/// and a length: the square of `size - k + 1`.
pub proof fn lemma_diagonal_line_count(size: nat, k: nat, dir: Direction)
    ensures
        1 <= k <= size ==> diagonal_lines(size, k, dir).len() == (size - k + 1) * (size - k + 1),
        k > size ==> diagonal_lines(size, k, dir).len() == 0,
{
    if 1 <= k <= size {
        lemma_anchor_blocks_len(size, k, dir, (size - k + 1) as nat);
        let m = size - k + 1;
        assert(m * (2 * m - 1) - m * (m - 1) == m * m) by (nonlinear_arith);
    }
}

/// The number of lines in the blocks of the first `n` anchors.
pub proof fn lemma_anchor_blocks_len(size: nat, k: nat, dir: Direction, n: nat)
    requires
        1 <= k <= size,
        n <= size - k + 1,
    ensures
        anchor_blocks(size, k, dir, n).len() == if n == 0 {
            0
        } else {
            (size - k + 1) * (2 * n - 1) - n * (n - 1)
        },
    decreases n,
{
    if n > 0 {
        lemma_anchor_blocks_len(size, k, dir, (n - 1) as nat);
        let m = size - k + 1;
        let s = n - 1;
        if s > 0 {
            assert(m * (2 * s - 1) - s * (s - 1) + 2 * (m - s) == m * (2 * (s + 1) - 1) - (s + 1)
                * s) by (nonlinear_arith);
        } else {
            assert(m * (2 * 1 - 1) - 1 * (1 - 1) == m) by (nonlinear_arith);
        }
    }
}

/// Coverage: every run of `k` cells that lies on the board along a diagonal
/// direction stands, cell for cell, inside one indexed line. The result names
/// that line and the position in it at which the run begins.
pub proof fn lemma_diagonal_cover(size: nat, k: nat, dir: Direction, row: int, col: int) -> (at: (
    int,
    int,
))
    requires
        dir == Direction::Main || dir == Direction::Anti,
        k >= 1,
        run_on_board(size, k, row, col, dir),
    ensures
        0 <= at.0 < diagonal_lines(size, k, dir).len(),
        0 <= at.1,
        at.1 + k <= diagonal_lines(size, k, dir)[at.0].len(),
        forall|i: int|
            0 <= i < k ==> diagonal_lines(size, k, dir)[at.0][at.1 + i] == cell_at(
                row,
                col,
                dir,
                i,
            ),
{
    assert(on_board(size, cell_at(row, col, dir, 0)));
    assert(on_board(size, cell_at(row, col, dir, k - 1)));
    // Distance of the run's column from the edge at which the diagonal begins.
    let inset = if dir == Direction::Anti {
        size - 1 - col
    } else {
        col
    };
    let start = if row >= inset {
        (row - inset) as nat
    } else {
        (inset - row) as nat
    };
    let j: int = if row >= inset {
        0
    } else {
        1
    };
    let offset = if row >= inset {
        inset
    } else {
        row
    };
    lemma_block_position(size, k, dir, anchor_count(size, k), start, j);
    (anchor_blocks(size, k, dir, start).len() + j, offset)
}

} // verus!
