use tictactoe::board::Board;
use tictactoe::board::ConfigError;
use tictactoe::cell::CellState;

fn board(size: usize, run: usize) -> Board {
    match Board::new(size, run) {
        Ok(board) => board,
        Err(error) => panic!("board refused: {:?}", error),
    }
}

fn play_all(board: &mut Board, moves: &[(usize, usize)]) {
    for &(row, col) in moves {
        assert!(board.is_valid_move(row, col));
        board.play_move(row, col);
    }
}

#[test]
fn new_board_is_empty_and_x_moves_first() {
    let b = board(3, 3);
    assert_eq!(b.get_grid(), vec![vec![CellState::Empty; 3]; 3]);
    assert_eq!(b.get_current_player(), CellState::X);
    assert!(!b.is_board_full());
    assert_eq!(b.is_winner(), None);
}

#[test]
fn new_refuses_a_board_without_cells() {
    assert_eq!(Board::new(0, 3).err(), Some(ConfigError::ZeroSize));
    assert_eq!(Board::new(0, 0).err(), Some(ConfigError::ZeroSize));
}

#[test]
fn new_refuses_a_run_length_of_zero() {
    assert_eq!(Board::new(3, 0).err(), Some(ConfigError::ZeroRunLength));
}

#[test]
fn run_longer_than_the_board_is_accepted_and_never_won() {
    let mut b = board(2, 3);
    play_all(&mut b, &[(0, 0), (0, 1), (1, 1), (1, 0)]);
    assert!(b.is_board_full());
    assert_eq!(b.is_winner(), None);
}

#[test]
fn valid_move_marks_the_cell_and_flips_the_turn() {
    let mut b = board(3, 3);
    b.play_move(1, 2);
    assert_eq!(b.get_grid()[1][2], CellState::X);
    assert_eq!(b.get_current_player(), CellState::O);
    b.play_move(0, 0);
    assert_eq!(b.get_grid()[0][0], CellState::O);
    assert_eq!(b.get_current_player(), CellState::X);
}

#[test]
fn invalid_move_changes_nothing() {
    let mut b = board(3, 3);
    b.play_move(1, 1);
    let before = b.get_grid();
    assert!(!b.is_valid_move(1, 1));
    b.play_move(1, 1);
    assert_eq!(b.get_grid(), before);
    assert_eq!(b.get_current_player(), CellState::O);
    assert!(!b.is_valid_move(3, 0));
    assert!(!b.is_valid_move(0, 3));
    b.play_move(3, 0);
    b.play_move(0, 3);
    assert_eq!(b.get_grid(), before);
    assert_eq!(b.get_current_player(), CellState::O);
}

#[test]
fn possible_actions_are_listed_row_by_row() {
    let mut b = board(3, 3);
    play_all(&mut b, &[(0, 1), (1, 1), (2, 2)]);
    assert_eq!(
        b.get_possible_actions(),
        vec![(0, 0), (0, 2), (1, 0), (1, 2), (2, 0), (2, 1)]
    );
}

#[test]
fn possible_actions_of_a_full_board_are_none() {
    let mut b = board(1, 2);
    b.play_move(0, 0);
    assert!(b.get_possible_actions().is_empty());
    assert!(b.is_board_full());
}

#[test]
fn top_row_wins_for_x() {
    let mut b = board(3, 3);
    play_all(&mut b, &[(0, 0), (1, 1), (0, 1), (2, 2)]);
    assert_eq!(b.is_winner(), None);
    play_all(&mut b, &[(0, 2)]);
    assert_eq!(b.is_winner(), Some(CellState::X));
}

#[test]
fn full_board_without_a_line_has_no_winner() {
    let mut b = board(3, 3);
    play_all(
        &mut b,
        &[
            (0, 0),
            (0, 1),
            (0, 2),
            (1, 1),
            (1, 0),
            (1, 2),
            (2, 1),
            (2, 0),
            (2, 2),
        ],
    );
    assert!(b.is_board_full());
    assert_eq!(b.is_winner(), None);
}

#[test]
fn column_wins_for_o() {
    let mut b = board(3, 3);
    play_all(&mut b, &[(0, 0), (0, 2), (1, 1), (1, 2), (2, 0), (2, 2)]);
    assert_eq!(b.is_winner(), Some(CellState::O));
}

#[test]
fn main_diagonal_wins() {
    let mut b = board(3, 3);
    play_all(&mut b, &[(0, 0), (0, 1), (1, 1), (0, 2), (2, 2)]);
    assert_eq!(b.is_winner(), Some(CellState::X));
}

#[test]
fn anti_diagonal_wins() {
    let mut b = board(3, 3);
    play_all(&mut b, &[(0, 2), (0, 1), (1, 1), (0, 0), (2, 0)]);
    assert_eq!(b.is_winner(), Some(CellState::X));
}

#[test]
fn short_anti_diagonal_off_the_corner_wins() {
    let mut b = board(4, 3);
    play_all(&mut b, &[(0, 2), (3, 3), (1, 1), (3, 2), (2, 0)]);
    assert_eq!(b.is_winner(), Some(CellState::X));
}

#[test]
fn short_anti_diagonal_near_the_far_corner_wins() {
    let mut b = board(4, 3);
    play_all(&mut b, &[(0, 0), (1, 3), (0, 1), (2, 2), (3, 3), (3, 1)]);
    assert_eq!(b.is_winner(), Some(CellState::O));
}

#[test]
fn short_main_diagonals_win() {
    let mut b = board(4, 3);
    play_all(&mut b, &[(1, 0), (0, 3), (2, 1), (0, 2), (3, 2)]);
    assert_eq!(b.is_winner(), Some(CellState::X));
    let mut b = board(4, 3);
    play_all(&mut b, &[(0, 1), (3, 0), (1, 2), (3, 1), (2, 3)]);
    assert_eq!(b.is_winner(), Some(CellState::X));
}

#[test]
fn every_anti_diagonal_pair_wins_on_a_wide_board() {
    for row in 0..9 {
        for col in 1..10 {
            let mut b = board(10, 2);
            let other = if row == 0 && col == 9 { (5, 5) } else { (0, 9) };
            let far = if (row, col) == (0, 9) || (row + 1, col - 1) == (0, 9) {
                (9, 9)
            } else {
                other
            };
            play_all(&mut b, &[(row, col), far, (row + 1, col - 1)]);
            assert_eq!(b.is_winner(), Some(CellState::X), "at {:?}", (row, col));
        }
    }
}

#[test]
fn run_length_one_is_won_by_the_first_mark() {
    let mut b = board(3, 1);
    assert_eq!(b.is_winner(), None);
    b.play_move(2, 1);
    assert_eq!(b.is_winner(), Some(CellState::X));
}

#[test]
fn rows_are_searched_before_columns() {
    let mut b = board(3, 2);
    // X holds a column pair, then O a row pair above it in scan order.
    play_all(&mut b, &[(1, 0), (0, 1), (2, 0), (0, 2)]);
    assert_eq!(b.is_winner(), Some(CellState::O));
}

#[test]
fn find_winner_reports_the_first_completed_run() {
    let b = board(5, 3);
    let x = CellState::X;
    let o = CellState::O;
    let e = CellState::Empty;
    assert_eq!(b.find_winner(&[x, x, o, o, o]), Some(o));
    assert_eq!(b.find_winner(&[x, x, x, o, o, o]), Some(x));
    assert_eq!(b.find_winner(&[x, x, e, x, o]), None);
    assert_eq!(b.find_winner(&[e, e, e, e]), None);
    assert_eq!(b.find_winner(&[o, x, x, x]), Some(x));
    assert_eq!(b.find_winner(&[x, x]), None);
    assert_eq!(b.find_winner(&[]), None);
}

#[test]
fn find_winner_with_run_length_one_takes_the_first_mark() {
    let b = board(3, 1);
    let x = CellState::X;
    let o = CellState::O;
    let e = CellState::Empty;
    assert_eq!(b.find_winner(&[e, o, x]), Some(o));
    assert_eq!(b.find_winner(&[e, e]), None);
}

#[test]
fn reset_restores_the_empty_board() {
    let mut b = board(3, 3);
    play_all(&mut b, &[(0, 0), (1, 1), (0, 1), (2, 2), (0, 2)]);
    assert_eq!(b.is_winner(), Some(CellState::X));
    assert_eq!(b.get_current_player(), CellState::O);
    b.reset();
    assert_eq!(b.get_grid(), vec![vec![CellState::Empty; 3]; 3]);
    assert_eq!(b.get_current_player(), CellState::X);
    assert!(!b.is_board_full());
    assert_eq!(b.is_winner(), None);
    // The index of diagonals is still in place.
    play_all(&mut b, &[(0, 2), (0, 1), (1, 1), (0, 0), (2, 0)]);
    assert_eq!(b.is_winner(), Some(CellState::X));
}

#[test]
fn opponent_alternates() {
    assert_eq!(CellState::X.opponent(), CellState::O);
    assert_eq!(CellState::O.opponent(), CellState::X);
    assert_eq!(CellState::Empty.opponent(), CellState::X);
}
