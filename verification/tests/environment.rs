use tictactoe::board::ConfigError;
use tictactoe::cell::CellState;
use tictactoe::board::Board;
use tictactoe::environment::player_for;
use tictactoe::environment::reward_of;
use tictactoe::environment::Action;
use tictactoe::environment::Environment;
use tictactoe::environment::Reward;

fn at(x_axis: usize, y_axis: usize) -> Action {
    Action { x_axis, y_axis }
}

fn environment(size: usize, run: usize, draw: bool) -> Environment {
    match Environment::with_draw(size, run, draw) {
        Ok(env) => env,
        Err(error) => panic!("environment refused: {:?}", error),
    }
}

#[test]
fn rewards_have_their_values() {
    assert_eq!(Reward::WIN, 2);
    assert_eq!(Reward::LOSS, -1);
    assert_eq!(Reward::DRAW, 1);
    assert_eq!(Reward::INTERMEDIATE, 0);
}

#[test]
fn drawn_bit_names_the_learning_player() {
    assert_eq!(player_for(true), CellState::X);
    assert_eq!(player_for(false), CellState::O);
    assert_eq!(environment(3, 3, true).get_player(), CellState::X);
    assert_eq!(environment(3, 3, false).get_player(), CellState::O);
}

#[test]
fn new_draws_one_of_the_two_players() {
    for _ in 0..20 {
        let env = Environment::new(3, 3).ok().expect("a 3 by 3 board is accepted");
        let player = env.get_player();
        assert!(player == CellState::X || player == CellState::O);
        assert_eq!(env.get_reward(), 0);
        assert_eq!(env.get_grid(), vec![vec![CellState::Empty; 3]; 3]);
    }
}

#[test]
fn new_refuses_what_the_board_refuses() {
    assert_eq!(Environment::new(0, 3).err(), Some(ConfigError::ZeroSize));
    assert_eq!(
        Environment::with_draw(3, 0, true).err(),
        Some(ConfigError::ZeroRunLength)
    );
}

#[test]
fn win_pays_two_to_the_learning_player() {
    let mut env = environment(3, 3, true);
    for action in [at(0, 0), at(1, 1), at(0, 1), at(2, 2)] {
        let (_, reward) = env.step(action);
        assert_eq!(reward, 0);
    }
    let (grid, reward) = env.step(at(0, 2));
    assert_eq!(reward, 2);
    assert_eq!(env.get_reward(), 2);
    assert_eq!(grid[0], vec![CellState::X; 3]);
    assert_eq!(grid, env.get_grid());
}

#[test]
fn win_of_the_other_player_costs_one() {
    let mut env = environment(3, 3, false);
    for action in [at(0, 0), at(1, 1), at(0, 1), at(2, 2)] {
        assert_eq!(env.step(action).1, 0);
    }
    assert_eq!(env.step(at(0, 2)).1, -1);
}

#[test]
fn full_board_without_winner_pays_one() {
    let mut env = environment(3, 3, true);
    let moves = [
        at(0, 0),
        at(0, 1),
        at(0, 2),
        at(1, 1),
        at(1, 0),
        at(1, 2),
        at(2, 1),
        at(2, 0),
    ];
    for action in moves {
        assert_eq!(env.step(action).1, 0);
    }
    let (grid, reward) = env.step(at(2, 2));
    assert_eq!(reward, 1);
    assert!(env.get_possible_moves().is_empty());
    assert!(grid
        .iter()
        .all(|row| row.iter().all(|cell| *cell != CellState::Empty)));
}

#[test]
fn invalid_action_leaves_the_board_and_pays_nothing() {
    let mut env = environment(3, 3, true);
    env.step(at(1, 1));
    let before = env.get_grid();
    let (grid, reward) = env.step(at(1, 1));
    assert_eq!(grid, before);
    assert_eq!(reward, 0);
    let (grid, reward) = env.step(at(7, 0));
    assert_eq!(grid, before);
    assert_eq!(reward, 0);
}

#[test]
fn possible_moves_follow_the_board() {
    let mut env = environment(2, 2, true);
    assert_eq!(
        env.get_possible_moves(),
        vec![at(0, 0), at(0, 1), at(1, 0), at(1, 1)]
    );
    env.step(at(0, 1));
    assert_eq!(env.get_possible_moves(), vec![at(0, 0), at(1, 0), at(1, 1)]);
}

#[test]
fn reset_with_starts_a_fresh_episode() {
    let mut env = environment(3, 3, true);
    for action in [at(0, 0), at(1, 1), at(0, 1), at(2, 2), at(0, 2)] {
        env.step(action);
    }
    assert_eq!(env.get_reward(), 2);
    env.reset_with(false);
    assert_eq!(env.get_reward(), 0);
    assert_eq!(env.get_player(), CellState::O);
    assert_eq!(env.get_grid(), vec![vec![CellState::Empty; 3]; 3]);
    assert_eq!(env.get_possible_moves().len(), 9);
}

#[test]
fn reset_draws_one_of_the_two_players() {
    let mut env = environment(3, 3, true);
    env.step(at(0, 0));
    for _ in 0..20 {
        env.reset();
        let player = env.get_player();
        assert!(player == CellState::X || player == CellState::O);
        assert_eq!(env.get_reward(), 0);
        assert_eq!(env.get_possible_moves().len(), 9);
    }
}

#[test]
fn reward_of_reads_the_board_for_either_player() {
    let mut board = Board::new(3, 3).ok().expect("a 3 by 3 board is accepted");
    assert_eq!(reward_of(&board, CellState::X), 0);
    for (row, col) in [(0, 0), (1, 1), (0, 1), (2, 2), (0, 2)] {
        board.play_move(row, col);
    }
    assert_eq!(reward_of(&board, CellState::X), 2);
    assert_eq!(reward_of(&board, CellState::O), -1);
    assert_eq!(reward_of(&board, CellState::Empty), -1);
}

#[test]
fn win_on_the_last_cell_is_a_win_and_no_draw() {
    let mut env = environment(3, 3, true);
    let moves = [
        at(0, 0),
        at(0, 2),
        at(1, 1),
        at(1, 0),
        at(0, 1),
        at(2, 1),
        at(1, 2),
        at(2, 0),
    ];
    for action in moves {
        assert_eq!(env.step(action).1, 0);
    }
    assert_eq!(env.step(at(2, 2)).1, 2);
    assert!(env.get_possible_moves().is_empty());
}
