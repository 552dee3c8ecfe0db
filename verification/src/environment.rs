use crate::board::grid_view;
use crate::board::Board;
use crate::board::BoardView;
use crate::board::ConfigError;
use crate::board::Grid;
use crate::cell::CellState;
use crate::chance::draw_bool;
use vstd::prelude::*;

verus! {

/// The rewards that a step can yield.
pub struct Reward;

impl Reward {
    /// The learning player has won.
    pub const WIN: i32 = 2;

    /// The other player has won.
    pub const LOSS: i32 = -1;

    /// The board is full and nobody has won.
    pub const DRAW: i32 = 1;

    /// The episode goes on.
    pub const INTERMEDIATE: i32 = 0;
}

/// A move: the cell that a player asks for.
#[derive(Clone, Copy, Debug, PartialEq, Eq, Hash, Structural)]
pub struct Action {
    /// The row of the cell.
    pub x_axis: usize,
    /// The column of the cell.
    pub y_axis: usize,
}

/// A snapshot of the grid.
pub type State = Grid;

/// The side the learning player takes for a drawn bit.
pub open spec fn spec_player_for(draw: bool) -> CellState {
    if draw {
        CellState::X
    } else {
        CellState::O
    }
}

/// The side the learning player takes for a drawn bit: `X` for `true`, `O`
/// for `false`.
#[verifier::when_used_as_spec(spec_player_for)]
pub fn player_for(draw: bool) -> (player: CellState)
    ensures
        player == spec_player_for(draw),
{
    if draw {
        CellState::X
    } else {
        CellState::O
    }
}

/// What the learning player `player` is paid for reaching `board`: 2 where
/// the player has won, -1 where somebody else has, 1 where the board is full
/// without a winner, and 0 while the game goes on.
pub open spec fn reward_for(board: BoardView, player: CellState) -> int {
    match board.winner() {
        Some(winner) => if winner == player {
            Reward::WIN as int
        } else {
            Reward::LOSS as int
        },
        None => if board.is_full() {
            Reward::DRAW as int
        } else {
            Reward::INTERMEDIATE as int
        },
    }
}

/// Pays the learning player `player` for the position on `board`.
pub fn reward_of(board: &Board, player: CellState) -> (reward: i32)
    ensures
        reward == reward_for(board@, player),
        board@.wf(),
{
    match board.is_winner() {
        Some(winner) => if winner == player {
            Reward::WIN
        } else {
            Reward::LOSS
        },
        None => if board.is_board_full() {
            Reward::DRAW
        } else {
            Reward::INTERMEDIATE
        },
    }
}

/// The cells that `actions` ask for, in the same order.
pub open spec fn cells_of(actions: Seq<Action>) -> Seq<(int, int)> {
    Seq::new(actions.len(), |i: int| (actions[i].x_axis as int, actions[i].y_axis as int))
}

/// The mathematical content of an environment.
pub struct EnvironmentView {
    /// The board of the running episode.
    pub board: BoardView,
    /// The side of the learning player.
    pub player: CellState,
    /// The reward of the last step, 0 before the first.
    pub reward: int,
}

/// One episode of the game as a learning agent sees it.
pub struct Environment {
    board: Board,
    reward: i32,
    player: CellState,
}

impl View for Environment {
    type V = EnvironmentView;

    closed spec fn view(&self) -> EnvironmentView {
        EnvironmentView { board: self.board@, player: self.player, reward: self.reward as int }
    }
}

impl Environment {
    /// Creates an environment whose learning player is drawn at random.
    pub fn new(size: usize, win_condition: usize) -> (made: Result<Environment, ConfigError>)
        ensures
            match made {
                Ok(env) => {
                    &&& size >= 1
                    &&& win_condition >= 1
                    &&& env@.board == BoardView::initial(size as nat, win_condition as nat)
                    &&& env@.reward == 0
                    &&& env@.player == CellState::X || env@.player == CellState::O
                },
                Err(ConfigError::ZeroSize) => size == 0,
                Err(ConfigError::ZeroRunLength) => size >= 1 && win_condition == 0,
            },
    {
        Environment::with_draw(size, win_condition, draw_bool())
    }

    /// Creates an environment whose learning player is the one that stands
    /// for `draw`.
    pub fn with_draw(size: usize, win_condition: usize, draw: bool) -> (made: Result<
        Environment,
        ConfigError,
    >)
        ensures
            match made {
                Ok(env) => {
                    &&& size >= 1
                    &&& win_condition >= 1
                    &&& env@ == (EnvironmentView {
                        board: BoardView::initial(size as nat, win_condition as nat),
                        player: spec_player_for(draw),
                        reward: 0,
                    })
                },
                Err(ConfigError::ZeroSize) => size == 0,
                Err(ConfigError::ZeroRunLength) => size >= 1 && win_condition == 0,
            },
    {
        match Board::new(size, win_condition) {
            Ok(board) => Ok(
                Environment { board, reward: Reward::INTERMEDIATE, player: player_for(draw) },
            ),
            Err(error) => Err(error),
        }
    }

    /// Starts a new episode: the board is cleared, the reward is back at 0,
    /// and the learning player is drawn anew.
    pub fn reset(&mut self)
        ensures
            final(self)@.board == BoardView::initial(
                old(self)@.board.size(),
                old(self)@.board.run_length,
            ),
            final(self)@.reward == 0,
            final(self)@.player == CellState::X || final(self)@.player == CellState::O,
    {
        self.reset_with(draw_bool());
    }

    /// Starts a new episode in which the learning player is the one that
    /// stands for `draw`.
    pub fn reset_with(&mut self, draw: bool)
        ensures
            final(self)@ == (EnvironmentView {
                board: BoardView::initial(old(self)@.board.size(), old(self)@.board.run_length),
                player: spec_player_for(draw),
                reward: 0,
            }),
    {
        self.board.reset();
        self.reward = Reward::INTERMEDIATE;
        self.player = player_for(draw);
    }

    /// Plays `action` for the player to move and pays the learning player for
    /// the board that results. An action that is not a valid move leaves the
    /// board as it was. Returns the grid after the move and the reward.
    pub fn step(&mut self, action: Action) -> (outcome: (State, i32))
        ensures
            final(self)@.board == old(self)@.board.play(
                action.x_axis as int,
                action.y_axis as int,
            ),
            final(self)@.player == old(self)@.player,
            final(self)@.reward == reward_for(final(self)@.board, old(self)@.player),
            grid_view(outcome.0@) == final(self)@.board.cells,
            outcome.1 == final(self)@.reward,
            final(self)@.board.wf(),
    {
        self.board.play_move(action.x_axis, action.y_axis);
        self.reward = reward_of(&self.board, self.player);
        (self.get_grid(), self.reward)
    }

    /// Returns the valid moves, row by row from the top and within a row from
    /// the left.
    pub fn get_possible_moves(&self) -> (moves: Vec<Action>)
        ensures
            self@.board.lists_empty_cells(cells_of(moves@)),
    {
        let cells = self.board.get_possible_actions();
        let mut moves: Vec<Action> = Vec::new();
        let mut i: usize = 0;
        while i < cells.len()
            invariant
                i <= cells.len(),
                moves.len() == i,
                forall|j: int|
                    0 <= j < i ==> moves[j] == (Action { x_axis: cells[j].0, y_axis: cells[j].1 }),
            decreases cells.len() - i,
        {
            let (x_axis, y_axis) = cells[i];
            moves.push(Action { x_axis, y_axis });
            i += 1;
        }
        assert(cells_of(moves@) =~= crate::diagonals::coords_of(cells@));
        moves
    }

    /// Returns a copy of the grid.
    pub fn get_grid(&self) -> (grid: State)
        ensures
            grid_view(grid@) == self@.board.cells,
    {
        self.board.get_grid()
    }

    /// Returns the side of the learning player.
    pub fn get_player(&self) -> (player: CellState)
        ensures
            player == self@.player,
    {
        self.player
    }

    /// Returns the reward of the last step.
    pub fn get_reward(&self) -> (reward: i32)
        ensures
            reward == self@.reward,
    {
        self.reward
    }
}

} // verus!
