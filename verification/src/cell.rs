use vstd::prelude::*;

verus! {

/// What a single cell of the grid holds.
#[derive(Clone, Copy, Debug, PartialEq, Eq, Hash, Structural)]
pub enum CellState {
    Empty,
    X,
    O,
}

impl CellState {
    /// A cell that carries a player's mark.
    pub open spec fn is_player(self) -> bool {
        self != CellState::Empty
    }

    /// The player who moves after `self`; `X` opens the game and also follows
    /// anything that is not `X`.
    pub open spec fn spec_opponent(self) -> CellState {
        if self == CellState::X {
            CellState::O
        } else {
            CellState::X
        }
    }

    /// The player who moves after `self`.
    #[verifier::when_used_as_spec(spec_opponent)]
    pub fn opponent(self) -> (next: CellState)
        ensures
            next == self.spec_opponent(),
    {
        if self == CellState::X {
            CellState::O
        } else {
            CellState::X
        }
    }
}

} // verus!
