//! The two players of the game.

use vstd::prelude::*;

verus! {

/// One of the two players. A cell of the board is either empty or holds
/// a `Player`; players are compared by identity only.
#[derive(Clone, Copy, PartialEq, Eq, Structural, Debug)]
pub enum Player {
    Red,
    Yellow,
}

impl Player {
    /// The opponent of this player.
    pub open spec fn flipped(self) -> Player {
        match self {
            Player::Red => Player::Yellow,
            Player::Yellow => Player::Red,
        }
    }

    /// Returns the opponent: the player whose turn comes next.
    pub fn other(self) -> (p: Player)
        ensures
            p == self.flipped(),
            p != self,
    {
        match self {
            Player::Red => Player::Yellow,
            Player::Yellow => Player::Red,
        }
    }
}

} // verus!
