use vstd::prelude::*;

verus! {

/// One of the two sides. Yellow always moves first.
#[derive(Clone, Copy, Debug, PartialEq, Eq, Structural)]
pub enum Player {
    Yellow,
    Red,
}

impl Player {
    /// The side that moves after this one.
    pub open spec fn opponent(self) -> Player {
        match self {
            Player::Yellow => Player::Red,
            Player::Red => Player::Yellow,
        }
    }

    /// The side that moves after this one.
    pub fn other(self) -> (next: Player)
        ensures
            next == self.opponent(),
    {
        match self {
            Player::Yellow => Player::Red,
            Player::Red => Player::Yellow,
        }
    }
}

} // verus!
