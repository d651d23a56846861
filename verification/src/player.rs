//! The two-player demo schema that ships with the core: which of the two
//! player colours a peer controls, and how many are connected.

use vstd::prelude::*;

verus! {

/// One of the two player slots the demo server hands out.
#[derive(Clone, Copy, Debug, PartialEq, Eq, Structural)]
pub enum PlayerType {
    Yellow,
    Red,
}

impl PlayerType {
    /// The other player's colour.
    pub fn opposite(&self) -> (other: PlayerType)
        ensures
            other == (match self {
                PlayerType::Red => PlayerType::Yellow,
                PlayerType::Yellow => PlayerType::Red,
            }),
    {
        match self {
            PlayerType::Red => PlayerType::Yellow,
            PlayerType::Yellow => PlayerType::Red,
        }
    }
}

/// How many player slots are taken, and by whom when only one is.
#[derive(Clone, Copy, Debug, PartialEq, Eq, Structural)]
pub enum Players {
    Both,
    Single(PlayerType),
    Neither,
}

} // verus!
