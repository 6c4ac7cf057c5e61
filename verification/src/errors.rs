//! The one recoverable error the board reports to its callers.

use vstd::prelude::*;

use crate::game::Player;

verus! {

/// Playing an occupied cell fails with the offending index and the player
/// already holding it.
#[derive(Debug, Clone, Copy, PartialEq, Eq, Structural)]
pub enum TicTacError {
    CellAlreadyOccupied(usize, Player),
}

} // verus!
