//! Games in which players see different parts of the state.

use crate::abstract_game::AbstractGame;
use vstd::prelude::*;

verus! {

/// A game with hidden information, such as the hidden-ship game: what
/// `print_state_visible` shows a player depends on who the player is.
pub trait PartialInfoGame<const N: usize>: AbstractGame<N> {

}

} // verus!
