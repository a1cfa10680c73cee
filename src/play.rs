//! The decisions of the turn engine.
//!
//! The engine asks the game for its status, gets a move from a person or
//! from an automated player, checks it, plays it, and goes on until the
//! game is won. Reading and printing are left to the caller; here stand
//! the choices made at each step.

use crate::abstract_game::{AbstractGame, GameStatus};
use crate::player::Player;
use vstd::prelude::*;

verus! {

/// Who acts next.
#[derive(Debug, Copy, Clone)]
pub enum Turn<const N: usize> {
    /// A person types the move of this player.
    Human(Player<N>),
    /// The automated player plays for this player.
    Computer(Player<N>),
    /// The game is over and this player has won.
    Over(Player<N>),
}

/// Who acts in a game with status `status`, when the person holds the seat
/// `you`, or every seat when `you` is `None`.
pub open spec fn turn_for<const N: usize>(status: GameStatus<N>, you: Option<Player<N>>) -> Turn<N> {
    match status {
        GameStatus::ToMove(p) => if you is None || you == Some(p) {
            Turn::Human(p)
        } else {
            Turn::Computer(p)
        },
        GameStatus::Won(p) => Turn::Over(p),
    }
}

/// Decide who acts next; see `turn_for`.
pub fn next_turn<const N: usize>(status: GameStatus<N>, you: Option<Player<N>>) -> (r: Turn<N>)
    ensures
        r == turn_for(status, you),
{
    match status {
        GameStatus::ToMove(p) => match you {
            None => Turn::Human(p),
            Some(y) => if y.0 == p.0 {
                Turn::Human(p)
            } else {
                Turn::Computer(p)
            },
        },
        GameStatus::Won(p) => Turn::Over(p),
    }
}

/// Play `mv` if it is legal and say whether it was; an illegal move leaves
/// the game as it was.
pub fn play_checked<G: AbstractGame<N>, const N: usize>(game: &mut G, mv: G::Move) -> (r: bool)
    requires
        old(game).inv(),
    ensures
        final(game).inv(),
        r == old(game).legal(mv),
        r ==> old(game).moved(mv, *final(game)),
        !r ==> *final(game) == *old(game),
{
    if game.is_valid_move(&mv) {
        game.make_move(mv);
        true
    } else {
        false
    }
}

/// Handle a line that the person typed: read a move from it, check it, and
/// play it; the move played comes back. Text that writes no move gets the
/// game's reading error, a move that breaks a rule gets the rule's error,
/// and in both cases the game stays as it was.
pub fn play_typed<G: AbstractGame<N>, const N: usize>(game: &mut G, raw: &str) -> (r: Result<
    G::Move,
    String,
>)
    requires
        old(game).inv(),
    ensures
        final(game).inv(),
        match G::move_text(raw@) {
            None => r is Err && r->Err_0@ == G::parse_error(raw@) && *final(game) == *old(game),
            Some(mv) => if old(game).legal(mv) {
                r == Ok::<G::Move, String>(mv) && old(game).moved(mv, *final(game))
            } else {
                r is Err && r->Err_0@ == old(game).check_error(mv) && *final(game) == *old(game)
            },
        },
{
    match game.parse_valid_move(raw) {
        Ok(mv) => {
            game.make_move(mv);
            Ok(mv)
        },
        Err(e) => Err(e),
    }
}

} // verus!
