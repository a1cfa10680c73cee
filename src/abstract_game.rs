//! The interface every game implements, and the interface of automated
//! players.
//!
//! A game may have any number `N` of players and need not show its whole
//! state to each of them.

use crate::player::Player;
use vstd::prelude::*;

verus! {

/// Whether a game is in progress, and whose move it is; or who has won.
#[derive(Debug, Copy, Clone, Eq)]
pub enum GameStatus<const N: usize> {
    ToMove(Player<N>),
    Won(Player<N>),
}

impl<const N: usize> PartialEq for GameStatus<N> {
    fn eq(&self, other: &Self) -> (r: bool) {
        match (self, other) {
            (GameStatus::ToMove(a), GameStatus::ToMove(b)) => a.0 == b.0,
            (GameStatus::Won(a), GameStatus::Won(b)) => a.0 == b.0,
            _ => false,
        }
    }
}

impl<const N: usize> vstd::std_specs::cmp::PartialEqSpecImpl for GameStatus<N> {
    open spec fn obeys_eq_spec() -> bool {
        true
    }

    open spec fn eq_spec(&self, other: &Self) -> bool {
        *self == *other
    }
}

impl<const N: usize> GameStatus<N> {
    /// The player named by the status is in range.
    pub open spec fn wf(&self) -> bool {
        match *self {
            GameStatus::ToMove(p) => p.wf(),
            GameStatus::Won(p) => p.wf(),
        }
    }
}

/// A turn-based game for `N` players.
///
/// The state decides whose move it is (or who has won); a move is first
/// read from text, then checked for legality, and only a legal move is
/// applied.
pub trait AbstractGame<const N: usize>: Sized {
    type Move: Copy;

    type SetupParams;

    /// The state is consistent.
    spec fn inv(&self) -> bool;

    /// The parameters describe a game that can be set up.
    spec fn setup_ok(params: Self::SetupParams) -> bool;

    /// `start` is the starting position of a game set up with `params`.
    spec fn starts(params: Self::SetupParams, start: Self) -> bool;

    /// The status that the state determines.
    spec fn status_of(&self) -> GameStatus<N>;

    /// `mv` is legal for the player to move.
    spec fn legal(&self, mv: Self::Move) -> bool;

    /// `after` is the state once `mv` has been played from this one.
    spec fn moved(&self, mv: Self::Move, after: Self) -> bool;

    /// The move that `raw` writes, if it writes one.
    spec fn move_text(raw: Seq<char>) -> Option<Self::Move>;

    /// The message for text `raw` that writes no move.
    spec fn parse_error(raw: Seq<char>) -> Seq<char>;

    /// The message for a move that breaks a rule.
    spec fn check_error(&self, mv: Self::Move) -> Seq<char>;

    /// The text that shows `plyr` what `plyr` may see of the state.
    spec fn state_text(&self, plyr: Player<N>) -> Seq<char>;

    /// The starting position.
    fn game_setup(params: Self::SetupParams) -> (r: Self)
        requires
            Self::setup_ok(params),
        ensures
            r.inv(),
            Self::starts(params, r),
    ;

    /// Who is to move, or who has won.
    fn status(&self) -> (r: GameStatus<N>)
        requires
            self.inv(),
        ensures
            r == self.status_of(),
            r.wf(),
    ;

    /// Play a legal move.
    fn make_move(&mut self, mv: Self::Move)
        requires
            old(self).inv(),
            old(self).legal(mv),
        ensures
            final(self).inv(),
            old(self).moved(mv, *final(self)),
    ;

    /// The prompt that asks for a move.
    fn query(&self) -> String;

    /// Read a move from text; the error tells what could not be read.
    fn parse_move(&self, raw: &str) -> (r: Result<Self::Move, String>)
        ensures
            r is Ok <==> Self::move_text(raw@) is Some,
            r is Ok ==> Self::move_text(raw@) == Some(r->Ok_0),
            r is Err ==> r->Err_0@ == Self::parse_error(raw@),
    ;

    /// Check that a move is legal; the error tells which rule it breaks.
    fn check_move(&self, mv: &Self::Move) -> (r: Result<(), String>)
        requires
            self.inv(),
        ensures
            r is Ok <==> self.legal(*mv),
            r is Err ==> r->Err_0@ == self.check_error(*mv),
    ;

    /// The state as `plyr` may see it.
    fn print_state_visible(&self, plyr: Player<N>) -> (r: String)
        requires
            self.inv(),
            plyr.wf(),
        ensures
            r@ == self.state_text(plyr),
    ;

    /// Whether a move is legal.
    fn is_valid_move(&self, mv: &Self::Move) -> (r: bool)
        requires
            self.inv(),
        ensures
            r == self.legal(*mv),
    {
        match self.check_move(mv) {
            Ok(()) => true,
            Err(_) => false,
        }
    }

    /// Read a move from text and check it. Text that writes no move gets
    /// the reading error; a move that breaks a rule gets the rule's error.
    fn parse_valid_move(&self, raw: &str) -> (r: Result<Self::Move, String>)
        requires
            self.inv(),
        ensures
            match Self::move_text(raw@) {
                None => r is Err && r->Err_0@ == Self::parse_error(raw@),
                Some(mv) => if self.legal(mv) {
                    r == Ok::<Self::Move, String>(mv)
                } else {
                    r is Err && r->Err_0@ == self.check_error(mv)
                },
            },
    {
        match self.parse_move(raw) {
            Ok(mv) => match self.check_move(&mv) {
                Ok(()) => Ok(mv),
                Err(e) => Err(e),
            },
            Err(e) => Err(e),
        }
    }

    /// The number of players.
    fn num_players(&self) -> (r: usize)
        ensures
            r == N,
    {
        N
    }

    /// Whether the game is over.
    fn is_ended(&self) -> (r: bool)
        requires
            self.inv(),
        ensures
            r == self.status_of() is Won,
    {
        match self.status() {
            GameStatus::ToMove(_) => false,
            GameStatus::Won(_) => true,
        }
    }

    /// The player to move, unless the game is over.
    fn cur_player(&self) -> (r: Option<Player<N>>)
        requires
            self.inv(),
        ensures
            r == (match self.status_of() {
                GameStatus::ToMove(p) => Some(p),
                GameStatus::Won(_) => None,
            }),
    {
        match self.status() {
            GameStatus::ToMove(p) => Some(p),
            GameStatus::Won(_) => None,
        }
    }
}

/// An automated player.
///
/// Given the game and the player to move, it proposes a move that is
/// meant to be legal, using only what that player may see. Whoever plays
/// the move checks it first.
pub trait Ai<G: AbstractGame<N>, const N: usize>: Sized {
    /// A fresh player.
    fn new() -> Self;

    /// Propose a move for `plyr`, whose turn it is.
    fn ai_move(&mut self, game: &G, plyr: Player<N>) -> G::Move
        requires
            game.inv(),
            game.status_of() == GameStatus::ToMove(plyr),
    ;
}

} // verus!
