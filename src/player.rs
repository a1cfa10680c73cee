//! Players of a game with a fixed number `N` of seats.

use crate::text::{decimal, decimal_string};
use crate::util::{parse_usize, usize_text_value, FromStrHelp};
use vstd::prelude::*;

verus! {

/// A player of an `N`-player game: an index in `[0, N)`.
///
/// A player should only be built through `from_index`, which checks the
/// index; `wf` states the range.
#[derive(Debug, Copy, Clone, Eq)]
pub struct Player<const N: usize>(pub usize);

impl<const N: usize> Player<N> {
    /// The index is in range.
    pub open spec fn wf(&self) -> bool {
        self.0 < N
    }

    /// The player after this one, going round the table.
    pub open spec fn next_spec(&self) -> Player<N> {
        Player(((self.0 + 1) % (N as int)) as usize)
    }

    /// The player before this one, going round the table.
    pub open spec fn prev_spec(&self) -> Player<N> {
        Player(
            (if self.0 == 0 {
                N - 1
            } else {
                self.0 - 1
            }) as usize,
        )
    }

    /// Whether the index is in range.
    pub fn is_valid(&self) -> (r: bool)
        ensures
            r == self.wf(),
    {
        self.0 < N
    }

    /// The player with index `n`, if `n < N`.
    pub fn from_index(n: usize) -> (r: Option<Self>)
        ensures
            n < N ==> r == Some(Player::<N>(n)),
            n >= N ==> r is None,
    {
        let result = Player::<N>(n);
        if result.is_valid() {
            Some(result)
        } else {
            None
        }
    }

    /// The index of this player.
    pub fn as_index(&self) -> (r: usize)
        requires
            self.wf(),
        ensures
            r == self.0,
            r < N,
    {
        self.0
    }

    /// The player after this one; the last player is followed by the first.
    pub fn next_player(&self) -> (r: Self)
        requires
            self.wf(),
        ensures
            r == self.next_spec(),
            r.wf(),
    {
        let n: usize = (self.0 + 1) % N;
        Player(n)
    }

    /// The player before this one; the first player is preceded by the last.
    pub fn prev_player(&self) -> (r: Self)
        requires
            self.wf(),
        ensures
            r == self.prev_spec(),
            r.next_spec() == *self,
            r.wf(),
    {
        let n: usize = if self.0 == 0 {
            N - 1
        } else {
            self.0 - 1
        };
        proof {
            if self.0 == 0 {
                vstd::arithmetic::div_mod::lemma_mod_self_0(N as int);
            } else {
                vstd::arithmetic::div_mod::lemma_small_mod(self.0 as nat, N as nat);
            }
        }
        Player(n)
    }

    /// The player's name, counting from one, in lower case: `player 2`.
    pub fn name_lower(&self) -> (r: String)
        requires
            self.wf(),
        ensures
            r@ == "player "@ + decimal(self.0 as nat + 1),
    {
        let mut s = "player ".to_string();
        let number = decimal_string(self.0 + 1);
        s.append(number.as_str());
        s
    }

    /// The player's name, counting from one, capitalised: `Player 2`.
    pub fn name_upper(&self) -> (r: String)
        requires
            self.wf(),
        ensures
            r@ == "Player "@ + decimal(self.0 as nat + 1),
    {
        let mut s = "Player ".to_string();
        let number = decimal_string(self.0 + 1);
        s.append(number.as_str());
        s
    }

    /// What reading a player number (counting from one) from `s` gives.
    pub open spec fn number_read(s: Seq<char>, r: Result<Player<N>, ParsePlayerErr>) -> bool {
        match usize_text_value(s) {
            None => r is Err && r->Err_0 is NotUsize,
            Some(n) => if n == 0 {
                r == Err::<Player<N>, ParsePlayerErr>(ParsePlayerErr::IndexZero)
            } else if n > N {
                r == Err::<Player<N>, ParsePlayerErr>(ParsePlayerErr::IndexTooLarge(n))
            } else {
                r == Ok::<Player<N>, ParsePlayerErr>(Player((n - 1) as usize))
            },
        }
    }

    /// Read a player from its number, counting from one.
    pub fn parse(s: &str) -> (r: Result<Player<N>, ParsePlayerErr>)
        ensures
            Self::number_read(s@, r),
    {
        let player_num = match parse_usize(s) {
            Ok(n) => n,
            Err(e) => {
                return Err(ParsePlayerErr::NotUsize(e));
            },
        };
        if player_num == 0 {
            Err(ParsePlayerErr::IndexZero)
        } else if player_num > N {
            Err(ParsePlayerErr::IndexTooLarge(player_num))
        } else {
            Ok(Player(player_num - 1))
        }
    }
}

/// `p` advanced by `k` turns.
pub open spec fn advance<const N: usize>(p: Player<N>, k: nat) -> Player<N>
    decreases k,
{
    if k == 0 {
        p
    } else {
        advance(p, (k - 1) as nat).next_spec()
    }
}

/// Passing the turn on `k` times moves a player `k` seats round the table.
pub proof fn lemma_advance<const N: usize>(p: Player<N>, k: nat)
    requires
        p.wf(),
    ensures
        advance(p, k).0 == (p.0 + k) % (N as int),
        advance(p, k).wf(),
    decreases k,
{
    if k > 0 {
        lemma_advance(p, (k - 1) as nat);
        let a = (p.0 + k - 1) % (N as int);
        assert((a + 1) % (N as int) == (p.0 + k) % (N as int)) by {
            vstd::arithmetic::div_mod::lemma_add_mod_noop(p.0 + k - 1, 1, N as int);
            vstd::arithmetic::div_mod::lemma_mod_twice(p.0 + k - 1, N as int);
            vstd::arithmetic::div_mod::lemma_add_mod_noop(a, 1, N as int);
        }
    } else {
        vstd::arithmetic::div_mod::lemma_small_mod(p.0 as nat, N as nat);
    }
}

/// Passing the turn on `N` times comes back to the same player: the
/// players form a cycle of length `N`.
pub proof fn lemma_next_cycle<const N: usize>(p: Player<N>)
    requires
        p.wf(),
    ensures
        advance(p, N as nat) == p,
{
    lemma_advance(p, N as nat);
    vstd::arithmetic::div_mod::lemma_mod_add_multiples_vanish(p.0 as int, N as int);
    vstd::arithmetic::div_mod::lemma_small_mod(p.0 as nat, N as nat);
}

/// Why a player could not be read from text.
#[derive(Debug)]
pub enum ParsePlayerErr {
    NotUsize(core::num::ParseIntError),
    IndexZero,
    IndexTooLarge(usize),
}

impl ParsePlayerErr {
    /// A message for the person who typed the text.
    pub fn message(&self) -> (r: String)
        ensures
            match *self {
                ParsePlayerErr::NotUsize(_) => exists|t: Seq<char>|
                    r@ == #[trigger] ("invalid integer ("@ + t) + ")"@,
                ParsePlayerErr::IndexZero => r@ == "player number must be > 0"@,
                ParsePlayerErr::IndexTooLarge(x) => r@ == "player number too large: "@ + decimal(
                    x as nat,
                ),
            },
    {
        match self {
            ParsePlayerErr::NotUsize(e) => {
                let mut s = "invalid integer (".to_string();
                let detail = e.to_string();
                s.append(detail.as_str());
                s.append(")");
                assert(s@ == ("invalid integer ("@ + detail@) + ")"@);
                s
            },
            ParsePlayerErr::IndexZero => "player number must be > 0".to_string(),
            ParsePlayerErr::IndexTooLarge(x) => {
                let mut s = "player number too large: ".to_string();
                let number = decimal_string(*x);
                s.append(number.as_str());
                s
            },
        }
    }
}

impl From<core::num::ParseIntError> for ParsePlayerErr {
    fn from(err: core::num::ParseIntError) -> (r: ParsePlayerErr) {
        ParsePlayerErr::NotUsize(err)
    }
}

impl vstd::std_specs::convert::FromSpecImpl<core::num::ParseIntError> for ParsePlayerErr {
    open spec fn obeys_from_spec() -> bool {
        true
    }

    open spec fn from_spec(err: core::num::ParseIntError) -> ParsePlayerErr {
        ParsePlayerErr::NotUsize(err)
    }
}

impl<const N: usize> std::str::FromStr for Player<N> {
    type Err = ParsePlayerErr;

    fn from_str(s: &str) -> Result<Player<N>, ParsePlayerErr> {
        Player::<N>::parse(s)
    }
}

impl<const N: usize> FromStrHelp for Player<N> {
    fn query() -> String {
        let mut s = "Choose a player between 1 and ".to_string();
        let top = decimal_string(N);
        s.append(top.as_str());
        s.append(": ");
        s
    }

    fn from_str_help(s: &str) -> Result<Player<N>, String> {
        match Player::<N>::parse(s) {
            Ok(p) => Ok(p),
            Err(ParsePlayerErr::NotUsize(_)) => Err("Not an integer.".to_string()),
            Err(_) => {
                let mut msg = "Not between 1 and ".to_string();
                let top = decimal_string(N);
                msg.append(top.as_str());
                msg.append(".");
                Err(msg)
            },
        }
    }

    fn help() -> Option<String> {
        None
    }
}

impl<const N: usize> PartialEq for Player<N> {
    fn eq(&self, other: &Self) -> (r: bool) {
        self.0 == other.0
    }
}

impl<const N: usize> vstd::std_specs::cmp::PartialEqSpecImpl for Player<N> {
    open spec fn obeys_eq_spec() -> bool {
        true
    }

    open spec fn eq_spec(&self, other: &Self) -> bool {
        self.0 == other.0
    }
}

pub type TwoPlayers = Player<2>;

impl Player<2> {
    /// The other player.
    pub fn opponent(&self) -> (r: Player<2>)
        requires
            self.wf(),
        ensures
            r == self.next_spec(),
            r.0 == 1 - self.0,
    {
        self.next_player()
    }

    /// The second player for `true`, the first for `false`.
    pub fn from_bool(b: bool) -> (r: Player<2>)
        ensures
            r.0 == (if b {
                1usize
            } else {
                0usize
            }),
    {
        if b {
            Player(1)
        } else {
            Player(0)
        }
    }

    /// `true` for the second player, `false` for the first.
    pub fn as_bool(&self) -> (r: bool)
        requires
            self.wf(),
        ensures
            r == (self.0 == 1),
    {
        self.0 == 1
    }
}


} // verus!
