//! The game of Nim: players take turns removing sticks from one pile; who
//! takes the last stick wins. Everything is visible to everybody.

use crate::abstract_game::{AbstractGame, GameStatus};
use crate::player::Player;
use crate::text::{decimal, decimal_string, join_strings, joined, texts};
use crate::util::{list_items, parse_vec_usize, usize_text_value};
use vstd::prelude::*;

verus! {

/// The sticks left in the piles, and who moves.
#[derive(Debug)]
pub struct NimState<const N: usize> {
    piles: Vec<usize>,
    total_sticks: usize,
    to_move: Player<N>,
}

/// Take `take` sticks from pile number `pile`, counting piles from one.
#[derive(Debug, Copy, Clone, PartialEq, Eq, Structural)]
pub struct NimMove {
    pub pile: usize,
    pub take: usize,
}

/// The number of sticks in all the piles.
pub open spec fn pile_sum(s: Seq<usize>) -> nat
    decreases s.len(),
{
    if s.len() == 0 {
        0
    } else {
        pile_sum(s.drop_last()) + s.last() as nat
    }
}

/// Changing one pile changes the total by the same amount.
pub proof fn lemma_pile_sum_update(s: Seq<usize>, i: int, v: usize)
    requires
        0 <= i < s.len(),
    ensures
        pile_sum(s.update(i, v)) + s[i] == pile_sum(s) + v,
        s[i] <= pile_sum(s),
    decreases s.len(),
{
    if i == s.len() - 1 {
        assert(s.update(i, v).drop_last() =~= s.drop_last());
    } else {
        lemma_pile_sum_update(s.drop_last(), i, v);
        assert(s.update(i, v).drop_last() =~= s.drop_last().update(i, v));
    }
}

/// A first part of the piles holds no more sticks than all of them.
proof fn lemma_pile_sum_prefix(s: Seq<usize>, i: int)
    requires
        0 <= i <= s.len(),
    ensures
        pile_sum(s.subrange(0, i)) <= pile_sum(s),
    decreases s.len(),
{
    if i < s.len() {
        assert(s.subrange(0, i) =~= s.drop_last().subrange(0, i));
        lemma_pile_sum_prefix(s.drop_last(), i);
    } else {
        assert(s.subrange(0, i) =~= s);
    }
}

/// The move that `raw` writes: two non-negative integers, pile and count.
pub open spec fn nim_move_of_text(raw: Seq<char>) -> Option<NimMove> {
    let items = list_items(raw);
    if items.len() == 2 && usize_text_value(items[0]) is Some && usize_text_value(items[1]) is Some {
        Some(
            NimMove {
                pile: usize_text_value(items[0])->Some_0,
                take: usize_text_value(items[1])->Some_0,
            },
        )
    } else {
        None
    }
}

/// The message for text that writes no move: one for items that are not
/// numbers, another for the wrong number of items.
pub open spec fn nim_parse_error(raw: Seq<char>) -> Seq<char> {
    let items = list_items(raw);
    if exists|i: int| 0 <= i < items.len() && (#[trigger] usize_text_value(items[i])) is None {
        "Move should be two integers separated by a space. "@
    } else {
        "Move should be exactly two integers. "@
    }
}

/// The message for a move on `piles` that breaks a rule, by the first rule
/// it breaks: a pile that does not exist, no stick taken, too many sticks.
pub open spec fn nim_check_error(piles: Seq<usize>, mv: NimMove) -> Seq<char> {
    if mv.pile == 0 || mv.pile > piles.len() {
        "Pile should be between 1 and "@ + decimal(piles.len()) + ". "@
    } else if mv.take == 0 {
        "Must take at least one stick. "@
    } else if mv.take > piles[mv.pile - 1] {
        "Not enough sticks in that pile. "@
    } else {
        Seq::empty()
    }
}

/// The text that shows the piles: `Piles: [3, 0, 5]`.
pub open spec fn piles_text(s: Seq<usize>) -> Seq<char> {
    "Piles: ["@ + joined(Seq::new(s.len(), |i: int| decimal(s[i] as nat)), seq![',', ' '])
        + "]"@
}

impl<const N: usize> NimState<N> {
    /// The piles.
    pub closed spec fn piles_spec(&self) -> Seq<usize> {
        self.piles@
    }

    /// The player who moves next.
    pub closed spec fn mover(&self) -> Player<N> {
        self.to_move
    }

    /// The stick counter.
    pub closed spec fn total(&self) -> nat {
        self.total_sticks as nat
    }

    /// The players are at least one, the mover is one of them, and the
    /// counter holds the number of sticks.
    pub open spec fn wf(&self) -> bool {
        &&& N > 0
        &&& self.mover().wf()
        &&& self.total() == pile_sum(self.piles_spec())
    }

    /// The game goes on while there are sticks; when none are left, the
    /// player who took the last one has won.
    pub open spec fn status_spec(&self) -> GameStatus<N> {
        if pile_sum(self.piles_spec()) == 0 {
            GameStatus::Won(self.mover().prev_spec())
        } else {
            GameStatus::ToMove(self.mover())
        }
    }

    /// A move takes at least one stick, and no more than the pile holds,
    /// from a pile that exists.
    pub open spec fn legal_spec(&self, mv: NimMove) -> bool {
        &&& 1 <= mv.pile <= self.piles_spec().len()
        &&& 1 <= mv.take <= self.piles_spec()[mv.pile - 1]
    }

    /// The piles once `mv` is played, which then passes the turn on.
    pub open spec fn moved_spec(&self, mv: NimMove, after: NimState<N>) -> bool {
        &&& after.piles_spec() == self.piles_spec().update(
            mv.pile - 1,
            (self.piles_spec()[mv.pile - 1] - mv.take) as usize,
        )
        &&& after.mover() == self.mover().next_spec()
    }

    /// A game on the given piles, with the first player to move.
    pub fn new(piles: Vec<usize>) -> (r: NimState<N>)
        requires
            N > 0,
            pile_sum(piles@) <= usize::MAX,
        ensures
            r.wf(),
            r.piles_spec() == piles@,
            r.mover() == Player::<N>(0),
    {
        let mut total: usize = 0;
        let mut i: usize = 0;
        while i < piles.len()
            invariant
                i <= piles@.len(),
                total == pile_sum(piles@.subrange(0, i as int)),
                pile_sum(piles@) <= usize::MAX,
            decreases piles.len() - i,
        {
            assert(piles@.subrange(0, i as int + 1).drop_last() =~= piles@.subrange(0, i as int));
            proof {
                lemma_pile_sum_prefix(piles@, i as int + 1);
            }
            total = total + piles[i];
            i += 1;
        }
        assert(piles@.subrange(0, piles@.len() as int) =~= piles@);
        NimState { piles, total_sticks: total, to_move: Player(0) }
    }
}

impl<const N: usize> AbstractGame<N> for NimState<N> {
    type Move = NimMove;

    type SetupParams = Vec<usize>;

    open spec fn inv(&self) -> bool {
        self.wf()
    }

    open spec fn setup_ok(params: Vec<usize>) -> bool {
        N > 0 && pile_sum(params@) <= usize::MAX
    }

    /// The piles are the given ones and the first player is to move.
    open spec fn starts(params: Vec<usize>, start: NimState<N>) -> bool {
        start.piles_spec() == params@ && start.mover() == Player::<N>(0)
    }

    open spec fn status_of(&self) -> GameStatus<N> {
        self.status_spec()
    }

    open spec fn legal(&self, mv: NimMove) -> bool {
        self.legal_spec(mv)
    }

    open spec fn moved(&self, mv: NimMove, after: NimState<N>) -> bool {
        self.moved_spec(mv, after)
    }

    open spec fn move_text(raw: Seq<char>) -> Option<NimMove> {
        nim_move_of_text(raw)
    }

    open spec fn parse_error(raw: Seq<char>) -> Seq<char> {
        nim_parse_error(raw)
    }

    open spec fn check_error(&self, mv: NimMove) -> Seq<char> {
        nim_check_error(self.piles_spec(), mv)
    }

    open spec fn state_text(&self, plyr: Player<N>) -> Seq<char> {
        piles_text(self.piles_spec())
    }

    fn game_setup(piles: Vec<usize>) -> (r: NimState<N>) {
        NimState::new(piles)
    }

    fn status(&self) -> (r: GameStatus<N>) {
        if self.total_sticks == 0 {
            GameStatus::Won(self.to_move.prev_player())
        } else {
            GameStatus::ToMove(self.to_move)
        }
    }

    fn make_move(&mut self, mv: NimMove) {
        let i = mv.pile - 1;
        proof {
            lemma_pile_sum_update(self.piles@, i as int, (self.piles@[i as int] - mv.take) as usize);
        }
        let left = self.piles[i] - mv.take;
        self.piles.set(i, left);
        self.total_sticks = self.total_sticks - mv.take;
        self.to_move = self.to_move.next_player();
    }

    fn query(&self) -> String {
        "Choose a pile and number of sticks: ".to_string()
    }

    fn parse_move(&self, raw: &str) -> (r: Result<NimMove, String>) {
        let ints = match parse_vec_usize(raw) {
            Some(v) => v,
            None => {
                return Err("Move should be two integers separated by a space. ".to_string());
            },
        };
        if ints.len() == 2 {
            Ok(NimMove { pile: ints[0], take: ints[1] })
        } else {
            Err("Move should be exactly two integers. ".to_string())
        }
    }

    fn check_move(&self, mv: &NimMove) -> (r: Result<(), String>) {
        if mv.pile == 0 || mv.pile > self.piles.len() {
            let mut msg = "Pile should be between 1 and ".to_string();
            let top = decimal_string(self.piles.len());
            msg.append(top.as_str());
            msg.append(". ");
            assert(msg@ == <NimState<N> as AbstractGame<N>>::check_error(self, *mv));
            Err(msg)
        } else if mv.take == 0 {
            let msg = "Must take at least one stick. ".to_string();
            assert(msg@ == <NimState<N> as AbstractGame<N>>::check_error(self, *mv));
            Err(msg)
        } else if mv.take > self.piles[mv.pile - 1] {
            let msg = "Not enough sticks in that pile. ".to_string();
            assert(msg@ == <NimState<N> as AbstractGame<N>>::check_error(self, *mv));
            Err(msg)
        } else {
            Ok(())
        }
    }

    fn print_state_visible(&self, plyr: Player<N>) -> (r: String) {
        let mut parts: Vec<String> = Vec::new();
        let mut i: usize = 0;
        while i < self.piles.len()
            invariant
                i <= self.piles@.len(),
                texts(parts@) =~= Seq::new(i as nat, |j: int| decimal(self.piles@[j] as nat)),
            decreases self.piles.len() - i,
        {
            let piece = decimal_string(self.piles[i]);
            let ghost before = parts@;
            parts.push(piece);
            assert(texts(parts@) =~= texts(before).push(piece@));
            i += 1;
        }
        proof {
            reveal_strlit(", ");
            assert(", "@ =~= seq![',', ' ']);
        }
        let list = join_strings(&parts, ", ");
        let mut s = "Piles: [".to_string();
        s.append(list.as_str());
        s.append("]");
        s
    }
}

} // verus!
