//! Rules of the hidden-ship game.

use crate::abstract_game::{AbstractGame, Ai, GameStatus};
use crate::partial_info_game::PartialInfoGame;
use crate::board::{
    board_text, lemma_ship_line_placement, line_open, ship_count, with_ship_line, Board, Coord, Dir, Square, BOARD_COLS,
    BOARD_ROWS,
};
use crate::player::{Player, TwoPlayers};
use crate::text::{decimal, decimal_string};
use crate::util::{isize_text_value, list_items, parse_vec_isize};
use crate::view::VisibilityView;
use vstd::prelude::*;

verus! {

/// Players in the game.
pub const NUM_PLAYERS: usize = 2;

/// A kind of ship, given by its length.
#[derive(Debug, Copy, Clone, PartialEq, Eq, Hash, Structural)]
pub struct ShipType {
    pub length: usize,
}

impl ShipType {
    pub fn from_usize(length: usize) -> (r: ShipType)
        ensures
            r == (ShipType { length }),
    {
        ShipType { length }
    }

    /// The ship of length `length`, unless it is negative.
    pub fn from_isize(length: isize) -> (r: Option<ShipType>)
        ensures
            r == (if length >= 0 {
                Some(ShipType { length: length as usize })
            } else {
                None
            }),
    {
        if length >= 0 {
            Some(ShipType { length: length as usize })
        } else {
            None
        }
    }
}

/// The ships each player has to place at the start.
pub open spec fn starting_fleet() -> Seq<ShipType> {
    seq![ShipType { length: 3 }, ShipType { length: 4 }, ShipType { length: 5 }]
}

fn starting_ships() -> (r: Vec<ShipType>)
    ensures
        r@ == starting_fleet(),
{
    let mut ships: Vec<ShipType> = Vec::new();
    ships.push(ShipType { length: 3 });
    ships.push(ShipType { length: 4 });
    ships.push(ShipType { length: 5 });
    assert(ships@ =~= starting_fleet());
    ships
}

/// A move: place a ship of some length from a position along a direction,
/// or shoot at a position of the opponent's board.
#[derive(Debug, Copy, Clone, PartialEq, Eq, Structural)]
pub enum Move {
    PlaceShip(ShipType, Coord, Dir),
    Shoot(Coord),
}

/// The integers that `raw` lists, if every item is one.
pub open spec fn isize_list(raw: Seq<char>) -> Option<Seq<isize>> {
    let items = list_items(raw);
    if forall|i: int| 0 <= i < items.len() ==> (#[trigger] isize_text_value(items[i])) is Some {
        Some(Seq::new(items.len(), |i: int| isize_text_value(items[i])->Some_0))
    } else {
        None
    }
}

/// The move that `raw` writes, as a list in the sense of `list_items`
/// (single spaces between items, parentheses or commas only at the ends):
/// five integers (length, row, column, row step, column step) place a
/// ship, two (row, column) shoot. Length, row
/// and column must not be negative; bounds are a matter of legality.
pub open spec fn move_of_text(raw: Seq<char>) -> Option<Move> {
    match isize_list(raw) {
        None => None,
        Some(v) => if v.len() == 5 {
            if v[0] >= 0 && v[1] >= 0 && v[2] >= 0 {
                Some(
                    Move::PlaceShip(
                        ShipType { length: v[0] as usize },
                        Coord { row: v[1] as usize, col: v[2] as usize },
                        Dir { drow: v[3], dcol: v[4] },
                    ),
                )
            } else {
                None
            }
        } else if v.len() == 2 {
            if v[0] >= 0 && v[1] >= 0 {
                Some(Move::Shoot(Coord { row: v[0] as usize, col: v[1] as usize }))
            } else {
                None
            }
        } else {
            None
        },
    }
}

impl Move {
    /// Positions on the board and, for a placement, a valid direction.
    pub open spec fn wf(&self) -> bool {
        match *self {
            Move::PlaceShip(_ship, coord, dir) => coord.wf() && dir.wf(),
            Move::Shoot(coord) => coord.wf(),
        }
    }

    /// Whether the positions are on the board and a placement's direction
    /// is valid.
    pub fn is_valid(&self) -> (r: bool)
        ensures
            r == self.wf(),
    {
        match *self {
            Move::PlaceShip(_ship, coord, dir) => coord.is_valid() && dir.is_valid(),
            Move::Shoot(coord) => coord.is_valid(),
        }
    }

    /// Read a move from text; see `move_of_text`.
    pub fn parse_core(s: &str) -> (r: Option<Move>)
        ensures
            r == move_of_text(s@),
    {
        let coords = match parse_vec_isize(s) {
            Some(v) => v,
            None => {
                return None;
            },
        };
        proof {
            assert(isize_list(s@) is Some);
            assert(isize_list(s@)->Some_0 =~= coords@);
        }
        if coords.len() == 5 {
            let ship = match ShipType::from_isize(coords[0]) {
                Some(x) => x,
                None => {
                    return None;
                },
            };
            let coord = match Coord::from_isize(coords[1], coords[2]) {
                Some(x) => x,
                None => {
                    return None;
                },
            };
            let dir = Dir::new(coords[3], coords[4]);
            Some(Move::PlaceShip(ship, coord, dir))
        } else if coords.len() == 2 {
            let coord = match Coord::from_isize(coords[0], coords[1]) {
                Some(x) => x,
                None => {
                    return None;
                },
            };
            Some(Move::Shoot(coord))
        } else {
            None
        }
    }
}

/// The ships left in `s` once `ship` is taken out, in their order.
pub open spec fn without_ship(s: Seq<ShipType>, ship: ShipType) -> Seq<ShipType>
    decreases s.len(),
{
    if s.len() == 0 {
        s
    } else {
        let rest = without_ship(s.drop_last(), ship);
        if s.last() == ship {
            rest
        } else {
            rest.push(s.last())
        }
    }
}

/// Ships to place: no length twice, and none of length zero.
pub open spec fn fleet_ok(s: Seq<ShipType>) -> bool {
    &&& s.no_duplicates()
    &&& forall|i: int| 0 <= i < s.len() ==> (#[trigger] s[i]).length > 0
}

/// The lengths of the ships, each followed by a space.
pub open spec fn pending_text(s: Seq<ShipType>) -> Seq<char>
    decreases s.len(),
{
    if s.len() == 0 {
        Seq::empty()
    } else {
        pending_text(s.drop_last()) + decimal(s.last().length as nat) + seq![' ']
    }
}

proof fn lemma_without_ship(s: Seq<ShipType>, ship: ShipType)
    ensures
        forall|x: ShipType| #[trigger]
            without_ship(s, ship).contains(x) <==> (s.contains(x) && x != ship),
        without_ship(s, ship).len() <= s.len(),
        s.no_duplicates() ==> without_ship(s, ship).no_duplicates(),
        s.no_duplicates() && s.contains(ship) ==> without_ship(s, ship).len() + 1 == s.len(),
    decreases s.len(),
{
    if s.len() > 0 {
        let init = s.drop_last();
        lemma_without_ship(init, ship);
        assert(s =~= init.push(s.last()));
        assert forall|x: ShipType| s.contains(x) <==> (init.contains(x) || x == s.last()) by {
            if s.contains(x) {
                let i = choose|i: int| 0 <= i < s.len() && s[i] == x;
                if i < s.len() - 1 {
                    assert(init[i] == x);
                }
            }
            if init.contains(x) {
                let i = choose|i: int| 0 <= i < init.len() && init[i] == x;
                assert(s[i] == x);
            }
            if x == s.last() {
                assert(s[s.len() - 1] == x);
            }
        }
        let rest = without_ship(init, ship);
        assert forall|x: ShipType| #[trigger]
            without_ship(s, ship).contains(x) <==> (s.contains(x) && x != ship) by {
            if s.last() != ship {
                let w = rest.push(s.last());
                if w.contains(x) {
                    let i = choose|i: int| 0 <= i < w.len() && w[i] == x;
                    if i < rest.len() {
                        assert(rest[i] == x);
                    }
                }
                if rest.contains(x) {
                    let i = choose|i: int| 0 <= i < rest.len() && rest[i] == x;
                    assert(w[i] == x);
                }
                if x == s.last() {
                    assert(w[w.len() - 1] == x);
                }
            }
        }
        if s.no_duplicates() {
            assert(init.no_duplicates()) by {
                assert forall|i: int, j: int|
                    0 <= i < init.len() && 0 <= j < init.len() && i != j implies init[i]
                    != init[j] by {
                    assert(s[i] == init[i] && s[j] == init[j]);
                }
            }
            if s.last() != ship {
                let w = rest.push(s.last());
                assert(!init.contains(s.last())) by {
                    if init.contains(s.last()) {
                        let i = choose|i: int| 0 <= i < init.len() && init[i] == s.last();
                        assert(s[i] == s[s.len() - 1]);
                    }
                }
                assert(!rest.contains(s.last()));
                assert forall|i: int, j: int|
                    0 <= i < w.len() && 0 <= j < w.len() && i != j implies w[i] != w[j] by {
                    if i < rest.len() && j < rest.len() {
                        assert(w[i] == rest[i] && w[j] == rest[j]);
                    } else if i < rest.len() {
                        assert(rest.contains(w[i]));
                    } else if j < rest.len() {
                        assert(rest.contains(w[j]));
                    }
                }
                if s.contains(ship) {
                    assert(init.contains(ship));
                }
            } else {
                assert(!init.contains(ship)) by {
                    if init.contains(ship) {
                        let i = choose|i: int| 0 <= i < init.len() && init[i] == ship;
                        assert(s[i] == s[s.len() - 1]);
                    }
                }
                assert(without_ship(init, ship) =~= init) by {
                    lemma_without_absent(init, ship);
                }
            }
        }
    }
}

proof fn lemma_without_absent(s: Seq<ShipType>, ship: ShipType)
    requires
        !s.contains(ship),
    ensures
        without_ship(s, ship) == s,
    decreases s.len(),
{
    if s.len() > 0 {
        let init = s.drop_last();
        assert(!init.contains(ship)) by {
            if init.contains(ship) {
                let i = choose|i: int| 0 <= i < init.len() && init[i] == ship;
                assert(s[i] == ship);
            }
        }
        lemma_without_absent(init, ship);
        assert(s.last() != ship) by {
            if s.last() == ship {
                assert(s[s.len() - 1] == ship);
            }
        }
        assert(init.push(s.last()) =~= s);
    }
}

/// The state of a game: whose turn it is once all ships are placed, the
/// ships each player still has to place, and each player's board.
#[derive(Debug)]
pub struct GameState {
    to_move: TwoPlayers,
    // The ships to place form a set (see `fleet_ok`: no length twice). They
    // are kept in a list, not a `HashSet`: the list is shown to the player,
    // and a hash set is walked in an order that each process seeds anew, so
    // the text shown would not be a function of the state.
    pending_placement: [Vec<ShipType>; NUM_PLAYERS],
    boards: [Board; NUM_PLAYERS],
}

/// The first player.
pub open spec fn player_one() -> TwoPlayers {
    Player(0)
}

/// The second player.
pub open spec fn player_two() -> TwoPlayers {
    Player(1)
}

impl GameState {
    /// The player whose turn it is once every ship is placed.
    pub closed spec fn mover(&self) -> TwoPlayers {
        self.to_move
    }

    /// The ships that player `p` still has to place.
    pub closed spec fn pending(&self, p: int) -> Seq<ShipType> {
        self.pending_placement[p]@
    }

    /// The board of player `p`.
    pub closed spec fn board(&self, p: int) -> Board {
        self.boards[p]
    }

    /// No player has ships left to place.
    pub open spec fn placed_all(&self) -> bool {
        self.pending(0).len() == 0 && self.pending(1).len() == 0
    }

    /// The status: a player with ships to place moves first, the first
    /// player before the second; then a player whose board has no unhit
    /// ship has lost; else it is the turn of the recorded player.
    pub open spec fn status_spec(&self) -> GameStatus<NUM_PLAYERS> {
        if self.pending(0).len() > 0 {
            GameStatus::ToMove(player_one())
        } else if self.pending(1).len() > 0 {
            GameStatus::ToMove(player_two())
        } else if ship_count(self.board(0)@) == 0 {
            GameStatus::Won(player_two())
        } else if ship_count(self.board(1)@) == 0 {
            GameStatus::Won(player_one())
        } else {
            GameStatus::ToMove(self.mover())
        }
    }

    /// The state is consistent: boards are well formed, the ships to place
    /// are distinct and of positive length, a player who has placed a ship
    /// has a ship on the board until shooting starts, and once shooting has
    /// started at most one board is without ships.
    pub open spec fn inv(&self) -> bool {
        &&& self.mover().wf()
        &&& self.board(0).wf()
        &&& self.board(1).wf()
        &&& fleet_ok(self.pending(0))
        &&& fleet_ok(self.pending(1))
        &&& !self.placed_all() ==> forall|p: int|
            0 <= p < NUM_PLAYERS && #[trigger] self.pending(p).len() < starting_fleet().len()
                ==> ship_count(self.board(p)@) > 0
        &&& self.placed_all() ==> ship_count(self.board(0)@) > 0 || ship_count(self.board(1)@)
            > 0
    }

    /// `mv` is legal for the player to move: a placement needs a ship of
    /// that length still to place, a position and direction on the board,
    /// and an open line on the player's own board; a shot needs every ship
    /// placed and a position on the board. Nothing is legal once the game
    /// is won.
    pub open spec fn legal_spec(&self, mv: Move) -> bool {
        match self.status_spec() {
            GameStatus::Won(_) => false,
            GameStatus::ToMove(p) => match mv {
                Move::PlaceShip(ship, coord, dir) => {
                    &&& self.pending(p.0 as int).contains(ship)
                    &&& coord.wf()
                    &&& dir.wf()
                    &&& line_open(self.board(p.0 as int)@, coord, dir, ship.length as int)
                },
                Move::Shoot(coord) => self.placed_all() && coord.wf(),
            },
        }
    }

    /// `after` is this state once `mv` is played: a placement puts the
    /// ship on the mover's board and takes it off the mover's list; a shot
    /// hits the opponent's board and passes the turn to the opponent.
    pub open spec fn moved_spec(&self, mv: Move, after: GameState) -> bool {
        match self.status_spec() {
            GameStatus::Won(_) => false,
            GameStatus::ToMove(p) => {
                let me = p.0 as int;
                let other = 1 - me;
                match mv {
                    Move::PlaceShip(ship, coord, dir) => {
                        &&& after.mover() == self.mover()
                        &&& after.board(me)@ == with_ship_line(
                            self.board(me)@,
                            coord,
                            dir,
                            ship.length as nat,
                        )
                        &&& after.pending(me) == without_ship(self.pending(me), ship)
                        &&& after.board(other) == self.board(other)
                        &&& after.pending(other) == self.pending(other)
                    },
                    Move::Shoot(coord) => {
                        &&& after.mover() == p.next_spec()
                        &&& after.board(other)@ == self.board(other)@.update(
                            coord.index(),
                            self.board(other)@[coord.index()].shot(),
                        )
                        &&& after.board(me) == self.board(me)
                        &&& after.pending(0) == self.pending(0)
                        &&& after.pending(1) == self.pending(1)
                    },
                }
            },
        }
    }

    /// The text that shows `plyr` the state: the own board in full and,
    /// while placing, the ships left to place; after that, the opponent's
    /// board in public form.
    pub open spec fn visible_text(&self, plyr: TwoPlayers) -> Seq<char> {
        let me = plyr.0 as int;
        let own = board_text(self.board(me)@, false);
        if self.pending(me).len() == 0 {
            "=== Your Board ===\n"@ + own + "\n=== Shots ===\n"@ + board_text(
                self.board(1 - me)@,
                true,
            ) + "\n"@
        } else {
            "=== Your Board ===\n"@ + own + "\n=== Ships to Place ===\n"@ + pending_text(
                self.pending(me),
            ) + "\n"@
        }
    }

    /// The starting position: every player has the starting ships to place
    /// on an empty board, and the first player holds the turn.
    pub open spec fn is_start(&self) -> bool {
        &&& self.mover() == player_one()
        &&& self.pending(0) == starting_fleet()
        &&& self.pending(1) == starting_fleet()
        &&& self.board(0)@ == crate::board::empty_cells()
        &&& self.board(1)@ == crate::board::empty_cells()
    }

    /// A new game: every player has the starting ships to place on an
    /// empty board, and the first player is to move.
    pub fn new() -> (r: GameState)
        ensures
            r.inv(),
            r.is_start(),
            r.status_spec() == GameStatus::ToMove(player_one()),
    {
        let to_move = Player(0);
        let pending_placement = [starting_ships(), starting_ships()];
        let boards = [Board::new(), Board::new()];
        let r = GameState { to_move, pending_placement, boards };
        proof {
            let f = starting_fleet();
            assert(f[0] != f[1] && f[0] != f[2] && f[1] != f[2]);
            assert(fleet_ok(f));
        }
        r
    }

    fn get_board(&self, plyr: TwoPlayers) -> (r: &Board)
        requires
            self.inv(),
            plyr.wf(),
        ensures
            *r == self.board(plyr.0 as int),
    {
        &self.boards[plyr.as_index()]
    }

    fn get_pending(&self, plyr: TwoPlayers) -> (r: &Vec<ShipType>)
        requires
            self.inv(),
            plyr.wf(),
        ensures
            r@ == self.pending(plyr.0 as int),
    {
        &self.pending_placement[plyr.as_index()]
    }

    /// The lengths of the ships `plyr` still has to place, each followed by
    /// a space.
    fn print_pending(&self, plyr: TwoPlayers) -> (r: String)
        requires
            self.inv(),
            plyr.wf(),
        ensures
            r@ == pending_text(self.pending(plyr.0 as int)),
    {
        let ships = self.get_pending(plyr);
        let mut result = String::new();
        let mut i: usize = 0;
        while i < ships.len()
            invariant
                i <= ships@.len(),
                result@ == pending_text(ships@.subrange(0, i as int)),
            decreases ships.len() - i,
        {
            assert(ships@.subrange(0, i as int + 1).drop_last() =~= ships@.subrange(0, i as int));
            let number = decimal_string(ships[i].length);
            result.append(number.as_str());
            proof {
                reveal_strlit(" ");
                assert(" "@ =~= seq![' ']);
            }
            result.append(" ");
            i += 1;
        }
        assert(ships@.subrange(0, ships@.len() as int) =~= ships@);
        result
    }

    /// Whether no player has ships left to place.
    fn no_pending_placements(&self) -> (r: bool)
        requires
            self.inv(),
        ensures
            r == self.placed_all(),
    {
        self.pending_placement[0].len() == 0 && self.pending_placement[1].len() == 0
    }

    /// Whether `plyr` still has to place `ship`.
    fn pending_contains(&self, plyr: TwoPlayers, ship: ShipType) -> (r: bool)
        requires
            self.inv(),
            plyr.wf(),
        ensures
            r == self.pending(plyr.0 as int).contains(ship),
    {
        let ships = self.get_pending(plyr);
        let mut i: usize = 0;
        while i < ships.len()
            invariant
                i <= ships@.len(),
                ships@ == self.pending(plyr.0 as int),
                forall|j: int| 0 <= j < i ==> ships@[j] != ship,
            decreases ships.len() - i,
        {
            if ships[i] == ship {
                assert(ships@[i as int] == ship);
                assert(self.pending(plyr.0 as int).contains(ship));
                return true;
            }
            i += 1;
        }
        false
    }

    /// The status of the game; see `status_spec`.
    pub fn get_status(&self) -> (r: GameStatus<NUM_PLAYERS>)
        requires
            self.inv(),
        ensures
            r == self.status_spec(),
            r.wf(),
    {
        if self.pending_placement[0].len() > 0 {
            GameStatus::ToMove(Player(0))
        } else if self.pending_placement[1].len() > 0 {
            GameStatus::ToMove(Player(1))
        } else if self.boards[0].ship_squares_left() == 0 {
            GameStatus::Won(Player(1))
        } else if self.boards[1].ship_squares_left() == 0 {
            GameStatus::Won(Player(0))
        } else {
            GameStatus::ToMove(self.to_move)
        }
    }

    /// Whether `mv` is legal for the player to move; see `legal_spec`.
    fn is_valid_move_core(&self, mv: &Move) -> (r: bool)
        requires
            self.inv(),
        ensures
            r == self.legal_spec(*mv),
    {
        let plyr = match self.get_status() {
            GameStatus::ToMove(p) => p,
            GameStatus::Won(_) => {
                return false;
            },
        };
        match *mv {
            Move::PlaceShip(ship, coord, dir) => {
                self.pending_contains(plyr, ship) && coord.is_valid() && dir.is_valid()
                    && self.get_board(plyr).valid_ship_line(coord, dir, ship.length)
            },
            Move::Shoot(coord) => self.no_pending_placements() && coord.is_valid(),
        }
    }

    /// A copy of `ships` without `ship`.
    fn remove_ship(ships: &Vec<ShipType>, ship: ShipType) -> (r: Vec<ShipType>)
        ensures
            r@ == without_ship(ships@, ship),
    {
        let mut kept: Vec<ShipType> = Vec::new();
        let mut i: usize = 0;
        while i < ships.len()
            invariant
                i <= ships@.len(),
                kept@ == without_ship(ships@.subrange(0, i as int), ship),
            decreases ships.len() - i,
        {
            assert(ships@.subrange(0, i as int + 1).drop_last() =~= ships@.subrange(0, i as int));
            if ships[i] != ship {
                kept.push(ships[i]);
            }
            i += 1;
        }
        assert(ships@.subrange(0, ships@.len() as int) =~= ships@);
        kept
    }

    /// Play a legal move; see `moved_spec`.
    pub fn apply_move(&mut self, mv: Move)
        requires
            old(self).inv(),
            old(self).legal_spec(mv),
        ensures
            final(self).inv(),
            old(self).moved_spec(mv, *final(self)),
    {
        let plyr = match self.get_status() {
            GameStatus::ToMove(p) => p,
            GameStatus::Won(_) => {
                return;
            },
        };
        let ghost before = *self;
        let me = plyr.as_index();
        match mv {
            Move::PlaceShip(ship, coord, dir) => {
                let placed = self.boards[me].place_ship_line(coord, dir, ship.length);
                assert(placed);
                let rest = GameState::remove_ship(&self.pending_placement[me], ship);
                self.pending_placement[me] = rest;
                proof {
                    lemma_without_ship(before.pending(me as int), ship);
                    assert(self.pending(me as int) == without_ship(before.pending(me as int), ship));
                    assert(self.pending(1 - me) == before.pending(1 - me));
                    assert(self.board(1 - me) == before.board(1 - me));
                    assert(self.mover() == before.mover());
                    assert(forall|x: ShipType| #[trigger]
                        self.pending(me as int).contains(x) ==> before.pending(me as int).contains(
                            x,
                        ));
                    assert forall|i: int|
                        0 <= i < self.pending(me as int).len() implies (#[trigger] self.pending(
                        me as int,
                    )[i]).length > 0 by {
                        let x = self.pending(me as int)[i];
                        assert(self.pending(me as int).contains(x));
                        let j = choose|j: int|
                            0 <= j < before.pending(me as int).len() && before.pending(
                                me as int,
                            )[j] == x;
                    }
                }
            },
            Move::Shoot(coord) => {
                let other = plyr.opponent();
                let them = other.as_index();
                self.boards[them].shoot(coord);
                self.to_move = other;
                proof {
                    assert(self.pending(0) == before.pending(0));
                    assert(self.pending(1) == before.pending(1));
                    assert(self.board(me as int) == before.board(me as int));
                }
            },
        }
    }
}

/// Once a player has won, no move is legal, so the state and with it the
/// winner stay as they are.
pub proof fn lemma_won_is_final(game: GameState, mv: Move)
    requires
        game.inv(),
        game.status_spec() is Won,
    ensures
        !game.legal_spec(mv),
{
}

/// A game always names a player in range, and once both players have
/// placed their ships, it is not the case that both boards have run out of
/// ships.
pub proof fn lemma_status_names_one_winner(game: GameState)
    requires
        game.inv(),
    ensures
        game.status_spec().wf(),
        game.placed_all() ==> !(ship_count(game.board(0)@) == 0 && ship_count(game.board(1)@)
            == 0),
{
}

/// `states` is a course of play: every state is consistent, and each one
/// after the first is the one before it once the legal move at the same
/// position of `moves` is played.
pub open spec fn is_run(states: Seq<GameState>, moves: Seq<Move>) -> bool {
    &&& states.len() == moves.len() + 1
    &&& forall|i: int| 0 <= i < states.len() ==> (#[trigger] states[i]).inv()
    &&& forall|i: int|
        0 <= i < moves.len() ==> states[i].legal_spec(#[trigger] moves[i])
            && states[i].moved_spec(moves[i], states[i + 1])
}

/// Placing ships does not change whose turn it is once shooting starts.
proof fn lemma_placements_keep_mover(states: Seq<GameState>, moves: Seq<Move>, i: int)
    requires
        is_run(states, moves),
        0 <= i < states.len(),
        forall|j: int| 0 <= j < i ==> (#[trigger] moves[j]) is PlaceShip,
    ensures
        states[i].mover() == states[0].mover(),
    decreases i,
{
    if i > 0 {
        lemma_placements_keep_mover(states, moves, i - 1);
        assert(moves[i - 1] is PlaceShip);
        assert(states[i - 1].legal_spec(moves[i - 1]));
    }
}

/// The course of a game from a start where the first player holds the
/// turn: once every ship is placed, after placements only, the first
/// player is to move; and once shooting has started, a player whose board
/// has no unhit ship has lost, the opponent has won, and no move follows,
/// so the status stays the same.
#[verifier::rlimit(50)]
pub proof fn lemma_game_course(states: Seq<GameState>, moves: Seq<Move>)
    requires
        is_run(states, moves),
        states[0].mover() == player_one(),
    ensures
        forall|i: int|
            0 < i < states.len() && (#[trigger] states[i]).placed_all() && (forall|j: int|
                0 <= j < i ==> (#[trigger] moves[j]) is PlaceShip) ==> states[i].status_spec()
                == GameStatus::ToMove(player_one()),
        forall|i: int, p: int|
            0 <= i < states.len() && 0 <= p < NUM_PLAYERS && states[i].placed_all() && ship_count(
                (#[trigger] states[i].board(p))@,
            ) == 0 ==> states[i].status_spec() == GameStatus::Won(Player::<2>((1 - p) as usize))
                && i == states.len() - 1,
{
    assert forall|i: int|
        0 < i < states.len() && (#[trigger] states[i]).placed_all() && (forall|j: int|
            0 <= j < i ==> (#[trigger] moves[j]) is PlaceShip) implies states[i].status_spec()
        == GameStatus::ToMove(player_one()) by {
        lemma_placements_keep_mover(states, moves, i);
        let k = i - 1;
        let before = states[k];
        let after = states[i];
        assert(moves[k] is PlaceShip);
        assert(before.legal_spec(moves[k]) && before.moved_spec(moves[k], after));
        assert(before.inv() && after.inv());
        if let Move::PlaceShip(ship, coord, dir) = moves[k] {
            if let GameStatus::ToMove(p) = before.status_spec() {
                let me = p.0 as int;
                let other = 1 - me;
                assert(0 <= me < 2);
                assert(!before.placed_all());
                assert(before.pending(other).len() == 0);
                assert(before.pending(other).len() < starting_fleet().len());
                assert(ship_count(after.board(other)@) > 0);
                let w = choose|w: int|
                    0 <= w < before.pending(me).len() && before.pending(me)[w] == ship;
                assert(before.pending(me)[w].length > 0);
                lemma_ship_line_placement(before.board(me)@, coord, dir, ship.length as nat);
                assert(ship_count(after.board(me)@) > 0);
                assert(ship_count(after.board(0)@) > 0 && ship_count(after.board(1)@) > 0);
            }
        }
    }
    assert forall|i: int, p: int|
        0 <= i < states.len() && 0 <= p < NUM_PLAYERS && states[i].placed_all() && ship_count(
            (#[trigger] states[i].board(p))@,
        ) == 0 implies states[i].status_spec() == GameStatus::Won(Player::<2>((1 - p) as usize))
        && i == states.len() - 1 by {
        assert(states[i].inv());
        if i < states.len() - 1 {
            assert(states[i].legal_spec(moves[i]));
        }
    }
}

impl AbstractGame<NUM_PLAYERS> for GameState {
    type Move = Move;

    type SetupParams = ();

    open spec fn inv(&self) -> bool {
        GameState::inv(self)
    }

    open spec fn setup_ok(params: ()) -> bool {
        true
    }

    open spec fn starts(params: (), start: GameState) -> bool {
        start.is_start()
    }

    open spec fn status_of(&self) -> GameStatus<NUM_PLAYERS> {
        self.status_spec()
    }

    open spec fn legal(&self, mv: Move) -> bool {
        self.legal_spec(mv)
    }

    open spec fn moved(&self, mv: Move, after: GameState) -> bool {
        self.moved_spec(mv, after)
    }

    open spec fn move_text(raw: Seq<char>) -> Option<Move> {
        move_of_text(raw)
    }

    open spec fn parse_error(raw: Seq<char>) -> Seq<char> {
        "Could not parse move. "@
    }

    open spec fn check_error(&self, mv: Move) -> Seq<char> {
        "Invalid move"@
    }

    open spec fn state_text(&self, plyr: TwoPlayers) -> Seq<char> {
        self.visible_text(plyr)
    }

    fn game_setup(params: ()) -> (r: GameState) {
        GameState::new()
    }

    fn status(&self) -> (r: GameStatus<NUM_PLAYERS>) {
        self.get_status()
    }

    fn make_move(&mut self, mv: Move) {
        self.apply_move(mv);
    }

    fn query(&self) -> String {
        "Move: ".to_string()
    }

    fn parse_move(&self, raw: &str) -> (r: Result<Move, String>) {
        match Move::parse_core(raw) {
            Some(mv) => Ok(mv),
            None => Err("Could not parse move. ".to_string()),
        }
    }

    fn check_move(&self, mv: &Move) -> (r: Result<(), String>) {
        if self.is_valid_move_core(mv) {
            Ok(())
        } else {
            let e = "Invalid move".to_string();
            assert(e@ == <GameState as AbstractGame<NUM_PLAYERS>>::check_error(self, *mv));
            Err(e)
        }
    }

    fn print_state_visible(&self, plyr: TwoPlayers) -> (r: String) {
        let mut s = "=== Your Board ===\n".to_string();
        let own = self.get_board(plyr).disp_priv();
        s.append(own.as_str());
        if self.get_pending(plyr).len() == 0 {
            let other = plyr.opponent();
            s.append("\n=== Shots ===\n");
            let shots = self.get_board(other).disp_pub();
            s.append(shots.as_str());
        } else {
            s.append("\n=== Ships to Place ===\n");
            let ships = self.print_pending(plyr);
            s.append(ships.as_str());
        }
        s.append("\n");
        s
    }
}

impl PartialInfoGame<NUM_PLAYERS> for GameState {

}

/// A stand-in for a real opponent: it plays the first move it finds.
///
/// While placing, it puts its first remaining ship on the first open line
/// of its own board; while shooting, it aims at the first square of the
/// opponent's board that shows no shot yet. It reads nothing of the
/// opponent but the public form of the opponent's board.
pub struct UnimplementedBattleshipAi {}

/// The eight directions, in the order the agent tries them.
fn directions() -> (r: Vec<Dir>)
    ensures
        forall|i: int| 0 <= i < r@.len() ==> (#[trigger] r@[i]).wf(),
{
    let mut dirs: Vec<Dir> = Vec::new();
    dirs.push(Dir { drow: 0, dcol: 1 });
    dirs.push(Dir { drow: 1, dcol: 0 });
    dirs.push(Dir { drow: 1, dcol: 1 });
    dirs.push(Dir { drow: 1, dcol: -1 });
    dirs.push(Dir { drow: 0, dcol: -1 });
    dirs.push(Dir { drow: -1, dcol: 0 });
    dirs.push(Dir { drow: -1, dcol: -1 });
    dirs.push(Dir { drow: -1, dcol: 1 });
    dirs
}

impl UnimplementedBattleshipAi {
    /// The first open line for `ship` on `board`, as a placement.
    fn first_placement(board: &Board, ship: ShipType) -> (r: Option<Move>)
        requires
            board.wf(),
        ensures
            r matches Some(Move::PlaceShip(s, c, d)) ==> s == ship && line_open(
                board@,
                c,
                d,
                ship.length as int,
            ),
    {
        let dirs = directions();
        let mut row: usize = 0;
        while row < BOARD_ROWS
            invariant
                board.wf(),
                forall|i: int| 0 <= i < dirs@.len() ==> (#[trigger] dirs@[i]).wf(),
            decreases BOARD_ROWS - row,
        {
            let mut col: usize = 0;
            while col < BOARD_COLS
                invariant
                    board.wf(),
                    row < BOARD_ROWS,
                    forall|i: int| 0 <= i < dirs@.len() ==> (#[trigger] dirs@[i]).wf(),
                decreases BOARD_COLS - col,
            {
                let mut k: usize = 0;
                while k < dirs.len()
                    invariant
                        board.wf(),
                        forall|i: int| 0 <= i < dirs@.len() ==> (#[trigger] dirs@[i]).wf(),
                    decreases dirs.len() - k,
                {
                    let coord = Coord { row, col };
                    if board.valid_ship_line(coord, dirs[k], ship.length) {
                        return Some(Move::PlaceShip(ship, coord, dirs[k]));
                    }
                    k += 1;
                }
                col += 1;
            }
            row += 1;
        }
        None
    }

    /// The first square of `board` whose public form shows no shot.
    fn first_target(board: &Board) -> (r: Coord)
        requires
            board.wf(),
        ensures
            r.wf(),
    {
        let mut row: usize = 0;
        while row < BOARD_ROWS
            invariant
                board.wf(),
            decreases BOARD_ROWS - row,
        {
            let mut col: usize = 0;
            while col < BOARD_COLS
                invariant
                    board.wf(),
                    row < BOARD_ROWS,
                decreases BOARD_COLS - col,
            {
                let coord = Coord { row, col };
                if board.get_pub(coord) == Square::Sea {
                    return coord;
                }
                col += 1;
            }
            row += 1;
        }
        Coord { row: 0, col: 0 }
    }
}

impl Ai<GameState, NUM_PLAYERS> for UnimplementedBattleshipAi {
    fn new() -> Self {
        UnimplementedBattleshipAi {  }
    }

    fn ai_move(&mut self, game: &GameState, plyr: TwoPlayers) -> Move {
        let pending = game.get_pending(plyr);
        if pending.len() > 0 {
            let ship = pending[0];
            match UnimplementedBattleshipAi::first_placement(game.get_board(plyr), ship) {
                Some(mv) => mv,
                None => Move::PlaceShip(ship, Coord { row: 0, col: 0 }, Dir { drow: 0, dcol: 1 }),
            }
        } else {
            let target = UnimplementedBattleshipAi::first_target(game.get_board(plyr.opponent()));
            Move::Shoot(target)
        }
    }
}

} // verus!
