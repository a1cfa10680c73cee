//! Squares and boards of the hidden-ship game.
//!
//! Each player owns one board. A square holds the ground truth about one
//! cell; its public form hides ships that have not been hit.

use crate::text::{join_strings, joined, texts};
use crate::util::{parse_usize, split_on, split_str, trim_list, trimmed, usize_text_value};
use crate::view::VisibilityView;
use vstd::prelude::*;

verus! {

/// Rows of a board.
pub const BOARD_ROWS: usize = 10;

/// Columns of a board.
pub const BOARD_COLS: usize = 10;

/// Cells of a board.
pub const BOARD_CELLS: usize = 100;

/// A position on a board: row and column, counted from zero.
#[derive(Debug, Copy, Clone, PartialEq, Eq, Structural)]
pub struct Coord {
    pub row: usize,
    pub col: usize,
}

impl Coord {
    /// The position is on the board.
    pub open spec fn wf(&self) -> bool {
        self.row < BOARD_ROWS && self.col < BOARD_COLS
    }

    /// The index of this position in a row-major list of cells.
    pub open spec fn index(&self) -> int {
        self.row * BOARD_COLS + self.col
    }

    pub fn new(row: usize, col: usize) -> (r: Coord)
        ensures
            r == (Coord { row, col }),
    {
        Coord { row, col }
    }

    /// The position at (`row`, `col`), if neither is negative.
    pub fn from_isize(row: isize, col: isize) -> (r: Option<Coord>)
        ensures
            r == (if row >= 0 && col >= 0 {
                Some(Coord { row: row as usize, col: col as usize })
            } else {
                None
            }),
    {
        if row >= 0 && col >= 0 {
            Some(Coord { row: row as usize, col: col as usize })
        } else {
            None
        }
    }

    /// Whether the position is on the board.
    pub fn is_valid(&self) -> (r: bool)
        ensures
            r == self.wf(),
    {
        self.row < BOARD_ROWS && self.col < BOARD_COLS
    }

    /// One step from this position in direction `dir`, if no coordinate
    /// becomes negative. Bounds are not checked. The coordinates and the
    /// sums must fit in an `isize`.
    pub fn add(self, dir: Dir) -> (r: Option<Coord>)
        requires
            self.row <= isize::MAX,
            self.col <= isize::MAX,
            self.row + dir.drow <= isize::MAX,
            self.col + dir.dcol <= isize::MAX,
        ensures
            r == (if self.row + dir.drow >= 0 && self.col + dir.dcol >= 0 {
                Some(
                    Coord {
                        row: (self.row + dir.drow) as usize,
                        col: (self.col + dir.dcol) as usize,
                    },
                )
            } else {
                None
            }),
    {
        let row = (self.row as isize) + dir.drow;
        let col = (self.col as isize) + dir.dcol;
        if row < 0 || col < 0 {
            None
        } else {
            Some(Coord { row: row as usize, col: col as usize })
        }
    }
}

/// Why a position could not be read from text.
#[derive(Debug)]
pub enum ParseCoordError {
    ParseRowError(core::num::ParseIntError),
    ParseColError(core::num::ParseIntError),
    TooFewCoords,
    TooManyCoords,
}

/// The comma-separated parts of a position written like `(3,4)`.
pub open spec fn coord_parts(s: Seq<char>) -> Seq<Seq<char>> {
    split_on(trimmed(s, false), ',')
}

/// What reading a position from `s` gives: too many or too few parts, a
/// row or a column that is not a number, or the position.
pub open spec fn coord_read(s: Seq<char>, r: Result<Coord, ParseCoordError>) -> bool {
    let parts = coord_parts(s);
    if parts.len() > 2 {
        r is Err && r->Err_0 is TooManyCoords
    } else if parts.len() < 2 {
        r is Err && r->Err_0 is TooFewCoords
    } else if usize_text_value(parts[0]) is None {
        r is Err && r->Err_0 is ParseRowError
    } else if usize_text_value(parts[1]) is None {
        r is Err && r->Err_0 is ParseColError
    } else {
        r == Ok::<Coord, ParseCoordError>(
            Coord {
                row: usize_text_value(parts[0])->Some_0,
                col: usize_text_value(parts[1])->Some_0,
            },
        )
    }
}

impl Coord {
    /// Read a position written like `(3,4)` or `3,4`.
    pub fn parse(s: &str) -> (r: Result<Coord, ParseCoordError>)
        ensures
            coord_read(s@, r),
    {
        let body = trim_list(s, false);
        let parts = split_str(body, ',');
        assert(parts@.len() == coord_parts(s@).len());
        if parts.len() > 2 {
            Err(ParseCoordError::TooManyCoords)
        } else if parts.len() < 2 {
            Err(ParseCoordError::TooFewCoords)
        } else {
            assert(parts@[0]@ == coord_parts(s@)[0]);
            assert(parts@[1]@ == coord_parts(s@)[1]);
            let row = match parse_usize(parts[0]) {
                Ok(x) => x,
                Err(e) => {
                    return Err(ParseCoordError::ParseRowError(e));
                },
            };
            let col = match parse_usize(parts[1]) {
                Ok(x) => x,
                Err(e) => {
                    return Err(ParseCoordError::ParseColError(e));
                },
            };
            Ok(Coord { row, col })
        }
    }
}

impl std::str::FromStr for Coord {
    type Err = ParseCoordError;

    fn from_str(s: &str) -> Result<Coord, ParseCoordError> {
        Coord::parse(s)
    }
}

/// A step between neighbouring positions: one of the eight unit or diagonal
/// moves.
#[derive(Debug, Copy, Clone, PartialEq, Eq, Structural)]
pub struct Dir {
    pub drow: isize,
    pub dcol: isize,
}

impl Dir {
    /// A non-zero step with each part in {-1, 0, 1}.
    pub open spec fn wf(&self) -> bool {
        &&& (self.drow != 0 || self.dcol != 0)
        &&& -1 <= self.drow <= 1
        &&& -1 <= self.dcol <= 1
    }

    pub fn new(drow: isize, dcol: isize) -> (r: Dir)
        ensures
            r == (Dir { drow, dcol }),
    {
        Dir { drow, dcol }
    }

    /// Whether the step is one of the eight unit or diagonal moves.
    pub fn is_valid(&self) -> (r: bool)
        ensures
            r == self.wf(),
    {
        (self.drow != 0 || self.dcol != 0) && self.drow >= -1 && self.drow <= 1 && self.dcol
            >= -1 && self.dcol <= 1
    }
}

/// The ground truth about one cell.
#[derive(Debug, Copy, Clone, PartialEq, Eq, Structural)]
pub enum Square {
    Ship,
    ShipHit,
    Sea,
    SeaMiss,
}

/// The result of a shot.
#[derive(Debug, Copy, Clone, PartialEq, Eq, Structural)]
pub enum HitResult {
    Hit,
    Miss,
}

impl Default for Square {
    fn default() -> (r: Square)
        ensures
            r == Square::Sea,
    {
        Square::Sea
    }
}

impl Square {
    /// What everybody may see of the cell: an unhit ship looks like sea.
    pub open spec fn hidden(self) -> Square {
        if self == Square::Ship {
            Square::Sea
        } else {
            self
        }
    }

    /// The cell after a shot at it.
    pub open spec fn shot(self) -> Square {
        match self {
            Square::Ship => Square::ShipHit,
            Square::Sea => Square::SeaMiss,
            _ => self,
        }
    }

    /// The result of a shot at the cell: a hit only on an unhit ship.
    pub open spec fn shot_result(self) -> HitResult {
        if self == Square::Ship {
            HitResult::Hit
        } else {
            HitResult::Miss
        }
    }

    /// The character that shows the cell.
    pub open spec fn text(self) -> Seq<char> {
        match self {
            Square::Ship => seq!['s'],
            Square::ShipHit => seq!['x'],
            Square::Sea => seq!['-'],
            Square::SeaMiss => seq!['o'],
        }
    }

    /// Hide information about the cell that is not public.
    pub fn public_form(&self) -> (r: Square)
        ensures
            r == self.hidden(),
    {
        if *self == Square::Ship {
            Square::Sea
        } else {
            *self
        }
    }

    /// Fire a shot at the cell. A ship becomes a hit ship, sea becomes a
    /// miss; a cell that was shot before stays as it is and the shot misses.
    pub fn shoot(&mut self) -> (r: HitResult)
        ensures
            *final(self) == old(self).shot(),
            r == old(self).shot_result(),
    {
        match *self {
            Square::Ship => {
                *self = Square::ShipHit;
                HitResult::Hit
            },
            Square::Sea => {
                *self = Square::SeaMiss;
                HitResult::Miss
            },
            Square::ShipHit | Square::SeaMiss => HitResult::Miss,
        }
    }
}

/// The number of unhit ships among `cells`.
pub open spec fn ship_count(cells: Seq<Square>) -> nat
    decreases cells.len(),
{
    if cells.len() == 0 {
        0
    } else {
        ship_count(cells.drop_last()) + if cells.last() == Square::Ship {
            1nat
        } else {
            0nat
        }
    }
}

/// The cells of a board on which nothing stands yet.
pub open spec fn empty_cells() -> Seq<Square> {
    Seq::new(BOARD_CELLS as nat, |i: int| Square::Sea)
}

/// Whether (`row`, `col`) lies on the board.
pub open spec fn on_board(row: int, col: int) -> bool {
    0 <= row < BOARD_ROWS && 0 <= col < BOARD_COLS
}

/// The index of (`row`, `col`) in a row-major list of cells.
pub open spec fn cell_index(row: int, col: int) -> int {
    row * BOARD_COLS + col
}

/// The row `k` steps from `start` along `dir`.
pub open spec fn line_row(start: Coord, dir: Dir, k: int) -> int {
    start.row + k * dir.drow
}

/// The column `k` steps from `start` along `dir`.
pub open spec fn line_col(start: Coord, dir: Dir, k: int) -> int {
    start.col + k * dir.dcol
}

/// The cell `k` steps from `start` along `dir` is on the board and is sea.
pub open spec fn line_cell_free(cells: Seq<Square>, start: Coord, dir: Dir, k: int) -> bool {
    let row = line_row(start, dir, k);
    let col = line_col(start, dir, k);
    on_board(row, col) && cells[cell_index(row, col)] == Square::Sea
}

/// A ship of `len` cells fits from `start` along `dir`: the step is valid,
/// and each of the `len` cells is on the board and is sea. A line of no
/// cells fits anywhere.
pub open spec fn line_open(cells: Seq<Square>, start: Coord, dir: Dir, len: int) -> bool {
    &&& dir.wf()
    &&& forall|k: int| 0 <= k < len ==> #[trigger] line_cell_free(cells, start, dir, k)
}

/// `cells` with a ship on the first `len` cells from `start` along `dir`.
pub open spec fn with_ship_line(cells: Seq<Square>, start: Coord, dir: Dir, len: nat) -> Seq<
    Square,
>
    decreases len,
{
    if len == 0 {
        cells
    } else {
        let k = len - 1;
        with_ship_line(cells, start, dir, k as nat).update(
            cell_index(line_row(start, dir, k), line_col(start, dir, k)),
            Square::Ship,
        )
    }
}

/// Changing one cell changes the ship count by what the cell held and
/// what it holds now.
pub proof fn lemma_ship_count_update(cells: Seq<Square>, i: int, v: Square)
    requires
        0 <= i < cells.len(),
    ensures
        ship_count(cells.update(i, v)) + (if cells[i] == Square::Ship {
            1int
        } else {
            0int
        }) == ship_count(cells) + (if v == Square::Ship {
            1int
        } else {
            0int
        }),
    decreases cells.len(),
{
    if i == cells.len() - 1 {
        assert(cells.update(i, v).drop_last() =~= cells.drop_last());
    } else {
        lemma_ship_count_update(cells.drop_last(), i, v);
        assert(cells.update(i, v).drop_last() =~= cells.drop_last().update(i, v));
    }
}

/// There are no more unhit ships than cells.
pub proof fn lemma_ship_count_bound(cells: Seq<Square>)
    ensures
        ship_count(cells) <= cells.len(),
    decreases cells.len(),
{
    if cells.len() > 0 {
        lemma_ship_count_bound(cells.drop_last());
    }
}

/// Cells without ships count zero.
pub proof fn lemma_ship_count_none(cells: Seq<Square>)
    requires
        forall|i: int| 0 <= i < cells.len() ==> cells[i] != Square::Ship,
    ensures
        ship_count(cells) == 0,
    decreases cells.len(),
{
    if cells.len() > 0 {
        lemma_ship_count_none(cells.drop_last());
    }
}

/// One more step along a line moves by the step.
proof fn lemma_line_step(start: Coord, dir: Dir, k: int)
    ensures
        line_row(start, dir, k + 1) == line_row(start, dir, k) + dir.drow,
        line_col(start, dir, k + 1) == line_col(start, dir, k) + dir.dcol,
{
    assert((k + 1) * dir.drow == k * dir.drow + dir.drow) by (nonlinear_arith);
    assert((k + 1) * dir.dcol == k * dir.dcol + dir.dcol) by (nonlinear_arith);
}

/// Two different steps along a line reach different cells.
proof fn lemma_line_distinct(start: Coord, dir: Dir, j: int, k: int)
    requires
        dir.wf(),
        j != k,
        on_board(line_row(start, dir, j), line_col(start, dir, j)),
        on_board(line_row(start, dir, k), line_col(start, dir, k)),
    ensures
        cell_index(line_row(start, dir, j), line_col(start, dir, j)) != cell_index(
            line_row(start, dir, k),
            line_col(start, dir, k),
        ),
{
    let d = j - k;
    assert(j * dir.drow - k * dir.drow == d * dir.drow) by (nonlinear_arith)
        requires
            d == j - k,
    ;
    assert(j * dir.dcol - k * dir.dcol == d * dir.dcol) by (nonlinear_arith)
        requires
            d == j - k,
    ;
    if dir.drow != 0 {
        assert(d * dir.drow != 0) by (nonlinear_arith)
            requires
                d != 0,
                dir.drow != 0,
        ;
    } else {
        assert(d * dir.dcol != 0) by (nonlinear_arith)
            requires
                d != 0,
                dir.dcol != 0,
        ;
    }
}

/// Placing the first `n` cells of an open line leaves every other cell as
/// it was, and the number of cells unchanged.
proof fn lemma_with_ship_line_frame(cells: Seq<Square>, start: Coord, dir: Dir, n: nat, i: int)
    requires
        cells.len() == BOARD_CELLS,
        line_open(cells, start, dir, n as int),
        0 <= i < cells.len(),
        forall|j: int|
            0 <= j < n ==> cell_index(line_row(start, dir, j), line_col(start, dir, j)) != i,
    ensures
        with_ship_line(cells, start, dir, n).len() == cells.len(),
        with_ship_line(cells, start, dir, n)[i] == cells[i],
    decreases n,
{
    if n > 0 {
        let k = n - 1;
        assert(line_cell_free(cells, start, dir, k));
        lemma_with_ship_line_frame(cells, start, dir, k as nat, i);
    }
}

/// Placing a ship on an open line of `len` cells: exactly those cells
/// turn from sea into ship, so the count of unhit ship cells grows by
/// `len`; every other cell is as it was.
pub proof fn lemma_ship_line_placement(cells: Seq<Square>, start: Coord, dir: Dir, len: nat)
    requires
        cells.len() == BOARD_CELLS,
        line_open(cells, start, dir, len as int),
    ensures
        with_ship_line(cells, start, dir, len).len() == cells.len(),
        ship_count(with_ship_line(cells, start, dir, len)) == ship_count(cells) + len,
        forall|k: int|
            0 <= k < len ==> with_ship_line(cells, start, dir, len)[cell_index(
                #[trigger] line_row(start, dir, k),
                line_col(start, dir, k),
            )] == Square::Ship,
        forall|i: int|
            0 <= i < cells.len() ==> {
                let after = #[trigger] with_ship_line(cells, start, dir, len)[i];
                after == cells[i] || (cells[i] == Square::Sea && after == Square::Ship)
            },
    decreases len,
{
    if len > 0 {
        let k = (len - 1) as int;
        assert(line_open(cells, start, dir, k));
        lemma_ship_line_placement(cells, start, dir, k as nat);
        let prev = with_ship_line(cells, start, dir, k as nat);
        let idx = cell_index(line_row(start, dir, k), line_col(start, dir, k));
        assert(line_cell_free(cells, start, dir, k));
        assert forall|j: int| 0 <= j < k implies cell_index(
            line_row(start, dir, j),
            line_col(start, dir, j),
        ) != idx by {
            assert(line_cell_free(cells, start, dir, j));
            lemma_line_distinct(start, dir, j, k);
        }
        lemma_with_ship_line_frame(cells, start, dir, k as nat, idx);
        lemma_ship_count_update(prev, idx, Square::Ship);
        assert forall|j: int| 0 <= j < len implies with_ship_line(cells, start, dir, len)[cell_index(
            #[trigger] line_row(start, dir, j),
            line_col(start, dir, j),
        )] == Square::Ship by {
            if j < k {
                assert(line_cell_free(cells, start, dir, j));
                assert(prev[cell_index(line_row(start, dir, j), line_col(start, dir, j))]
                    == Square::Ship);
            }
        }
    }
}

/// Shooting a square that was already shot misses and changes nothing; so
/// a second shot at any square misses and leaves it as the first shot did.
pub proof fn lemma_shoot_idempotent(c: Square)
    ensures
        (c == Square::ShipHit || c == Square::SeaMiss) ==> c.shot() == c && c.shot_result()
            == HitResult::Miss,
        c.shot().shot() == c.shot(),
        c.shot().shot_result() == HitResult::Miss,
{
}

/// The cells after shots at `coords`, one after another.
pub open spec fn after_shots(cells: Seq<Square>, coords: Seq<Coord>) -> Seq<Square>
    decreases coords.len(),
{
    if coords.len() == 0 {
        cells
    } else {
        let before = after_shots(cells, coords.drop_last());
        let i = coords.last().index();
        before.update(i, before[i].shot())
    }
}

/// How many of the shots at `coords`, one after another, hit a ship.
pub open spec fn hits(cells: Seq<Square>, coords: Seq<Coord>) -> nat
    decreases coords.len(),
{
    if coords.len() == 0 {
        0
    } else {
        let before = after_shots(cells, coords.drop_last());
        hits(cells, coords.drop_last()) + if before[coords.last().index()] == Square::Ship {
            1nat
        } else {
            0nat
        }
    }
}

/// Over any sequence of shots the count of unhit ship squares never grows:
/// it falls by exactly one for each shot that hits, and stays the same for
/// every other shot.
pub proof fn lemma_shots_lower_count(cells: Seq<Square>, coords: Seq<Coord>)
    requires
        cells.len() == BOARD_CELLS,
        forall|k: int| 0 <= k < coords.len() ==> (#[trigger] coords[k]).wf(),
    ensures
        after_shots(cells, coords).len() == BOARD_CELLS,
        ship_count(after_shots(cells, coords)) + hits(cells, coords) == ship_count(cells),
        ship_count(after_shots(cells, coords)) <= ship_count(cells),
    decreases coords.len(),
{
    if coords.len() > 0 {
        let init = coords.drop_last();
        assert forall|k: int| 0 <= k < init.len() implies (#[trigger] init[k]).wf() by {
            assert(init[k] == coords[k]);
        }
        lemma_shots_lower_count(cells, init);
        let before = after_shots(cells, init);
        let c = coords.last();
        assert(c == coords[coords.len() - 1]);
        lemma_ship_count_update(before, c.index(), before[c.index()].shot());
    }
}

/// One player's board: a grid of squares and the number of ship squares
/// not yet hit.
#[derive(Debug)]
pub struct Board {
    grid: Vec<Square>,
    ship_remaining: usize,
}

impl View for Board {
    type V = Seq<Square>;

    /// The squares, row after row.
    closed spec fn view(&self) -> Seq<Square> {
        self.grid@
    }
}

impl Default for Board {
    fn default() -> (r: Board)
        ensures
            r.wf(),
            r@ == empty_cells(),
            ship_count(r@) == 0,
    {
        Board::new()
    }
}

impl Board {
    /// The counter of ship squares not yet hit.
    pub closed spec fn remaining(&self) -> nat {
        self.ship_remaining as nat
    }

    /// The board has all its squares and the counter matches them.
    pub open spec fn wf(&self) -> bool {
        &&& self@.len() == BOARD_CELLS
        &&& self.remaining() == ship_count(self@)
    }

    /// A board of sea only.
    pub fn new() -> (r: Board)
        ensures
            r.wf(),
            r@ == empty_cells(),
            ship_count(r@) == 0,
    {
        let mut grid: Vec<Square> = Vec::new();
        let mut i: usize = 0;
        while i < BOARD_CELLS
            invariant
                i <= BOARD_CELLS,
                grid@ =~= Seq::new(i as nat, |j: int| Square::Sea),
            decreases BOARD_CELLS - i,
        {
            grid.push(Square::Sea);
            i += 1;
        }
        proof {
            lemma_ship_count_none(grid@);
        }
        Board { grid, ship_remaining: 0 }
    }

    fn get_square(&self, coord: Coord) -> (r: &Square)
        requires
            self.wf(),
            coord.wf(),
        ensures
            *r == self@[coord.index()],
    {
        &self.grid[coord.row * BOARD_COLS + coord.col]
    }

    /// The number of ship squares not yet hit.
    pub fn ship_squares_left(&self) -> (r: usize)
        requires
            self.wf(),
        ensures
            r == ship_count(self@),
    {
        self.ship_remaining
    }

    /// Fire a shot at a square of the board.
    pub fn shoot(&mut self, coord: Coord) -> (r: HitResult)
        requires
            old(self).wf(),
            coord.wf(),
        ensures
            final(self).wf(),
            final(self)@ == old(self)@.update(coord.index(), old(self)@[coord.index()].shot()),
            r == old(self)@[coord.index()].shot_result(),
            ship_count(final(self)@) + (if r == HitResult::Hit {
                1int
            } else {
                0int
            }) == ship_count(old(self)@),
    {
        let i = coord.row * BOARD_COLS + coord.col;
        let mut square = self.grid[i];
        let result = square.shoot();
        proof {
            lemma_ship_count_update(self@, i as int, square);
        }
        self.grid.set(i, square);
        if result == HitResult::Hit {
            self.ship_remaining = self.ship_remaining - 1;
        }
        result
    }

    /// The ground truth about a square.
    pub fn get_priv(&self, coord: Coord) -> (r: Square)
        requires
            self.wf(),
            coord.wf(),
        ensures
            r == self@[coord.index()],
    {
        *self.get_square(coord)
    }

    /// What everybody may see of a square.
    pub fn get_pub(&self, coord: Coord) -> (r: Square)
        requires
            self.wf(),
            coord.wf(),
        ensures
            r == self@[coord.index()].hidden(),
    {
        self.get_square(coord).public_form()
    }

    /// Put a ship on a square. This succeeds only on sea; on any other
    /// square the board is left as it was and the result is false.
    pub fn place_ship_square(&mut self, coord: Coord) -> (r: bool)
        requires
            old(self).wf(),
            coord.wf(),
        ensures
            final(self).wf(),
            r == (old(self)@[coord.index()] == Square::Sea),
            r ==> final(self)@ == old(self)@.update(coord.index(), Square::Ship),
            !r ==> final(self)@ == old(self)@,
            ship_count(final(self)@) == ship_count(old(self)@) + if r {
                1int
            } else {
                0int
            },
    {
        let i = coord.row * BOARD_COLS + coord.col;
        if self.grid[i] != Square::Sea {
            false
        } else {
            proof {
                lemma_ship_count_update(self@, i as int, Square::Ship);
                lemma_ship_count_bound(self@.update(i as int, Square::Ship));
            }
            self.grid.set(i, Square::Ship);
            self.ship_remaining = self.ship_remaining + 1;
            true
        }
    }

    /// Whether a ship of `length` squares fits from `coord` along `dir`:
    /// the step is valid, and each square of the line is on the board and is
    /// sea. A ship of length zero fits wherever the step is valid.
    pub fn valid_ship_line(&self, coord: Coord, dir: Dir, length: usize) -> (r: bool)
        requires
            self.wf(),
        ensures
            r == line_open(self@, coord, dir, length as int),
    {
        if !dir.is_valid() {
            return false;
        }
        if length == 0 {
            return true;
        }
        if !coord.is_valid() {
            assert(!line_cell_free(self@, coord, dir, 0));
            return false;
        }
        let mut row: isize = coord.row as isize;
        let mut col: isize = coord.col as isize;
        let mut i: usize = 0;
        while i < length
            invariant
                self.wf(),
                coord.wf(),
                dir.wf(),
                i <= length,
                row == line_row(coord, dir, i as int),
                col == line_col(coord, dir, i as int),
                -1 <= row <= BOARD_ROWS,
                -1 <= col <= BOARD_COLS,
                forall|k: int| 0 <= k < i ==> #[trigger] line_cell_free(self@, coord, dir, k),
            decreases length - i,
        {
            if row < 0 || col < 0 || row >= BOARD_ROWS as isize || col >= BOARD_COLS as isize {
                assert(!line_cell_free(self@, coord, dir, i as int));
                return false;
            }
            let square = self.grid[(row as usize) * BOARD_COLS + (col as usize)];
            if square != Square::Sea {
                assert(!line_cell_free(self@, coord, dir, i as int));
                return false;
            }
            proof {
                lemma_line_step(coord, dir, i as int);
            }
            row = row + dir.drow;
            col = col + dir.dcol;
            i += 1;
        }
        true
    }

    /// Place a ship of `length` squares from `coord` along `dir`, if it
    /// fits; nothing changes when it does not.
    pub fn place_ship_line(&mut self, coord: Coord, dir: Dir, length: usize) -> (r: bool)
        requires
            old(self).wf(),
        ensures
            final(self).wf(),
            r == line_open(old(self)@, coord, dir, length as int),
            r ==> final(self)@ == with_ship_line(old(self)@, coord, dir, length as nat),
            !r ==> final(self)@ == old(self)@,
            ship_count(final(self)@) == ship_count(old(self)@) + if r {
                length as int
            } else {
                0int
            },
    {
        if !self.valid_ship_line(coord, dir, length) {
            return false;
        }
        let ghost start = self@;
        let mut cur = coord;
        let mut i: usize = 0;
        while i < length
            invariant
                self.wf(),
                start.len() == BOARD_CELLS,
                line_open(start, coord, dir, length as int),
                i <= length,
                i < length ==> cur.row == line_row(coord, dir, i as int) && cur.col == line_col(
                    coord,
                    dir,
                    i as int,
                ),
                self@ == with_ship_line(start, coord, dir, i as nat),
            decreases length - i,
        {
            proof {
                let k = i as int;
                assert(line_cell_free(start, coord, dir, k));
                let idx = cell_index(line_row(coord, dir, k), line_col(coord, dir, k));
                assert forall|j: int| 0 <= j < k implies cell_index(
                    line_row(coord, dir, j),
                    line_col(coord, dir, j),
                ) != idx by {
                    assert(line_cell_free(start, coord, dir, j));
                    lemma_line_distinct(coord, dir, j, k);
                }
                lemma_with_ship_line_frame(start, coord, dir, i as nat, idx);
            }
            let placed = self.place_ship_square(cur);
            assert(placed);
            if i + 1 < length {
                proof {
                    lemma_line_step(coord, dir, i as int);
                    assert(line_cell_free(start, coord, dir, i + 1));
                }
                match cur.add(dir) {
                    Some(next) => {
                        cur = next;
                    },
                    None => {
                        assert(false);
                    },
                }
            }
            i += 1;
        }
        proof {
            lemma_ship_line_placement(start, coord, dir, length as nat);
        }
        true
    }
}

/// The text of one row: its squares' texts, separated by spaces.
pub open spec fn row_text(cells: Seq<Square>, row: int, public: bool) -> Seq<char> {
    joined(
        Seq::new(
            BOARD_COLS as nat,
            |c: int|
                if public {
                    cells[cell_index(row, c)].hidden().text()
                } else {
                    cells[cell_index(row, c)].text()
                },
        ),
        seq![' '],
    )
}

/// The text of a board: its rows' texts, one per line.
pub open spec fn board_text(cells: Seq<Square>, public: bool) -> Seq<char> {
    joined(Seq::new(BOARD_ROWS as nat, |r: int| row_text(cells, r, public)), seq!['\n'])
}

impl VisibilityView for Square {
    open spec fn viewable(&self) -> bool {
        true
    }

    open spec fn same_private(&self, other: &Self) -> bool {
        *self == *other
    }

    open spec fn same_public(&self, other: &Self) -> bool {
        self.hidden() == other.hidden()
    }

    open spec fn private_text(&self) -> Seq<char> {
        self.text()
    }

    open spec fn public_text(&self) -> Seq<char> {
        self.hidden().text()
    }

    fn eq_priv(&self, other: &Self) -> (r: bool) {
        *self == *other
    }

    fn eq_pub(&self, other: &Self) -> (r: bool) {
        self.public_form() == other.public_form()
    }

    fn disp_priv(&self) -> (r: String) {
        match *self {
            Square::Ship => {
                proof {
                    reveal_strlit("s");
                }
                "s".to_string()
            },
            Square::ShipHit => {
                proof {
                    reveal_strlit("x");
                }
                "x".to_string()
            },
            Square::Sea => {
                proof {
                    reveal_strlit("-");
                }
                "-".to_string()
            },
            Square::SeaMiss => {
                proof {
                    reveal_strlit("o");
                }
                "o".to_string()
            },
        }
    }

    fn disp_pub(&self) -> (r: String) {
        self.public_form().disp_priv()
    }
}

impl Board {
    /// The text of one row of the board.
    fn disp_row(&self, row: usize, public: bool) -> (r: String)
        requires
            self.wf(),
            row < BOARD_ROWS,
        ensures
            r@ == row_text(self@, row as int, public),
    {
        let mut parts: Vec<String> = Vec::new();
        let mut c: usize = 0;
        while c < BOARD_COLS
            invariant
                self.wf(),
                row < BOARD_ROWS,
                c <= BOARD_COLS,
                texts(parts@) =~= Seq::new(
                    c as nat,
                    |j: int|
                        if public {
                            self@[cell_index(row as int, j)].hidden().text()
                        } else {
                            self@[cell_index(row as int, j)].text()
                        },
                ),
            decreases BOARD_COLS - c,
        {
            let square = self.grid[row * BOARD_COLS + c];
            let piece = if public {
                square.disp_pub()
            } else {
                square.disp_priv()
            };
            let ghost before = parts@;
            parts.push(piece);
            assert(texts(parts@) =~= texts(before).push(piece@));
            c += 1;
        }
        proof {
            reveal_strlit(" ");
            assert(" "@ =~= seq![' ']);
        }
        join_strings(&parts, " ")
    }

    /// The text of the whole board, in its private or its public form.
    fn disp(&self, public: bool) -> (r: String)
        requires
            self.wf(),
        ensures
            r@ == board_text(self@, public),
    {
        let mut rows: Vec<String> = Vec::new();
        let mut r: usize = 0;
        while r < BOARD_ROWS
            invariant
                self.wf(),
                r <= BOARD_ROWS,
                texts(rows@) =~= Seq::new(r as nat, |j: int| row_text(self@, j, public)),
            decreases BOARD_ROWS - r,
        {
            let line = self.disp_row(r, public);
            let ghost before = rows@;
            rows.push(line);
            assert(texts(rows@) =~= texts(before).push(line@));
            r += 1;
        }
        proof {
            reveal_strlit("\n");
            assert("\n"@ =~= seq!['\n']);
        }
        join_strings(&rows, "\n")
    }
}

impl VisibilityView for Board {
    open spec fn viewable(&self) -> bool {
        self.wf()
    }

    open spec fn same_private(&self, other: &Self) -> bool {
        self@ == other@
    }

    /// Every square has the same public form on both boards.
    open spec fn same_public(&self, other: &Self) -> bool {
        forall|i: int| 0 <= i < BOARD_CELLS ==> (#[trigger] self@[i]).hidden() == other@[i].hidden()
    }

    open spec fn private_text(&self) -> Seq<char> {
        board_text(self@, false)
    }

    open spec fn public_text(&self) -> Seq<char> {
        board_text(self@, true)
    }

    fn eq_priv(&self, other: &Self) -> (r: bool) {
        let mut i: usize = 0;
        while i < BOARD_CELLS
            invariant
                self.wf(),
                other.wf(),
                i <= BOARD_CELLS,
                forall|j: int| 0 <= j < i ==> self@[j] == other@[j],
            decreases BOARD_CELLS - i,
        {
            if self.grid[i] != other.grid[i] {
                return false;
            }
            i += 1;
        }
        assert(self@ =~= other@);
        true
    }

    fn eq_pub(&self, other: &Self) -> (r: bool) {
        let mut i: usize = 0;
        while i < BOARD_CELLS
            invariant
                self.wf(),
                other.wf(),
                i <= BOARD_CELLS,
                forall|j: int| 0 <= j < i ==> (#[trigger] self@[j]).hidden() == other@[j].hidden(),
            decreases BOARD_CELLS - i,
        {
            if self.grid[i].public_form() != other.grid[i].public_form() {
                return false;
            }
            i += 1;
        }
        true
    }

    fn disp_priv(&self) -> (r: String) {
        self.disp(false)
    }

    fn disp_pub(&self) -> (r: String) {
        self.disp(true)
    }
}

} // verus!
