//! Minesweeper: cell lifecycle, mine placement, neighbour counting,
//! reveal and flag moves, and the win test, on a [`Board`] of squares.

use crate::grid::Board;
use rand::Rng;
use vstd::prelude::*;

verus! {

/// Lifecycle of one square: exactly one of the three holds at any time.
#[derive(Clone, Copy, PartialEq, Eq, Structural, Debug)]
pub enum SquareState {
    Hidden,
    Revealed,
    Flagged,
}

impl Default for SquareState {
    /// A fresh square starts hidden.
    fn default() -> (s: Self)
        ensures
            s == SquareState::Hidden,
    {
        SquareState::Hidden
    }
}

/// One square of a Minesweeper board: its lifecycle state, its displayed
/// value (`-1` until a reveal computes the neighbour-mine count), and
/// whether it carries a mine.
#[derive(Clone, Copy, PartialEq, Eq, Structural, Debug)]
pub struct MinesweeperSquare {
    pub state: SquareState,
    pub value: isize,
    pub is_mine: bool,
}

impl MinesweeperSquare {
    /// A hidden square with no mine and no computed value yet.
    pub fn new() -> (s: MinesweeperSquare)
        ensures
            s == (MinesweeperSquare {
                state: SquareState::Hidden,
                value: -1isize,
                is_mine: false,
            }),
    {
        MinesweeperSquare { state: SquareState::Hidden, value: -1, is_mine: false }
    }

    /// The displayed value of the square.
    pub fn get_value(&self) -> (v: isize)
        ensures
            v == self.value,
    {
        self.value
    }

    /// Whether the square carries a mine.
    pub fn get_is_mine(&self) -> (m: bool)
        ensures
            m == self.is_mine,
    {
        self.is_mine
    }
}

impl Default for MinesweeperSquare {
    /// The default square is hidden, mine-free, and displays `0`.
    fn default() -> (s: Self)
        ensures
            s == (MinesweeperSquare {
                state: SquareState::Hidden,
                value: 0isize,
                is_mine: false,
            }),
    {
        MinesweeperSquare { state: SquareState::Hidden, value: 0, is_mine: false }
    }
}

/// A rejected operation: the coordinates lie outside the board, or the
/// addressed square is not in a state that allows the operation.
#[derive(Clone, Copy, PartialEq, Eq, Structural, Debug)]
pub enum GameError {
    OutOfBounds,
    InvalidCellState,
}

/// What a reveal move did: uncovered a safe square carrying its
/// neighbour-mine count, or hit a mine.
#[derive(Clone, Copy, PartialEq, Eq, Structural, Debug)]
pub enum RevealOutcome {
    Revealed(isize),
    Exploded,
}

/// Number of mines in `row`.
pub open spec fn count_mines_row(row: Seq<MinesweeperSquare>) -> nat
    decreases row.len(),
{
    if row.len() == 0 {
        0
    } else {
        count_mines_row(row.drop_last()) + if row.last().is_mine {
            1nat
        } else {
            0nat
        }
    }
}

/// Number of mines on the whole board.
pub open spec fn count_mines(g: Seq<Seq<MinesweeperSquare>>) -> nat
    decreases g.len(),
{
    if g.len() == 0 {
        0
    } else {
        count_mines(g.drop_last()) + count_mines_row(g.last())
    }
}

/// `1` when `(x, y)` addresses a mine, `0` otherwise (including out of
/// bounds).
pub open spec fn mine_at(g: Seq<Seq<MinesweeperSquare>>, x: int, y: int) -> int {
    if 0 <= y < g.len() && 0 <= x < g[y].len() && g[y][x].is_mine {
        1
    } else {
        0
    }
}

/// Number of mines in the 3 by 3 neighbourhood of `(x, y)`, the square
/// itself included; positions outside the board contribute nothing.
pub open spec fn proximity_spec(g: Seq<Seq<MinesweeperSquare>>, x: int, y: int) -> int {
    mine_at(g, x - 1, y - 1) + mine_at(g, x, y - 1) + mine_at(g, x + 1, y - 1) + mine_at(
        g,
        x - 1,
        y,
    ) + mine_at(g, x, y) + mine_at(g, x + 1, y) + mine_at(g, x - 1, y + 1) + mine_at(g, x, y + 1)
        + mine_at(g, x + 1, y + 1)
}

/// Every mine on the board is flagged.
pub open spec fn all_mines_flagged(g: Seq<Seq<MinesweeperSquare>>) -> bool {
    forall|y: int, x: int|
        0 <= y < g.len() && 0 <= x < g[y].len() && (#[trigger] g[y][x]).is_mine ==> g[y][x].state
            == SquareState::Flagged
}

proof fn lemma_count_mines_row_update(row: Seq<MinesweeperSquare>, i: int, sq: MinesweeperSquare)
    requires
        0 <= i < row.len(),
    ensures
        count_mines_row(row.update(i, sq)) == count_mines_row(row) - (if row[i].is_mine {
            1int
        } else {
            0int
        }) + (if sq.is_mine {
            1int
        } else {
            0int
        }),
    decreases row.len(),
{
    let r2 = row.update(i, sq);
    if i == row.len() - 1 {
        assert(r2.drop_last() =~= row.drop_last());
    } else {
        assert(r2.drop_last() =~= row.drop_last().update(i, sq));
        lemma_count_mines_row_update(row.drop_last(), i, sq);
        assert(r2.last() == row.last());
    }
}

proof fn lemma_count_mines_update(
    g: Seq<Seq<MinesweeperSquare>>,
    y: int,
    row: Seq<MinesweeperSquare>,
)
    requires
        0 <= y < g.len(),
    ensures
        count_mines(g.update(y, row)) == count_mines(g) - count_mines_row(g[y]) + count_mines_row(
            row,
        ),
    decreases g.len(),
{
    let g2 = g.update(y, row);
    if y == g.len() - 1 {
        assert(g2.drop_last() =~= g.drop_last());
        assert(g2.last() == row);
    } else {
        assert(g2.drop_last() =~= g.drop_last().update(y, row));
        lemma_count_mines_update(g.drop_last(), y, row);
        assert(g2.last() == g.last());
    }
}

proof fn lemma_count_mines_row_full(row: Seq<MinesweeperSquare>)
    requires
        forall|x: int| 0 <= x < row.len() ==> (#[trigger] row[x]).is_mine,
    ensures
        count_mines_row(row) == row.len(),
    decreases row.len(),
{
    if row.len() > 0 {
        lemma_count_mines_row_full(row.drop_last());
    }
}

proof fn lemma_count_mines_full(g: Seq<Seq<MinesweeperSquare>>, w: nat)
    requires
        forall|y: int| 0 <= y < g.len() ==> (#[trigger] g[y]).len() == w,
        forall|y: int, x: int|
            0 <= y < g.len() && 0 <= x < g[y].len() ==> (#[trigger] g[y][x]).is_mine,
    ensures
        count_mines(g) == g.len() * w,
    decreases g.len(),
{
    if g.len() > 0 {
        lemma_count_mines_full(g.drop_last(), w);
        lemma_count_mines_row_full(g.last());
        assert((g.len() - 1) * w + w == g.len() * w) by (nonlinear_arith);
    }
}

/// How many times a mine draw that keeps hitting existing mines is
/// redrawn before the next free square in row-major order stands in;
/// the bound is what lets the placement loop provably end.
const REDRAW_LIMIT: usize = 32;

/// Relies on `rand::Rng::gen_range` applied to the range `0..n`: the
/// result lies inside the range. `gen_range` panics only when the range
/// is empty, which `n > 0` rules out; beyond that, the first use of the
/// thread's generator can fail if the operating system's entropy source
/// does — an environmental failure, like allocation failure, that no
/// precondition can exclude.
#[verifier::external_body]
fn random_below(n: usize) -> (r: usize)
    requires
        n > 0,
    ensures
        r < n,
{
    rand::thread_rng().gen_range(0..n)
}

/// A Minesweeper board: a grid of squares together with the game moves.
pub struct MineField {
    pub board: Board<MinesweeperSquare>,
}

impl View for MineField {
    type V = Seq<Seq<MinesweeperSquare>>;

    open spec fn view(&self) -> Seq<Seq<MinesweeperSquare>> {
        self.board@
    }
}

impl MineField {
    /// The grid is rectangular and small enough that the cell count fits
    /// the machine.
    pub open spec fn wf(&self) -> bool {
        &&& self.board.wf()
        &&& self.board.width * self.board.height <= usize::MAX
    }

    /// A fresh field: every square hidden, mine-free, displaying `-1`.
    pub fn isize_board(width: usize, height: usize) -> (f: MineField)
        requires
            width * height <= usize::MAX,
        ensures
            f.wf(),
            f.board.width == width,
            f.board.height == height,
            forall|y: int, x: int|
                0 <= y < height && 0 <= x < width ==> #[trigger] f@[y][x] == (MinesweeperSquare {
                    state: SquareState::Hidden,
                    value: -1isize,
                    is_mine: false,
                }),
    {
        MineField { board: Board::filled(width, height, MinesweeperSquare::new()) }
    }

    /// Whether the in-bounds square `(x, y)` carries a mine.
    pub fn is_mine(&self, x: usize, y: usize) -> (m: bool)
        requires
            self.wf(),
            x < self.board.width,
            y < self.board.height,
        ensures
            m == self@[y as int][x as int].is_mine,
    {
        match self.board.get(x, y) {
            Some(sq) => sq.is_mine,
            None => false,
        }
    }

    /// `true` exactly when `(x, y)` is in bounds and carries a mine.
    fn mine_present(&self, x: usize, y: usize) -> (r: bool)
        requires
            self.wf(),
        ensures
            r == (mine_at(self@, x as int, y as int) == 1),
    {
        match self.board.get(x, y) {
            Some(sq) => sq.is_mine,
            None => false,
        }
    }

    /// Counts the mines in the 3 by 3 neighbourhood of `(x, y)`, clipped
    /// to the board; the square itself is included in the count.
    pub fn compute_proximity(&self, x: usize, y: usize) -> (c: isize)
        requires
            self.wf(),
            x < self.board.width,
            y < self.board.height,
        ensures
            c == proximity_spec(self@, x as int, y as int),
            0 <= c <= 9,
    {
        let mut count: isize = 0;
        if x > 0 && y > 0 && self.mine_present(x - 1, y - 1) {
            count = count + 1;
        }
        if y > 0 && self.mine_present(x, y - 1) {
            count = count + 1;
        }
        if y > 0 && self.mine_present(x + 1, y - 1) {
            count = count + 1;
        }
        if x > 0 && self.mine_present(x - 1, y) {
            count = count + 1;
        }
        if self.mine_present(x, y) {
            count = count + 1;
        }
        if self.mine_present(x + 1, y) {
            count = count + 1;
        }
        if x > 0 && self.mine_present(x - 1, y + 1) {
            count = count + 1;
        }
        if self.mine_present(x, y + 1) {
            count = count + 1;
        }
        if self.mine_present(x + 1, y + 1) {
            count = count + 1;
        }
        count
    }

    /// The first mine-free square of row `y` at column `x_start` or later,
    /// scanning left to right.
    fn find_free_in_row(&self, y: usize, x_start: usize) -> (r: Option<(usize, usize)>)
        requires
            self.wf(),
            y < self.board.height,
        ensures
            r matches Some(p) ==> p.1 == y && x_start <= p.0 < self.board.width
                && !self@[y as int][p.0 as int].is_mine,
            r is None ==> forall|x: int|
                x_start <= x < self.board.width ==> (#[trigger] self@[y as int][x]).is_mine,
    {
        let mut x = x_start;
        while x < self.board.width
            invariant
                self.wf(),
                y < self.board.height,
                x_start <= x,
                forall|c: int| x_start <= c < x ==> (#[trigger] self@[y as int][c]).is_mine,
            decreases self.board.width - x,
        {
            if !self.is_mine(x, y) {
                return Some((x, y));
            }
            x = x + 1;
        }
        None
    }

    /// The first mine-free square in the rows `y_start` and below, in
    /// row-major order.
    fn find_free_from(&self, y_start: usize) -> (r: Option<(usize, usize)>)
        requires
            self.wf(),
        ensures
            r matches Some(p) ==> p.0 < self.board.width && p.1 < self.board.height
                && !self@[p.1 as int][p.0 as int].is_mine,
            r is None ==> forall|y: int, x: int|
                y_start <= y < self.board.height && 0 <= x < self.board.width ==> (
                #[trigger] self@[y][x]).is_mine,
    {
        let mut y = y_start;
        while y < self.board.height
            invariant
                self.wf(),
                y_start <= y,
                forall|r: int, c: int|
                    y_start <= r < y && 0 <= c < self.board.width ==> (
                    #[trigger] self@[r][c]).is_mine,
            decreases self.board.height - y,
        {
            match self.find_free_in_row(y, 0) {
                Some(p) => {
                    return Some(p);
                },
                None => {},
            }
            y = y + 1;
        }
        None
    }

    /// A mine-free square: `(x0, y0)` itself when it is free, else the
    /// next free square after it in row-major order, wrapping round to the
    /// top of the board. At least one square is free, so the search cannot
    /// come back empty.
    fn find_free_cell(&self, x0: usize, y0: usize) -> (p: (usize, usize))
        requires
            self.wf(),
            x0 < self.board.width,
            y0 < self.board.height,
            count_mines(self@) < self.board.width * self.board.height,
        ensures
            p.0 < self.board.width,
            p.1 < self.board.height,
            !self@[p.1 as int][p.0 as int].is_mine,
    {
        if !self.is_mine(x0, y0) {
            return (x0, y0);
        }
        match self.find_free_in_row(y0, x0 + 1) {
            Some(p) => {
                return p;
            },
            None => {},
        }
        match self.find_free_from(y0 + 1) {
            Some(p) => {
                return p;
            },
            None => {},
        }
        match self.find_free_from(0) {
            Some(p) => {
                return p;
            },
            None => {},
        }
        // Every square of the board is a mine, contradicting the
        // assumption that one is still free.
        proof {
            assert(forall|y: int|
                0 <= y < self@.len() ==> (#[trigger] self@[y]).len() == self.board.width);
            assert(forall|y: int, x: int|
                0 <= y < self@.len() && 0 <= x < self@[y].len() ==> (
                #[trigger] self@[y][x]).is_mine);
            lemma_count_mines_full(self@, self.board.width as nat);
            assert(count_mines(self@) == self@.len() * self.board.width);
            assert(self@.len() == self.board.height);
            assert(count_mines(self@) == self.board.height * self.board.width);
            assert(self.board.height * self.board.width == self.board.width * self.board.height)
                by (nonlinear_arith);
            assert(false);
        }
        unreached()
    }

    /// Places `count` more mines, each on a square that had none, so the
    /// number of mines grows by exactly `count`; no square's lifecycle
    /// state or displayed value changes, and no mine is removed. Each
    /// mine goes on a randomly drawn square; a draw that hits an existing
    /// mine is redrawn, a bounded number of times so that the loop
    /// provably ends, and only then does the next free square in
    /// row-major order stand in.
    pub fn place_mines(&mut self, count: usize)
        requires
            old(self).wf(),
            count_mines(old(self)@) + count <= old(self).board.width * old(self).board.height,
        ensures
            final(self).wf(),
            final(self).board.width == old(self).board.width,
            final(self).board.height == old(self).board.height,
            count_mines(final(self)@) == count_mines(old(self)@) + count,
            forall|y: int, x: int|
                0 <= y < old(self).board.height && 0 <= x < old(self).board.width ==> {
                    &&& (#[trigger] final(self)@[y][x]).state == old(self)@[y][x].state
                    &&& final(self)@[y][x].value == old(self)@[y][x].value
                    &&& (old(self)@[y][x].is_mine ==> final(self)@[y][x].is_mine)
                },
    {
        let ghost g0 = self@;
        let mut placed: usize = 0;
        while placed < count
            invariant
                self.wf(),
                self.board.width == old(self).board.width,
                self.board.height == old(self).board.height,
                placed <= count,
                count_mines(g0) + count <= self.board.width * self.board.height,
                count_mines(self@) == count_mines(g0) + placed,
                forall|y: int, x: int|
                    0 <= y < self.board.height && 0 <= x < self.board.width ==> {
                        &&& (#[trigger] self@[y][x]).state == g0[y][x].state
                        &&& self@[y][x].value == g0[y][x].value
                        &&& (g0[y][x].is_mine ==> self@[y][x].is_mine)
                    },
                g0 == old(self)@,
            decreases count - placed,
        {
            proof {
                assert(self.board.width > 0 && self.board.height > 0) by (nonlinear_arith)
                    requires
                        count_mines(self@) < self.board.width * self.board.height,
                ;
            }
            let mut x0 = random_below(self.board.width);
            let mut y0 = random_below(self.board.height);
            let mut tries: usize = 0;
            while tries < REDRAW_LIMIT && self.is_mine(x0, y0)
                invariant
                    self.wf(),
                    x0 < self.board.width,
                    y0 < self.board.height,
                    tries <= REDRAW_LIMIT,
                decreases REDRAW_LIMIT - tries,
            {
                x0 = random_below(self.board.width);
                y0 = random_below(self.board.height);
                tries = tries + 1;
            }
            let p = self.find_free_cell(x0, y0);
            let sq = *self.board.get(p.0, p.1).unwrap();
            let armed = MinesweeperSquare { state: sq.state, value: sq.value, is_mine: true };
            let ghost before = self@;
            self.board.set(p.0, p.1, armed);
            proof {
                lemma_count_mines_row_update(before[p.1 as int], p.0 as int, armed);
                lemma_count_mines_update(
                    before,
                    p.1 as int,
                    before[p.1 as int].update(p.0 as int, armed),
                );
            }
            placed = placed + 1;
        }
    }

    /// Adds one difficulty step: a tenth of the board's squares, rounded
    /// down, become additional mines.
    pub fn increase_difficulty(&mut self)
        requires
            old(self).wf(),
            count_mines(old(self)@) + (old(self).board.width * old(self).board.height) / 10 <= old(
                self,
            ).board.width * old(self).board.height,
        ensures
            final(self).wf(),
            final(self).board.width == old(self).board.width,
            final(self).board.height == old(self).board.height,
            count_mines(final(self)@) == count_mines(old(self)@) + (old(self).board.width * old(
                self,
            ).board.height) / 10,
            forall|y: int, x: int|
                0 <= y < old(self).board.height && 0 <= x < old(self).board.width ==> {
                    &&& (#[trigger] final(self)@[y][x]).state == old(self)@[y][x].state
                    &&& final(self)@[y][x].value == old(self)@[y][x].value
                    &&& (old(self)@[y][x].is_mine ==> final(self)@[y][x].is_mine)
                },
    {
        let total_squares = self.board.width * self.board.height;
        let mines_count = total_squares / 10;
        self.place_mines(mines_count);
    }

    /// A reveal move on `(x, y)`. Out of bounds it is rejected; a square
    /// already flagged or revealed is rejected unchanged, since flagged
    /// squares cannot be revealed and a revealed square is terminal; on a
    /// hidden mine it reports the explosion and changes nothing; on a
    /// hidden safe square it stores the neighbour-mine count as the
    /// square's value, marks that one square revealed, and reports the
    /// count. No other square changes.
    pub fn reveal_square(&mut self, x: usize, y: usize) -> (r: Result<RevealOutcome, GameError>)
        requires
            old(self).wf(),
        ensures
            final(self).wf(),
            final(self).board.width == old(self).board.width,
            final(self).board.height == old(self).board.height,
            !old(self).board.in_bounds(x as int, y as int) ==> r == Err::<
                RevealOutcome,
                GameError,
            >(GameError::OutOfBounds) && final(self)@ == old(self)@,
            old(self).board.in_bounds(x as int, y as int) && old(self)@[y as int][x as int].state
                != SquareState::Hidden ==> r == Err::<RevealOutcome, GameError>(
                GameError::InvalidCellState,
            ) && final(self)@ == old(self)@,
            old(self).board.in_bounds(x as int, y as int) && old(self)@[y as int][x as int].state
                == SquareState::Hidden && old(self)@[y as int][x as int].is_mine ==> r == Ok::<
                RevealOutcome,
                GameError,
            >(RevealOutcome::Exploded) && final(self)@ == old(self)@,
            old(self).board.in_bounds(x as int, y as int) && old(self)@[y as int][x as int].state
                == SquareState::Hidden && !old(self)@[y as int][x as int].is_mine ==> {
                &&& r == Ok::<RevealOutcome, GameError>(
                    RevealOutcome::Revealed(proximity_spec(old(self)@, x as int, y as int) as isize),
                )
                &&& final(self)@ == old(self)@.update(
                    y as int,
                    old(self)@[y as int].update(
                        x as int,
                        (MinesweeperSquare {
                            state: SquareState::Revealed,
                            value: proximity_spec(old(self)@, x as int, y as int) as isize,
                            is_mine: false,
                        }),
                    ),
                )
            },
    {
        if x >= self.board.width || y >= self.board.height {
            return Err(GameError::OutOfBounds);
        }
        let target = *self.board.get(x, y).unwrap();
        if !matches!(target.state, SquareState::Hidden) {
            return Err(GameError::InvalidCellState);
        }
        if target.is_mine {
            return Ok(RevealOutcome::Exploded);
        }
        let proximity = self.compute_proximity(x, y);
        let revealed = MinesweeperSquare {
            state: SquareState::Revealed,
            value: proximity,
            is_mine: false,
        };
        self.board.set(x, y, revealed);
        Ok(RevealOutcome::Revealed(proximity))
    }

    /// A flag move on `(x, y)`. Out of bounds it is rejected; a square
    /// already revealed or flagged is rejected unchanged; a hidden square
    /// becomes flagged, its value and mine untouched.
    pub fn mark_square(&mut self, x: usize, y: usize) -> (r: Result<(), GameError>)
        requires
            old(self).wf(),
        ensures
            final(self).wf(),
            final(self).board.width == old(self).board.width,
            final(self).board.height == old(self).board.height,
            !old(self).board.in_bounds(x as int, y as int) ==> r == Err::<(), GameError>(
                GameError::OutOfBounds,
            ) && final(self)@ == old(self)@,
            old(self).board.in_bounds(x as int, y as int) && old(self)@[y as int][x as int].state
                != SquareState::Hidden ==> r == Err::<(), GameError>(GameError::InvalidCellState)
                && final(self)@ == old(self)@,
            old(self).board.in_bounds(x as int, y as int) && old(self)@[y as int][x as int].state
                == SquareState::Hidden ==> r == Ok::<(), GameError>(()) && final(self)@ == old(
                self,
            )@.update(
                y as int,
                old(self)@[y as int].update(
                    x as int,
                    (MinesweeperSquare {
                        state: SquareState::Flagged,
                        value: old(self)@[y as int][x as int].value,
                        is_mine: old(self)@[y as int][x as int].is_mine,
                    }),
                ),
            ),
    {
        if x >= self.board.width || y >= self.board.height {
            return Err(GameError::OutOfBounds);
        }
        let sq = *self.board.get(x, y).unwrap();
        if !matches!(sq.state, SquareState::Hidden) {
            return Err(GameError::InvalidCellState);
        }
        let flagged = MinesweeperSquare {
            state: SquareState::Flagged,
            value: sq.value,
            is_mine: sq.is_mine,
        };
        self.board.set(x, y, flagged);
        Ok(())
    }

    /// The game is won exactly when every mine on the board is flagged;
    /// the state of mine-free squares does not matter.
    pub fn is_won(&self) -> (w: bool)
        requires
            self.wf(),
        ensures
            w == all_mines_flagged(self@),
    {
        let mut y: usize = 0;
        while y < self.board.height
            invariant
                self.wf(),
                y <= self.board.height,
                forall|r: int, c: int|
                    0 <= r < y && 0 <= c < self.board.width && (#[trigger] self@[r][c]).is_mine
                        ==> self@[r][c].state == SquareState::Flagged,
            decreases self.board.height - y,
        {
            let mut x: usize = 0;
            while x < self.board.width
                invariant
                    self.wf(),
                    y < self.board.height,
                    x <= self.board.width,
                    forall|r: int, c: int|
                        0 <= r < y && 0 <= c < self.board.width && (#[trigger] self@[r][c]).is_mine
                            ==> self@[r][c].state == SquareState::Flagged,
                    forall|c: int|
                        0 <= c < x && (#[trigger] self@[y as int][c]).is_mine ==> self@[y as
                            int][c].state == SquareState::Flagged,
                decreases self.board.width - x,
            {
                let sq = *self.board.get(x, y).unwrap();
                if sq.is_mine && !matches!(sq.state, SquareState::Flagged) {
                    return false;
                }
                x = x + 1;
            }
            y = y + 1;
        }
        true
    }
}

/// On a board whose only mine sits at `(mx, my)`, the neighbour count is
/// `1` at every square of the mine's 3 by 3 neighbourhood (the mine's own
/// square included) and `0` at every other square.
pub proof fn lemma_single_mine_proximity(
    g: Seq<Seq<MinesweeperSquare>>,
    mx: int,
    my: int,
    x: int,
    y: int,
)
    requires
        0 <= my < g.len(),
        0 <= mx < g[my].len(),
        forall|cy: int, cx: int|
            0 <= cy < g.len() && 0 <= cx < g[cy].len() ==> ((#[trigger] g[cy][cx]).is_mine <==> (cx
                == mx && cy == my)),
        0 <= y < g.len(),
        0 <= x < g[y].len(),
    ensures
        proximity_spec(g, x, y) == if mx - 1 <= x <= mx + 1 && my - 1 <= y <= my + 1 {
            1int
        } else {
            0int
        },
{
    assert forall|cy: int, cx: int| mine_at(g, cx, cy) == (if cx == mx && cy == my {
        1int
    } else {
        0int
    }) by {
        if 0 <= cy < g.len() && 0 <= cx < g[cy].len() {
            assert(g[cy][cx].is_mine <==> (cx == mx && cy == my));
        }
    }
}

} // verus!
