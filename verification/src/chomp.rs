//! Chomp: an L-shaped removal game on a boolean board. A cell is `true`
//! while still on the board; the player forced to take the origin loses.

use crate::grid::Board;
use vstd::prelude::*;

verus! {

/// Number of playable (`true`) cells in `row`.
pub open spec fn count_true_row(row: Seq<bool>) -> nat
    decreases row.len(),
{
    if row.len() == 0 {
        0
    } else {
        count_true_row(row.drop_last()) + if row.last() {
            1nat
        } else {
            0nat
        }
    }
}

/// Number of playable cells on the whole board.
pub open spec fn count_true(g: Seq<Seq<bool>>) -> nat
    decreases g.len(),
{
    if g.len() == 0 {
        0
    } else {
        count_true(g.drop_last()) + count_true_row(g.last())
    }
}

/// A chomp at `(x, y)` removes `(cx, cy)`: the same column at or below
/// `y`, or the same row at or to the right of `x` — an L shape, not the
/// full lower-right rectangle.
pub open spec fn in_chomp_region(x: int, y: int, cx: int, cy: int) -> bool {
    (cx == x && cy >= y) || (cy == y && cx >= x)
}

/// The board after a chomp at `(x, y)`: every cell of the L-shaped
/// region is cleared, all other cells keep their value.
pub open spec fn chomp_spec(g: Seq<Seq<bool>>, x: int, y: int) -> Seq<Seq<bool>> {
    g.map(
        |cy: int, row: Seq<bool>|
            row.map(
                |cx: int, v: bool|
                    if in_chomp_region(x, y, cx, cy) {
                        false
                    } else {
                        v
                    },
            ),
    )
}

/// The loss test this game reports: every cell other than the origin is
/// gone, and the reported answer is then the origin's own flag. When the
/// origin itself is already gone the test reports `false` even though no
/// move remains; the search below depends on this exact truth table.
pub open spec fn lost_spec(g: Seq<Seq<bool>>) -> bool {
    (forall|cy: int, cx: int|
        0 <= cy < g.len() && 0 <= cx < g[cy].len() && !(cx == 0 && cy == 0) ==> !(
        #[trigger] g[cy][cx])) && g[0][0]
}

/// `(x, y)` is a move candidate: on the board, still playable, and not
/// the origin.
pub open spec fn candidate(g: Seq<Seq<bool>>, x: int, y: int) -> bool {
    0 <= y < g.len() && 0 <= x < g[y].len() && !(x == 0 && y == 0) && g[y][x]
}

/// The player to move has a forced win: the position is not already
/// lost, and some candidate move leaves the opponent without one.
pub open spec fn wins(g: Seq<Seq<bool>>) -> bool
    decreases count_true(g),
    via wins_decreases
{
    !lost_spec(g) && exists|x: int, y: int|
        #[trigger] candidate(g, x, y) && !wins(chomp_spec(g, x, y))
}

#[via_fn]
proof fn wins_decreases(g: Seq<Seq<bool>>) {
    assert forall|x: int, y: int| candidate(g, x, y) implies count_true(chomp_spec(g, x, y))
        < count_true(g) by {
        lemma_chomp_count_decreases(g, x, y);
    }
}

/// `(ax, ay)` comes before `(bx, by)` in row-major order.
pub open spec fn row_major_before(ax: int, ay: int, bx: int, by: int) -> bool {
    ay < by || (ay == by && ax < bx)
}

/// Some cell of the board is still playable.
pub open spec fn has_playable(g: Seq<Seq<bool>>) -> bool {
    exists|y: int, x: int| 0 <= y < g.len() && 0 <= x < g[y].len() && #[trigger] g[y][x]
}

/// Number of playable cells a chomp at `(x, y)` would remove.
pub open spec fn removal_count(g: Seq<Seq<bool>>, x: int, y: int) -> int {
    count_true(g) - count_true(chomp_spec(g, x, y))
}

/// `(mx, my)` is the move the exhaustive search returns: a candidate
/// whose chomp leaves the opponent without a forced win, every candidate
/// earlier in row-major order leaving one.
pub open spec fn is_first_winning_move(g: Seq<Seq<bool>>, mx: int, my: int) -> bool {
    &&& candidate(g, mx, my)
    &&& !wins(chomp_spec(g, mx, my))
    &&& forall|x: int, y: int|
        #[trigger] candidate(g, x, y) && row_major_before(x, y, mx, my) ==> wins(
            chomp_spec(g, x, y),
        )
}

/// `(mx, my)` is the cell the greedy fallback picks: playable, its chomp
/// removes no more playable cells than a chomp at any playable cell
/// would, and every playable cell earlier in row-major order removes
/// strictly more.
pub open spec fn is_first_min_chomp(g: Seq<Seq<bool>>, mx: int, my: int) -> bool {
    &&& 0 <= my < g.len() && 0 <= mx < g[my].len() && g[my][mx]
    &&& forall|y: int, x: int|
        0 <= y < g.len() && 0 <= x < g[y].len() && #[trigger] g[y][x] ==> removal_count(g, mx, my)
            <= removal_count(g, x, y)
    &&& forall|y: int, x: int|
        0 <= y < g.len() && 0 <= x < g[y].len() && #[trigger] g[y][x] && row_major_before(
            x,
            y,
            mx,
            my,
        ) ==> removal_count(g, x, y) > removal_count(g, mx, my)
}

proof fn lemma_count_true_row_push(s: Seq<bool>, b: bool)
    ensures
        count_true_row(s.push(b)) == count_true_row(s) + if b {
            1nat
        } else {
            0nat
        },
{
    assert(s.push(b).drop_last() =~= s);
    assert(s.push(b).last() == b);
}

proof fn lemma_count_true_push(g: Seq<Seq<bool>>, row: Seq<bool>)
    ensures
        count_true(g.push(row)) == count_true(g) + count_true_row(row),
{
    assert(g.push(row).drop_last() =~= g);
    assert(g.push(row).last() == row);
}

proof fn lemma_count_true_row_le(a: Seq<bool>, b: Seq<bool>)
    requires
        a.len() == b.len(),
        forall|i: int| 0 <= i < a.len() ==> (#[trigger] a[i] ==> b[i]),
    ensures
        count_true_row(a) <= count_true_row(b),
    decreases a.len(),
{
    if a.len() > 0 {
        lemma_count_true_row_le(a.drop_last(), b.drop_last());
    }
}

proof fn lemma_count_true_row_lt(a: Seq<bool>, b: Seq<bool>, j: int)
    requires
        a.len() == b.len(),
        forall|i: int| 0 <= i < a.len() ==> (#[trigger] a[i] ==> b[i]),
        0 <= j < a.len(),
        b[j],
        !a[j],
    ensures
        count_true_row(a) < count_true_row(b),
    decreases a.len(),
{
    if j == a.len() - 1 {
        lemma_count_true_row_le(a.drop_last(), b.drop_last());
    } else {
        lemma_count_true_row_lt(a.drop_last(), b.drop_last(), j);
    }
}

proof fn lemma_count_true_le(a: Seq<Seq<bool>>, b: Seq<Seq<bool>>)
    requires
        a.len() == b.len(),
        forall|r: int| 0 <= r < a.len() ==> (#[trigger] a[r]).len() == b[r].len(),
        forall|r: int, c: int|
            0 <= r < a.len() && 0 <= c < a[r].len() ==> (#[trigger] a[r][c] ==> b[r][c]),
    ensures
        count_true(a) <= count_true(b),
    decreases a.len(),
{
    if a.len() > 0 {
        lemma_count_true_le(a.drop_last(), b.drop_last());
        lemma_count_true_row_le(a.last(), b.last());
    }
}

proof fn lemma_count_true_lt(a: Seq<Seq<bool>>, b: Seq<Seq<bool>>, jx: int, jy: int)
    requires
        a.len() == b.len(),
        forall|r: int| 0 <= r < a.len() ==> (#[trigger] a[r]).len() == b[r].len(),
        forall|r: int, c: int|
            0 <= r < a.len() && 0 <= c < a[r].len() ==> (#[trigger] a[r][c] ==> b[r][c]),
        0 <= jy < a.len(),
        0 <= jx < a[jy].len(),
        b[jy][jx],
        !a[jy][jx],
    ensures
        count_true(a) < count_true(b),
    decreases a.len(),
{
    if jy == a.len() - 1 {
        lemma_count_true_le(a.drop_last(), b.drop_last());
        lemma_count_true_row_lt(a.last(), b.last(), jx);
    } else {
        lemma_count_true_lt(a.drop_last(), b.drop_last(), jx, jy);
        lemma_count_true_row_le(a.last(), b.last());
    }
}

/// Shape and contents of a chomped board, cell by cell.
pub proof fn lemma_chomp_shape(g: Seq<Seq<bool>>, x: int, y: int)
    ensures
        chomp_spec(g, x, y).len() == g.len(),
        forall|r: int| 0 <= r < g.len() ==> (#[trigger] chomp_spec(g, x, y)[r]).len()
            == g[r].len(),
        forall|r: int, c: int|
            0 <= r < g.len() && 0 <= c < g[r].len() ==> #[trigger] chomp_spec(g, x, y)[r][c] == (
            if in_chomp_region(x, y, c, r) {
                false
            } else {
                g[r][c]
            }),
{
}

/// A chomp never grows the board's playable-cell count.
pub proof fn lemma_chomp_count_le(g: Seq<Seq<bool>>, x: int, y: int)
    ensures
        count_true(chomp_spec(g, x, y)) <= count_true(g),
{
    lemma_chomp_shape(g, x, y);
    lemma_count_true_le(chomp_spec(g, x, y), g);
}

/// A chomp on a playable candidate strictly shrinks the playable-cell
/// count: the candidate itself is removed.
pub proof fn lemma_chomp_count_decreases(g: Seq<Seq<bool>>, x: int, y: int)
    requires
        candidate(g, x, y),
    ensures
        count_true(chomp_spec(g, x, y)) < count_true(g),
{
    lemma_chomp_shape(g, x, y);
    lemma_count_true_lt(chomp_spec(g, x, y), g, x, y);
}

/// How the machine player picked its move: by the exhaustive search, or
/// by the greedy fallback.
#[derive(Clone, Copy, PartialEq, Eq, Structural, Debug)]
pub enum MoveKind {
    Forced,
    Heuristic,
}

/// What the machine player did on its turn: played `(x, y)`, or found no
/// move and conceded.
#[derive(Clone, Copy, PartialEq, Eq, Structural, Debug)]
pub enum ChompOutcome {
    Moved(usize, usize, MoveKind),
    Defeated,
}

/// A Chomp position: a boolean board whose `true` cells are still
/// playable, together with the game's moves and searches.
pub struct ChompGame {
    pub board: Board<bool>,
}

impl View for ChompGame {
    type V = Seq<Seq<bool>>;

    open spec fn view(&self) -> Seq<Seq<bool>> {
        self.board@
    }
}

impl Clone for ChompGame {
    /// A deep copy of the position; the search mutates copies freely
    /// without touching the position it explores from.
    fn clone(&self) -> (c: Self)
        ensures
            c@ == self@,
            c.board.width == self.board.width,
            c.board.height == self.board.height,
    {
        ChompGame { board: self.board.clone() }
    }
}

impl ChompGame {
    /// The grid is rectangular, has at least one cell, and its cell count
    /// fits the machine.
    pub open spec fn wf(&self) -> bool {
        &&& self.board.wf()
        &&& self.board.width > 0
        &&& self.board.height > 0
        &&& self.board.width * self.board.height <= usize::MAX
    }

    /// A fresh position: every cell still playable.
    pub fn new(width: usize, height: usize) -> (g: ChompGame)
        requires
            0 < width,
            0 < height,
            width * height <= usize::MAX,
        ensures
            g.wf(),
            g.board.width == width,
            g.board.height == height,
            forall|y: int, x: int| 0 <= y < height && 0 <= x < width ==> #[trigger] g@[y][x],
    {
        ChompGame { board: Board::filled(width, height, true) }
    }

    /// The flag at `(x, y)`, or `None` out of bounds.
    pub fn cell(&self, x: usize, y: usize) -> (r: Option<bool>)
        requires
            self.wf(),
        ensures
            self.board.in_bounds(x as int, y as int) ==> r == Some(self@[y as int][x as int]),
            !self.board.in_bounds(x as int, y as int) ==> r is None,
    {
        match self.board.get(x, y) {
            Some(b) => Some(*b),
            None => None,
        }
    }

    /// A chomp at `(x, y)`: rejected out of bounds with the board
    /// untouched; otherwise every cell of the L-shaped region — column
    /// `x` from row `y` down, and row `y` from column `x` right — is
    /// removed, played or not.
    pub fn chomp(&mut self, x: usize, y: usize) -> (ok: bool)
        requires
            old(self).wf(),
        ensures
            final(self).wf(),
            final(self).board.width == old(self).board.width,
            final(self).board.height == old(self).board.height,
            !old(self).board.in_bounds(x as int, y as int) ==> !ok && final(self)@ == old(self)@,
            old(self).board.in_bounds(x as int, y as int) ==> ok && final(self)@ == chomp_spec(
                old(self)@,
                x as int,
                y as int,
            ),
    {
        if x >= self.board.width || y >= self.board.height {
            return false;
        }
        let ghost g0 = self@;
        let width = self.board.width;
        let height = self.board.height;
        let mut r: usize = y;
        while r < height
            invariant
                self.wf(),
                self.board.width == width,
                self.board.height == height,
                x < width,
                y <= r <= height,
                g0.len() == height,
                forall|i: int| 0 <= i < height ==> (#[trigger] g0[i]).len() == width,
                forall|ry: int, cx: int|
                    0 <= ry < height && 0 <= cx < width ==> #[trigger] self@[ry][cx] == (if cx == x
                        && y <= ry < r {
                        false
                    } else {
                        g0[ry][cx]
                    }),
            decreases height - r,
        {
            let ghost prev = self@;
            self.board.set(x, r, false);
            proof {
                assert forall|ry: int, cx: int|
                    0 <= ry < height && 0 <= cx < width implies #[trigger] self@[ry][cx] == (if cx
                    == x && y <= ry < r + 1 {
                    false
                } else {
                    g0[ry][cx]
                }) by {
                    assert(prev[ry][cx] == (if cx == x && y <= ry < r {
                        false
                    } else {
                        g0[ry][cx]
                    }));
                }
            }
            r = r + 1;
        }
        let mut c: usize = x;
        while c < width
            invariant
                self.wf(),
                self.board.width == width,
                self.board.height == height,
                x <= c <= width,
                y < height,
                g0.len() == height,
                forall|i: int| 0 <= i < height ==> (#[trigger] g0[i]).len() == width,
                forall|ry: int, cx: int|
                    0 <= ry < height && 0 <= cx < width ==> #[trigger] self@[ry][cx] == (if (cx == x
                        && ry >= y) || (ry == y && x <= cx < c) {
                        false
                    } else {
                        g0[ry][cx]
                    }),
            decreases width - c,
        {
            let ghost prev = self@;
            self.board.set(c, y, false);
            proof {
                assert forall|ry: int, cx: int|
                    0 <= ry < height && 0 <= cx < width implies #[trigger] self@[ry][cx] == (if (cx
                    == x && ry >= y) || (ry == y && x <= cx < c + 1) {
                    false
                } else {
                    g0[ry][cx]
                }) by {
                    assert(prev[ry][cx] == (if (cx == x && ry >= y) || (ry == y && x <= cx < c) {
                        false
                    } else {
                        g0[ry][cx]
                    }));
                }
            }
            c = c + 1;
        }
        proof {
            lemma_chomp_shape(g0, x as int, y as int);
            assert forall|ry: int| 0 <= ry < height implies #[trigger] self@[ry] =~= chomp_spec(
                g0,
                x as int,
                y as int,
            )[ry] by {
                assert(forall|cx: int|
                    0 <= cx < width ==> #[trigger] self@[ry][cx] == chomp_spec(
                        g0,
                        x as int,
                        y as int,
                    )[ry][cx]);
            }
            assert(self@ =~= chomp_spec(g0, x as int, y as int));
        }
        true
    }

    /// Whether the position is lost for the player to move, as this game
    /// reports it: every cell but the origin is gone, and the answer
    /// reported is the flag still stored at the origin.
    pub fn is_lost(&self) -> (l: bool)
        requires
            self.wf(),
        ensures
            l == lost_spec(self@),
    {
        let mut y: usize = 0;
        while y < self.board.height
            invariant
                self.wf(),
                y <= self.board.height,
                forall|cy: int, cx: int|
                    0 <= cy < y && 0 <= cx < self.board.width && !(cx == 0 && cy == 0) ==> !(
                    #[trigger] self@[cy][cx]),
            decreases self.board.height - y,
        {
            let mut x: usize = 0;
            while x < self.board.width
                invariant
                    self.wf(),
                    y < self.board.height,
                    x <= self.board.width,
                    forall|cy: int, cx: int|
                        0 <= cy < y && 0 <= cx < self.board.width && !(cx == 0 && cy == 0) ==> !(
                        #[trigger] self@[cy][cx]),
                    forall|cx: int|
                        0 <= cx < x && !(cx == 0 && y == 0) ==> !(#[trigger] self@[y as int][cx]),
                decreases self.board.width - x,
            {
                if !(x == 0 && y == 0) {
                    let playable = *self.board.get(x, y).unwrap();
                    if playable {
                        return false;
                    }
                }
                x = x + 1;
            }
            y = y + 1;
        }
        *self.board.get(0, 0).unwrap()
    }

    /// Counts the playable cells of the position.
    pub fn count_playable(&self) -> (n: usize)
        requires
            self.wf(),
        ensures
            n == count_true(self@),
    {
        let width = self.board.width;
        let height = self.board.height;
        let mut n: usize = 0;
        let mut y: usize = 0;
        while y < height
            invariant
                self.wf(),
                self.board.width == width,
                self.board.height == height,
                y <= height,
                n == count_true(self@.subrange(0, y as int)),
                n <= y * width,
            decreases height - y,
        {
            let mut x: usize = 0;
            while x < width
                invariant
                    self.wf(),
                    self.board.width == width,
                    self.board.height == height,
                    y < height,
                    x <= width,
                    n == count_true(self@.subrange(0, y as int)) + count_true_row(
                        self@[y as int].subrange(0, x as int),
                    ),
                    n <= y * width + x,
                decreases width - x,
            {
                let playable = *self.board.get(x, y).unwrap();
                proof {
                    let row = self@[y as int];
                    assert(row.subrange(0, x + 1) =~= row.subrange(0, x as int).push(
                        row[x as int],
                    ));
                    lemma_count_true_row_push(row.subrange(0, x as int), row[x as int]);
                    assert(y * width + x + 1 <= height * width) by (nonlinear_arith)
                        requires
                            (y as int) < height,
                            (x as int) < width,
                    ;
                    assert(height * width == width * height) by (nonlinear_arith);
                }
                if playable {
                    n = n + 1;
                }
                x = x + 1;
            }
            proof {
                assert(self@[y as int].subrange(0, width as int) =~= self@[y as int]);
                assert(self@.subrange(0, y + 1) =~= self@.subrange(0, y as int).push(
                    self@[y as int],
                ));
                lemma_count_true_push(self@.subrange(0, y as int), self@[y as int]);
                assert((y + 1) * width == y * width + width) by (nonlinear_arith);
            }
            y = y + 1;
        }
        proof {
            assert(self@.subrange(0, height as int) =~= self@);
        }
        n
    }

    /// The greedy fallback move: among all playable cells, the first in
    /// row-major order whose chomp would remove the fewest playable
    /// cells. `None` exactly when no playable cell remains.
    pub fn find_smallest_chomp(&self) -> (r: Option<(usize, usize)>)
        requires
            self.wf(),
        ensures
            r is Some <==> has_playable(self@),
            r matches Some(m) ==> is_first_min_chomp(self@, m.0 as int, m.1 as int),
    {
        let width = self.board.width;
        let height = self.board.height;
        let total = self.count_playable();
        let mut best: Option<(usize, usize)> = None;
        let mut best_cnt: usize = 0;
        let mut y: usize = 0;
        while y < height
            invariant
                self.wf(),
                self.board.width == width,
                self.board.height == height,
                y <= height,
                total == count_true(self@),
                best is None ==> forall|cy: int, cx: int|
                    0 <= cy < y && 0 <= cx < width ==> !(#[trigger] self@[cy][cx]),
                best matches Some(m) ==> {
                    &&& m.0 < width
                    &&& m.1 < y
                    &&& self@[m.1 as int][m.0 as int]
                    &&& best_cnt == removal_count(self@, m.0 as int, m.1 as int)
                    &&& forall|cy: int, cx: int|
                        0 <= cy < y && 0 <= cx < width && #[trigger] self@[cy][cx]
                            ==> removal_count(self@, cx, cy) >= best_cnt
                    &&& forall|cy: int, cx: int|
                        0 <= cy < y && 0 <= cx < width && #[trigger] self@[cy][cx]
                            && row_major_before(cx, cy, m.0 as int, m.1 as int) ==> removal_count(
                            self@,
                            cx,
                            cy,
                        ) > best_cnt
                },
            decreases height - y,
        {
            let mut x: usize = 0;
            while x < width
                invariant
                    self.wf(),
                    self.board.width == width,
                    self.board.height == height,
                    y < height,
                    x <= width,
                    total == count_true(self@),
                    best is None ==> forall|cy: int, cx: int|
                        0 <= cy < height && 0 <= cx < width && (cy < y || (cy == y && cx < x))
                            ==> !(#[trigger] self@[cy][cx]),
                    best matches Some(m) ==> {
                        &&& m.0 < width
                        &&& (m.1 < y || (m.1 == y && m.0 < x))
                        &&& m.1 < height
                        &&& self@[m.1 as int][m.0 as int]
                        &&& best_cnt == removal_count(self@, m.0 as int, m.1 as int)
                        &&& forall|cy: int, cx: int|
                            0 <= cy < height && 0 <= cx < width && (cy < y || (cy == y && cx < x))
                                && #[trigger] self@[cy][cx] ==> removal_count(self@, cx, cy)
                                >= best_cnt
                        &&& forall|cy: int, cx: int|
                            0 <= cy < height && 0 <= cx < width && #[trigger] self@[cy][cx]
                                && row_major_before(cx, cy, m.0 as int, m.1 as int)
                                ==> removal_count(self@, cx, cy) > best_cnt
                    },
                decreases width - x,
            {
                let playable = *self.board.get(x, y).unwrap();
                if playable {
                    let mut trial = self.clone();
                    trial.chomp(x, y);
                    let after = trial.count_playable();
                    proof {
                        lemma_chomp_count_le(self@, x as int, y as int);
                    }
                    let cnt: usize = total - after;
                    let replace = match best {
                        Option::None => true,
                        Option::Some(_) => cnt < best_cnt,
                    };
                    if replace {
                        best = Some((x, y));
                        best_cnt = cnt;
                    }
                }
                x = x + 1;
            }
            y = y + 1;
        }
        proof {
            if best is None {
                assert(forall|cy: int, cx: int|
                    0 <= cy < self@.len() && 0 <= cx < self@[cy].len() ==> !(
                    #[trigger] self@[cy][cx]));
            }
        }
        best
    }

    /// Exhaustive search for a forced win. From a lost position there is
    /// none. Otherwise candidates are tried in row-major order: the
    /// position is cloned, the candidate chomped, and the opponent asked
    /// the same question; the first candidate that leaves the opponent
    /// without a winning move is returned. `None` exactly when the
    /// player to move has no forced win.
    pub fn winning_move(&self) -> (r: Option<(usize, usize)>)
        requires
            self.wf(),
        ensures
            r is Some <==> wins(self@),
            r matches Some(m) ==> is_first_winning_move(self@, m.0 as int, m.1 as int),
        decreases count_true(self@),
    {
        if self.is_lost() {
            return None;
        }
        let width = self.board.width;
        let height = self.board.height;
        let mut y: usize = 0;
        while y < height
            invariant
                self.wf(),
                self.board.width == width,
                self.board.height == height,
                y <= height,
                !lost_spec(self@),
                forall|cx: int, cy: int|
                    #[trigger] candidate(self@, cx, cy) && cy < y ==> wins(
                        chomp_spec(self@, cx, cy),
                    ),
            decreases height - y,
        {
            let mut x: usize = 0;
            while x < width
                invariant
                    self.wf(),
                    self.board.width == width,
                    self.board.height == height,
                    y < height,
                    x <= width,
                    !lost_spec(self@),
                    forall|cx: int, cy: int|
                        #[trigger] candidate(self@, cx, cy) && cy < y ==> wins(
                            chomp_spec(self@, cx, cy),
                        ),
                    forall|cx: int|
                        #[trigger] candidate(self@, cx, y as int) && cx < x ==> wins(
                            chomp_spec(self@, cx, y as int),
                        ),
                decreases width - x,
            {
                if !(x == 0 && y == 0) {
                    let playable = *self.board.get(x, y).unwrap();
                    if playable {
                        proof {
                            lemma_chomp_count_decreases(self@, x as int, y as int);
                        }
                        let mut trial = self.clone();
                        trial.chomp(x, y);
                        let opponent = trial.winning_move();
                        if opponent.is_none() {
                            proof {
                                assert(candidate(self@, x as int, y as int));
                                assert(!wins(chomp_spec(self@, x as int, y as int)));
                                assert(wins(self@));
                            }
                            return Some((x, y));
                        }
                    }
                }
                x = x + 1;
            }
            y = y + 1;
        }
        proof {
            assert(!wins(self@)) by {
                if wins(self@) {
                    let (cx, cy): (int, int) = choose|cx: int, cy: int|
                        #[trigger] candidate(self@, cx, cy) && !wins(chomp_spec(self@, cx, cy));
                    assert(candidate(self@, cx, cy));
                    assert(wins(chomp_spec(self@, cx, cy)));
                }
            }
        }
        None
    }

    /// The machine player's whole turn. It plays the first forced
    /// winning move when one exists; from a lost position it concedes
    /// without moving; otherwise it plays the greedy fallback move, and
    /// concedes only when no playable cell is left.
    pub fn ai_move(&mut self) -> (r: ChompOutcome)
        requires
            old(self).wf(),
        ensures
            final(self).wf(),
            final(self).board.width == old(self).board.width,
            final(self).board.height == old(self).board.height,
            wins(old(self)@) ==> (r matches ChompOutcome::Moved(x, y, k) && k == MoveKind::Forced
                && is_first_winning_move(old(self)@, x as int, y as int) && final(self)@
                == chomp_spec(old(self)@, x as int, y as int)),
            !wins(old(self)@) && lost_spec(old(self)@) ==> r == ChompOutcome::Defeated
                && final(self)@ == old(self)@,
            !wins(old(self)@) && !lost_spec(old(self)@) && has_playable(old(self)@) ==> (r matches
                ChompOutcome::Moved(x, y, k) && k == MoveKind::Heuristic && is_first_min_chomp(
                old(self)@,
                x as int,
                y as int,
            ) && final(self)@ == chomp_spec(old(self)@, x as int, y as int)),
            !wins(old(self)@) && !lost_spec(old(self)@) && !has_playable(old(self)@) ==> r
                == ChompOutcome::Defeated && final(self)@ == old(self)@,
    {
        match self.winning_move() {
            Some(m) => {
                self.chomp(m.0, m.1);
                return ChompOutcome::Moved(m.0, m.1, MoveKind::Forced);
            },
            None => {},
        }
        if self.is_lost() {
            return ChompOutcome::Defeated;
        }
        match self.find_smallest_chomp() {
            Some(m) => {
                self.chomp(m.0, m.1);
                ChompOutcome::Moved(m.0, m.1, MoveKind::Heuristic)
            },
            None => ChompOutcome::Defeated,
        }
    }
}

/// A chomp at the origin leaves a position that is never reported lost:
/// the origin itself is gone, so the reported flag is `false`. On a
/// board a single row or a single column wide, that chomp removes every
/// cell.
pub proof fn lemma_chomp_origin(g: Seq<Seq<bool>>)
    requires
        g.len() > 0,
        forall|y: int| 0 <= y < g.len() ==> (#[trigger] g[y]).len() == g[0].len(),
        g[0].len() > 0,
    ensures
        !lost_spec(chomp_spec(g, 0, 0)),
        g.len() == 1 || g[0].len() == 1 ==> forall|y: int, x: int|
            0 <= y < g.len() && 0 <= x < g[y].len() ==> !(#[trigger] chomp_spec(g, 0, 0)[y][x]),
{
    lemma_chomp_shape(g, 0, 0);
    assert(!chomp_spec(g, 0, 0)[0][0]);
}

/// When the origin is the only playable cell left, the position is
/// reported lost and the player to move has no forced win: the machine
/// player concedes from it.
pub proof fn lemma_origin_only_is_lost(g: Seq<Seq<bool>>)
    requires
        g.len() > 0,
        g[0].len() > 0,
        g[0][0],
        forall|y: int, x: int|
            0 <= y < g.len() && 0 <= x < g[y].len() && !(x == 0 && y == 0) ==> !(
            #[trigger] g[y][x]),
    ensures
        lost_spec(g),
        !wins(g),
{
}

} // verus!
