//! A generic rectangular board, addressed by `(x, y)` coordinates.

use vstd::prelude::*;

verus! {

/// A rectangular container of cells: `height` rows of `width` cells each,
/// addressed by `(x, y)` with `x` the column and `y` the row. Access is
/// bounds-checked: `get` returns `None` and `set` leaves the board
/// unchanged outside `[0, width) x [0, height)`.
pub struct Board<T> {
    pub cells: Vec<Vec<T>>,
    pub width: usize,
    pub height: usize,
}

impl<T> View for Board<T> {
    type V = Seq<Seq<T>>;

    open spec fn view(&self) -> Seq<Seq<T>> {
        self.cells@.map_values(|row: Vec<T>| row@)
    }
}

impl<T> Board<T> {
    /// The stored rows agree with the declared dimensions.
    pub open spec fn wf(&self) -> bool {
        &&& self@.len() == self.height
        &&& forall|y: int| 0 <= y < self.height ==> (#[trigger] self@[y]).len() == self.width
    }

    /// `(x, y)` addresses a cell of this board.
    pub open spec fn in_bounds(&self, x: int, y: int) -> bool {
        0 <= x < self.width && 0 <= y < self.height
    }

    /// The cell at `(x, y)`, or `None` when `(x, y)` is out of bounds.
    pub fn get(&self, x: usize, y: usize) -> (r: Option<&T>)
        requires
            self.wf(),
        ensures
            self.in_bounds(x as int, y as int) ==> (r matches Some(c) && *c == self@[y as int][x
                as int]),
            !self.in_bounds(x as int, y as int) ==> r is None,
    {
        if x < self.width && y < self.height {
            proof {
                assert(self@[y as int] == self.cells@[y as int]@);
            }
            Some(&self.cells[y][x])
        } else {
            None
        }
    }

    /// Replaces the cell at `(x, y)`; out of bounds, the board is unchanged.
    pub fn set(&mut self, x: usize, y: usize, value: T)
        requires
            old(self).wf(),
        ensures
            final(self).wf(),
            final(self).width == old(self).width,
            final(self).height == old(self).height,
            old(self).in_bounds(x as int, y as int) ==> final(self)@ == old(self)@.update(
                y as int,
                old(self)@[y as int].update(x as int, value),
            ),
            !old(self).in_bounds(x as int, y as int) ==> final(self)@ == old(self)@,
    {
        if x < self.width && y < self.height {
            proof {
                assert(self@[y as int] == self.cells@[y as int]@);
            }
            self.cells[y][x] = value;
            proof {
                assert(self@ =~= old(self)@.update(
                    y as int,
                    old(self)@[y as int].update(x as int, value),
                ));
            }
        }
    }
}

impl<T: Copy> Board<T> {
    /// A `width` by `height` board with every cell equal to `value`.
    pub fn filled(width: usize, height: usize, value: T) -> (b: Board<T>)
        ensures
            b.wf(),
            b.width == width,
            b.height == height,
            forall|y: int, x: int|
                0 <= y < height && 0 <= x < width ==> #[trigger] b@[y][x] == value,
    {
        let mut cells: Vec<Vec<T>> = Vec::new();
        let mut y: usize = 0;
        while y < height
            invariant
                y <= height,
                cells@.len() == y,
                forall|r: int| 0 <= r < y ==> (#[trigger] cells@[r])@.len() == width,
                forall|r: int, c: int|
                    0 <= r < y && 0 <= c < width ==> #[trigger] cells@[r]@[c] == value,
            decreases height - y,
        {
            let mut row: Vec<T> = Vec::new();
            let mut x: usize = 0;
            while x < width
                invariant
                    x <= width,
                    row@.len() == x,
                    forall|c: int| 0 <= c < x ==> #[trigger] row@[c] == value,
                decreases width - x,
            {
                row.push(value);
                x = x + 1;
            }
            cells.push(row);
            y = y + 1;
        }
        Board { cells, width, height }
    }
}

impl<T: Copy + Default> Board<T> {
    /// A `width` by `height` board with every cell set to `T`'s default.
    pub fn new(width: usize, height: usize) -> (b: Board<T>)
        ensures
            b.wf(),
            b.width == width,
            b.height == height,
            forall|y: int, x: int|
                0 <= y < height && 0 <= x < width ==> call_ensures(
                    T::default,
                    (),
                    #[trigger] b@[y][x],
                ),
    {
        let d = T::default();
        Board::filled(width, height, d)
    }
}

impl<T: Copy> Clone for Board<T> {
    /// A deep copy: the clone has the same dimensions and cell contents,
    /// and owns its cells, so mutating it never changes the source.
    fn clone(&self) -> (b: Self)
        ensures
            b@ == self@,
            b.width == self.width,
            b.height == self.height,
    {
        let mut cells: Vec<Vec<T>> = Vec::new();
        let mut y: usize = 0;
        while y < self.cells.len()
            invariant
                y <= self.cells@.len(),
                cells@.len() == y,
                forall|r: int| 0 <= r < y ==> (#[trigger] cells@[r])@ == self.cells@[r]@,
            decreases self.cells@.len() - y,
        {
            let src_row = &self.cells[y];
            let mut row: Vec<T> = Vec::new();
            let mut x: usize = 0;
            while x < src_row.len()
                invariant
                    x <= src_row@.len(),
                    row@.len() == x,
                    forall|c: int| 0 <= c < x ==> #[trigger] row@[c] == src_row@[c],
                decreases src_row@.len() - x,
            {
                row.push(src_row[x]);
                x = x + 1;
            }
            proof {
                assert(row@ =~= src_row@);
            }
            cells.push(row);
            y = y + 1;
        }
        let b = Board { cells, width: self.width, height: self.height };
        proof {
            assert(b@ =~= self@);
        }
        b
    }
}

} // verus!
