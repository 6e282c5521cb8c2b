use vstd::assert_seqs_equal;
use vstd::prelude::*;

verus! {

/// A rectangular playing field: `grid[y][x]` holds `0` (empty) or a positive
/// tile value. Row-major, `height` rows of `width` cells, never resized.
pub struct Board {
    width: usize,
    height: usize,
    pub grid: Vec<Vec<usize>>,
}

/// The grid `g` consists of exactly `h` rows of exactly `w` cells each.
pub open spec fn grid_wf(g: Seq<Seq<usize>>, w: int, h: int) -> bool {
    &&& g.len() == h
    &&& forall|y: int| 0 <= y < h ==> (#[trigger] g[y]).len() == w
}

/// Number of nonzero entries of a row.
pub open spec fn row_nonzero(row: Seq<usize>) -> int
    decreases row.len(),
{
    if row.len() == 0 {
        0
    } else {
        row_nonzero(row.drop_last()) + if row.last() != 0 {
            1int
        } else {
            0int
        }
    }
}

/// Number of nonzero cells of a grid.
pub open spec fn grid_nonzero(g: Seq<Seq<usize>>) -> int
    decreases g.len(),
{
    if g.len() == 0 {
        0
    } else {
        grid_nonzero(g.drop_last()) + row_nonzero(g.last())
    }
}

/// Sum of a row's entries.
pub open spec fn row_sum(row: Seq<usize>) -> int
    decreases row.len(),
{
    if row.len() == 0 {
        0
    } else {
        row_sum(row.drop_last()) + row.last()
    }
}

/// Sum of all cells of a grid.
pub open spec fn grid_sum(g: Seq<Seq<usize>>) -> int
    decreases g.len(),
{
    if g.len() == 0 {
        0
    } else {
        grid_sum(g.drop_last()) + row_sum(g.last())
    }
}

/// Writing one entry moves the row's nonzero count and sum by exactly the
/// change at that entry.
pub proof fn lemma_row_counts_update(row: Seq<usize>, x: int, v: usize)
    requires
        0 <= x < row.len(),
    ensures
        row_nonzero(row.update(x, v)) == row_nonzero(row) + (if v != 0 {
            1int
        } else {
            0int
        }) - (if row[x] != 0 {
            1int
        } else {
            0int
        }),
        row_sum(row.update(x, v)) == row_sum(row) + v - row[x],
    decreases row.len(),
{
    let r2 = row.update(x, v);
    if x == row.len() - 1 {
        assert(r2.drop_last() =~= row.drop_last());
        assert(r2.last() == v);
    } else {
        assert(r2.drop_last() =~= row.drop_last().update(x, v));
        lemma_row_counts_update(row.drop_last(), x, v);
        assert(r2.last() == row.last());
        assert(row.drop_last()[x] == row[x]);
    }
}

/// Replacing one row moves the grid's nonzero count and sum by exactly the
/// difference between the rows.
pub proof fn lemma_grid_counts_update(g: Seq<Seq<usize>>, y: int, r: Seq<usize>)
    requires
        0 <= y < g.len(),
    ensures
        grid_nonzero(g.update(y, r)) == grid_nonzero(g) - row_nonzero(g[y]) + row_nonzero(r),
        grid_sum(g.update(y, r)) == grid_sum(g) - row_sum(g[y]) + row_sum(r),
    decreases g.len(),
{
    let g2 = g.update(y, r);
    if y == g.len() - 1 {
        assert(g2.drop_last() =~= g.drop_last());
        assert(g2.last() == r);
    } else {
        assert(g2.drop_last() =~= g.drop_last().update(y, r));
        lemma_grid_counts_update(g.drop_last(), y, r);
        assert(g2.last() == g.last());
        assert(g.drop_last()[y] == g[y]);
    }
}

/// An all-zero row counts and sums to zero.
pub proof fn lemma_zero_row_counts(row: Seq<usize>)
    requires
        forall|x: int| 0 <= x < row.len() ==> row[x] == 0,
    ensures
        row_nonzero(row) == 0,
        row_sum(row) == 0,
    decreases row.len(),
{
    if row.len() > 0 {
        assert(row.last() == row[row.len() - 1]);
        assert forall|x: int| 0 <= x < row.drop_last().len() implies row.drop_last()[x] == 0 by {
            assert(row.drop_last()[x] == row[x]);
        }
        lemma_zero_row_counts(row.drop_last());
    }
}

/// An all-zero grid counts and sums to zero.
pub proof fn lemma_zero_grid_counts(g: Seq<Seq<usize>>)
    requires
        forall|x: int, y: int|
            0 <= y < g.len() && 0 <= x < g[y].len() ==> #[trigger] g[y][x] == 0,
    ensures
        grid_nonzero(g) == 0,
        grid_sum(g) == 0,
    decreases g.len(),
{
    if g.len() > 0 {
        assert(g.last() == g[g.len() - 1]);
        lemma_zero_row_counts(g.last());
        assert forall|x: int, y: int|
            0 <= y < g.drop_last().len() && 0 <= x < g.drop_last()[y].len()
                implies #[trigger] g.drop_last()[y][x] == 0 by {
            assert(g.drop_last()[y] == g[y]);
            assert(g[y][x] == 0);
        }
        lemma_zero_grid_counts(g.drop_last());
    }
}

impl View for Board {
    type V = Seq<Seq<usize>>;

    closed spec fn view(&self) -> Seq<Seq<usize>> {
        self.grid@.map_values(|row: Vec<usize>| row@)
    }
}

impl Board {
    pub closed spec fn spec_width(&self) -> usize {
        self.width
    }

    pub closed spec fn spec_height(&self) -> usize {
        self.height
    }

    /// Structural invariant: positive dimensions, and the rows match them.
    pub open spec fn wf(&self) -> bool {
        &&& 1 <= self.spec_width()
        &&& 1 <= self.spec_height()
        &&& grid_wf(self@, self.spec_width() as int, self.spec_height() as int)
    }

    /// The value held at column `x`, row `y`.
    pub open spec fn cell(&self, x: int, y: int) -> usize {
        self@[y][x]
    }

    /// A fresh board with every cell empty.
    pub fn new(width: usize, height: usize) -> (b: Board)
        requires
            1 <= width,
            1 <= height,
        ensures
            b.wf(),
            b.spec_width() == width,
            b.spec_height() == height,
            forall|x: int, y: int|
                0 <= x < width && 0 <= y < height ==> b.cell(x, y) == 0,
    {
        let mut grid: Vec<Vec<usize>> = Vec::new();
        let mut y: usize = 0;
        while y < height
            invariant
                y <= height,
                grid@.len() == y,
                forall|j: int| 0 <= j < y ==> (#[trigger] grid@[j])@.len() == width,
                forall|j: int, i: int|
                    0 <= j < y && 0 <= i < width ==> #[trigger] grid@[j]@[i] == 0,
            decreases height - y,
        {
            let mut row: Vec<usize> = Vec::new();
            let mut x: usize = 0;
            while x < width
                invariant
                    x <= width,
                    row@.len() == x,
                    forall|i: int| 0 <= i < x ==> row@[i] == 0,
                decreases width - x,
            {
                row.push(0);
                x = x + 1;
            }
            grid.push(row);
            y = y + 1;
        }
        let b = Board { width, height, grid };
        proof {
            assert(forall|j: int|
                0 <= j < height ==> b@[j] == (#[trigger] b.grid@[j])@);
        }
        b
    }

    pub fn width(&self) -> (w: usize)
        ensures
            w == self.spec_width(),
    {
        self.width
    }

    pub fn height(&self) -> (h: usize)
        ensures
            h == self.spec_height(),
    {
        self.height
    }

    /// Read one cell.
    pub fn get_cell(&self, x: usize, y: usize) -> (v: usize)
        requires
            self.wf(),
            x < self.spec_width(),
            y < self.spec_height(),
        ensures
            v == self.cell(x as int, y as int),
    {
        proof {
            assert(self.grid@.len() == self@.len());
            assert(self.grid@[y as int]@ == self@[y as int]);
        }
        self.grid[y][x]
    }

    /// Write one cell; every other cell and the dimensions stay as they were.
    pub fn set_cell(&mut self, x: usize, y: usize, v: usize)
        requires
            old(self).wf(),
            x < old(self).spec_width(),
            y < old(self).spec_height(),
        ensures
            final(self).wf(),
            final(self).spec_width() == old(self).spec_width(),
            final(self).spec_height() == old(self).spec_height(),
            final(self)@ == old(self)@.update(
                y as int,
                old(self)@[y as int].update(x as int, v),
            ),
            final(self).cell(x as int, y as int) == v,
            forall|i: int, j: int|
                0 <= i < old(self).spec_width() && 0 <= j < old(self).spec_height()
                    && !(i == x && j == y)
                    ==> final(self).cell(i, j) == old(self).cell(i, j),
    {
        proof {
            assert(self.grid@.len() == self@.len());
            assert(self.grid@[y as int]@ == self@[y as int]);
        }
        self.grid[y][x] = v;
        proof {
            assert_seqs_equal!(
                self@,
                old(self)@.update(y as int, old(self)@[y as int].update(x as int, v as usize))
            );
        }
    }
}

} // verus!
