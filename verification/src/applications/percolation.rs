use vstd::prelude::*;

use vstd::pervasive::VecAdditionalExecFns;

verus! {

/// The boolean cells of an executable grid.
pub open spec fn bool_rows(g: Seq<Vec<bool>>) -> Seq<Seq<bool>> {
    g.map_values(|r: Vec<bool>| r@)
}

/// How many cells of a row are still unmarked.
pub open spec fn row_false_count(r: Seq<bool>) -> int
    decreases r.len(),
{
    if r.len() == 0 {
        0
    } else {
        row_false_count(r.drop_last()) + (if r.last() {
            0int
        } else {
            1int
        })
    }
}

/// How many cells of a grid are still unmarked.
pub open spec fn grid_false_count(g: Seq<Seq<bool>>) -> int
    decreases g.len(),
{
    if g.len() == 0 {
        0
    } else {
        grid_false_count(g.drop_last()) + row_false_count(g.last())
    }
}

pub proof fn lemma_row_false_count_nonneg(r: Seq<bool>)
    ensures
        row_false_count(r) >= 0,
    decreases r.len(),
{
    if r.len() > 0 {
        lemma_row_false_count_nonneg(r.drop_last());
    }
}

pub proof fn lemma_grid_false_count_nonneg(g: Seq<Seq<bool>>)
    ensures
        grid_false_count(g) >= 0,
    decreases g.len(),
{
    if g.len() > 0 {
        lemma_grid_false_count_nonneg(g.drop_last());
        lemma_row_false_count_nonneg(g.last());
    }
}

/// Marking one unmarked cell lowers the row's count by one.
pub proof fn lemma_row_false_count_mark(r: Seq<bool>, c: int)
    requires
        0 <= c < r.len(),
        !r[c],
    ensures
        row_false_count(r.update(c, true)) == row_false_count(r) - 1,
    decreases r.len(),
{
    if c == r.len() - 1 {
        assert(r.update(c, true).drop_last() =~= r.drop_last());
    } else {
        assert(r.update(c, true).drop_last() =~= r.drop_last().update(c, true));
        lemma_row_false_count_mark(r.drop_last(), c);
    }
}

/// Replacing one row changes the grid's count by the rows' difference.
pub proof fn lemma_grid_false_count_update(g: Seq<Seq<bool>>, i: int, nr: Seq<bool>)
    requires
        0 <= i < g.len(),
    ensures
        grid_false_count(g.update(i, nr)) == grid_false_count(g) - row_false_count(g[i])
            + row_false_count(nr),
    decreases g.len(),
{
    if i == g.len() - 1 {
        assert(g.update(i, nr).drop_last() =~= g.drop_last());
    } else {
        assert(g.update(i, nr).drop_last() =~= g.drop_last().update(i, nr));
        lemma_grid_false_count_update(g.drop_last(), i, nr);
    }
}

/// Builds a square grid of unmarked cells.
fn blank_grid(size: usize) -> (r: Vec<Vec<bool>>)
    ensures
        r@.len() == size,
        forall|i: int| 0 <= i < size ==> (#[trigger] r@[i])@.len() == size,
        forall|i: int, j: int| 0 <= i < size && 0 <= j < size ==> !(#[trigger] (r@[i])@[j]),
{
    let mut grid: Vec<Vec<bool>> = Vec::new();
    let mut i: usize = 0;
    while i < size
        invariant
            0 <= i <= size,
            grid@.len() == i,
            forall|k: int| 0 <= k < i ==> (#[trigger] grid@[k])@.len() == size,
            forall|k: int, j: int| 0 <= k < i && 0 <= j < size ==> !(#[trigger] (grid@[k])@[j]),
        decreases size - i,
    {
        let mut row: Vec<bool> = Vec::new();
        let mut j: usize = 0;
        while j < size
            invariant
                0 <= j <= size,
                row@.len() == j,
                forall|k: int| 0 <= k < j ==> !(#[trigger] row@[k]),
            decreases size - j,
        {
            row.push(false);
            j = j + 1;
        }
        grid.push(row);
        i = i + 1;
    }
    grid
}

/// Marks one cell of a square grid, leaving every other cell as it was.
fn mark_cell(grid: &mut Vec<Vec<bool>>, row: usize, col: usize)
    requires
        (row as int) < old(grid)@.len(),
        (col as int) < (old(grid)@[row as int])@.len(),
    ensures
        final(grid)@.len() == old(grid)@.len(),
        forall|i: int|
            0 <= i < final(grid)@.len() && i != row ==> #[trigger] final(grid)@[i] == old(
                grid,
            )@[i],
        (final(grid)@[row as int])@ == (old(grid)@[row as int])@.update(col as int, true),
{
    let mut tmp: Vec<bool> = Vec::new();
    grid.set_and_swap(row, &mut tmp);
    tmp.set(col, true);
    grid.set_and_swap(row, &mut tmp);
}

/// A site-percolation grid: a square lattice of cells, each closed until it
/// is opened, asked whether an open path connects the top row to the bottom
/// row through side-adjacent open cells.
#[derive(Debug)]
pub struct Percolation {
    pub size: usize,
    pub grid: Vec<Vec<bool>>,
}

impl Percolation {
    /// The grid invariant: a square `size` by `size` lattice.
    pub open spec fn wf(&self) -> bool {
        &&& self.grid@.len() == self.size
        &&& forall|i: int|
            0 <= i < self.size ==> (#[trigger] self.grid@[i])@.len() == self.size
    }

    /// Whether the cell at `(row, col)` is open.
    pub open spec fn spec_open(&self, row: int, col: int) -> bool {
        (self.grid@[row])@[col]
    }

    /// Builds a lattice with every cell closed.
    pub fn new(size: usize) -> (r: Self)
        ensures
            r.wf(),
            r.size == size,
            forall|i: int, j: int| 0 <= i < size && 0 <= j < size ==> !r.spec_open(i, j),
    {
        Self { size, grid: blank_grid(size) }
    }

    /// Opens the cell at `(row, col)`; every other cell keeps its state.
    pub fn open(&mut self, row: usize, col: usize)
        requires
            old(self).wf(),
            (row as int) < old(self).size,
            (col as int) < old(self).size,
        ensures
            final(self).wf(),
            final(self).size == old(self).size,
            final(self).spec_open(row as int, col as int),
            forall|i: int, j: int|
                0 <= i < final(self).size && 0 <= j < final(self).size && !(i == row && j == col)
                    ==> final(self).spec_open(i, j) == old(self).spec_open(i, j),
    {
        mark_cell(&mut self.grid, row, col);
    }

    /// Whether the cell at `(row, col)` is open.
    pub fn is_open(&self, row: usize, col: usize) -> (r: bool)
        requires
            self.wf(),
            (row as int) < self.size,
            (col as int) < self.size,
        ensures
            r == self.spec_open(row as int, col as int),
    {
        self.grid[row][col]
    }

    /// Whether an open path connects the top row to the bottom row: runs a
    /// depth-first search from every top-row cell over a shared visited
    /// lattice. A positive answer guarantees an open cell in the top row and
    /// one in the bottom row.
    pub fn percolates(&self) -> (r: bool)
        requires
            self.wf(),
        ensures
            r ==> self.size >= 1 && (exists|c: int|
                0 <= c < self.size && #[trigger] self.spec_open(0, c)) && (exists|c: int|
                0 <= c < self.size && #[trigger] self.spec_open(self.size - 1, c)),
    {
        let mut visited = blank_grid(self.size);
        let mut col: usize = 0;
        let mut found = false;
        while col < self.size && !found
            invariant
                self.wf(),
                0 <= col <= self.size,
                visited@.len() == self.size,
                forall|i: int| 0 <= i < self.size ==> (#[trigger] visited@[i])@.len() == self.size,
                found ==> self.size >= 1 && (exists|c: int|
                    0 <= c < self.size && #[trigger] self.spec_open(0, c)) && (exists|c: int|
                    0 <= c < self.size && #[trigger] self.spec_open(self.size - 1, c)),
            decreases self.size - col,
        {
            if self.dfs(0, col, &mut visited) {
                found = true;
            }
            col = col + 1;
        }
        found
    }

    /// Depth-first search over open cells from `(row, col)`, marking every
    /// cell it reaches in `visited` (which only grows). Returns whether it
    /// reached the bottom row; a positive answer guarantees the start cell is
    /// open and in range and that some bottom-row cell is open.
    pub fn dfs(&self, row: usize, col: usize, visited: &mut Vec<Vec<bool>>) -> (r: bool)
        requires
            self.wf(),
            old(visited)@.len() == self.size,
            forall|i: int|
                0 <= i < self.size ==> (#[trigger] old(visited)@[i])@.len() == self.size,
        ensures
            final(visited)@.len() == self.size,
            forall|i: int|
                0 <= i < self.size ==> (#[trigger] final(visited)@[i])@.len() == self.size,
            forall|i: int, j: int|
                0 <= i < self.size && 0 <= j < self.size && (#[trigger] (old(
                    visited,
                )@[i])@[j]) ==> (final(visited)@[i])@[j],
            r ==> (row as int) < self.size && (col as int) < self.size && self.spec_open(
                row as int,
                col as int,
            ) && (exists|c: int| 0 <= c < self.size && #[trigger] self.spec_open(self.size - 1, c)),
    {
        let size = self.size;
        if row >= size || col >= size {
            return false;
        }
        if !self.is_open(row, col) {
            return false;
        }
        let ghost v0 = visited@;
        let mut stack: Vec<(usize, usize)> = Vec::new();
        stack.push((row, col));
        let mut found = false;
        while stack.len() > 0 && !found
            invariant
                self.wf(),
                size == self.size,
                visited@.len() == size,
                forall|i: int| 0 <= i < size ==> (#[trigger] visited@[i])@.len() == size,
                forall|i: int, j: int|
                    0 <= i < size && 0 <= j < size && (#[trigger] (v0[i])@[j]) ==> (
                    visited@[i])@[j],
                found ==> exists|c: int| 0 <= c < size && #[trigger] self.spec_open(size - 1, c),
            decreases grid_false_count(bool_rows(visited@)), stack@.len(),
        {
            proof {
                lemma_grid_false_count_nonneg(bool_rows(visited@));
            }
            let top = match stack.pop() {
                Some(p) => p,
                None => {
                    return vstd::pervasive::unreached();
                },
            };
            let r = top.0;
            let c = top.1;
            if r < size && c < size && !visited[r][c] && self.is_open(r, c) {
                let ghost vb = visited@;
                mark_cell(visited, r, c);
                proof {
                    let g = bool_rows(vb);
                    let nr = g[r as int].update(c as int, true);
                    assert(bool_rows(visited@) =~= g.update(r as int, nr));
                    lemma_row_false_count_mark(g[r as int], c as int);
                    lemma_grid_false_count_update(g, r as int, nr);
                    lemma_grid_false_count_nonneg(bool_rows(visited@));
                    assert(grid_false_count(bool_rows(visited@)) < grid_false_count(g));
                    assert forall|i: int, j: int|
                        0 <= i < size && 0 <= j < size && (#[trigger] (v0[i])@[j]) implies (
                    visited@[i])@[j] by {
                        if i != r {
                            assert(visited@[i] == vb[i]);
                        }
                    }
                }
                if r == size - 1 {
                    found = true;
                } else {
                    stack.push((r + 1, c));
                    stack.push((r, c + 1));
                    if c > 0 {
                        stack.push((r, c - 1));
                    }
                    if r > 0 {
                        stack.push((r - 1, c));
                    }
                }
            }
        }
        found
    }
}

} // verus!
