//! The occupancy grid of a planar cross-section of the workspace.

use vstd::prelude::*;

verus! {

/// Some cell of `cells` has column `x` and row `y`.
pub open spec fn hits_cell(cells: Seq<(usize, usize)>, x: int, y: int) -> bool {
    exists|k: int| 0 <= k < cells.len() && #[trigger] cells[k].0 == x && cells[k].1 == y
}

/// `grid` is a `grid_size` by `grid_size` table, indexed by row then column,
/// in which exactly the cells hit by some `(column, row)` of `cells` are set.
pub open spec fn is_occupancy_grid(grid: Seq<Seq<bool>>, grid_size: nat, cells: Seq<(usize, usize)>) -> bool {
    &&& grid.len() == grid_size
    &&& forall|y: int| 0 <= y < grid_size ==> (#[trigger] grid[y]).len() == grid_size
    &&& forall|y: int, x: int|
        0 <= y < grid_size && 0 <= x < grid_size ==> (#[trigger] grid[y][x] <==> hits_cell(cells, x, y))
}

/// A `grid_size` by `grid_size` table of `false`.
fn empty_grid(grid_size: usize) -> (grid: Vec<Vec<bool>>)
    ensures
        grid.len() == grid_size,
        forall|y: int| 0 <= y < grid_size ==> (#[trigger] grid@[y])@.len() == grid_size,
        forall|y: int, x: int| 0 <= y < grid_size && 0 <= x < grid_size ==> !(#[trigger] grid@[y]@[x]),
{
    let mut grid: Vec<Vec<bool>> = Vec::new();
    let mut y: usize = 0;
    while y < grid_size
        invariant
            y <= grid_size,
            grid@.len() == y,
            forall|r: int| 0 <= r < y ==> (#[trigger] grid@[r])@.len() == grid_size,
            forall|r: int, x: int| 0 <= r < y && 0 <= x < grid_size ==> !(#[trigger] grid@[r]@[x]),
        decreases grid_size - y,
    {
        let mut row: Vec<bool> = Vec::new();
        let mut x: usize = 0;
        while x < grid_size
            invariant
                x <= grid_size,
                row@.len() == x,
                forall|c: int| 0 <= c < x ==> !(#[trigger] row@[c]),
            decreases grid_size - x,
        {
            row.push(false);
            x += 1;
        }
        grid.push(row);
        y += 1;
    }
    grid
}

/// Marks the grid cells that the points of a cross-section fall into.
///
/// `cells` holds, for each point, its `(column, row)`; a point outside the
/// `grid_size` by `grid_size` grid marks nothing.
pub fn occupancy_grid(grid_size: usize, cells: &[(usize, usize)]) -> (grid: Vec<Vec<bool>>)
    ensures
        is_occupancy_grid(grid.deep_view(), grid_size as nat, cells@),
        grid.deep_view().len() == grid_size,
        forall|y: int| 0 <= y < grid_size ==> (#[trigger] grid.deep_view()[y]).len() == grid_size,
        forall|k: int|
            0 <= k < cells@.len() && cells@[k].0 < grid_size && cells@[k].1 < grid_size
                ==> grid.deep_view()[#[trigger] cells@[k].1 as int][cells@[k].0 as int],
        forall|y: int, x: int|
            0 <= y < grid_size && 0 <= x < grid_size && #[trigger] grid.deep_view()[y][x] ==> exists|k: int|
                0 <= k < cells@.len() && #[trigger] cells@[k] == (x as usize, y as usize),
{
    let mut grid = empty_grid(grid_size);
    let mut k: usize = 0;
    while k < cells.len()
        invariant
            k <= cells@.len(),
            grid@.len() == grid_size,
            forall|y: int| 0 <= y < grid_size ==> (#[trigger] grid@[y])@.len() == grid_size,
            forall|y: int, x: int|
                0 <= y < grid_size && 0 <= x < grid_size ==> (#[trigger] grid@[y]@[x] <==> hits_cell(
                    cells@.take(k as int),
                    x,
                    y,
                )),
        decreases cells@.len() - k,
    {
        let (gx, gy) = cells[k];
        let ghost before = grid@;
        if gx < grid_size && gy < grid_size {
            grid[gy][gx] = true;
        }
        proof {
            let t0 = cells@.take(k as int);
            let t1 = cells@.take(k + 1);
            assert forall|y: int, x: int|
                0 <= y < grid_size && 0 <= x < grid_size implies (#[trigger] grid@[y]@[x] <==> hits_cell(t1, x, y)) by {
                if hits_cell(t0, x, y) {
                    let j = choose|j: int| 0 <= j < t0.len() && #[trigger] t0[j].0 == x && t0[j].1 == y;
                    assert(t1[j] == t0[j]);
                }
                if hits_cell(t1, x, y) {
                    let j = choose|j: int| 0 <= j < t1.len() && #[trigger] t1[j].0 == x && t1[j].1 == y;
                    if j < k {
                        assert(t0[j] == t1[j]);
                    }
                }
                if x == gx && y == gy {
                    assert(t1[k as int].0 == x && t1[k as int].1 == y);
                }
            }
        }
        k += 1;
    }
    proof {
        assert(cells@.take(cells@.len() as int) =~= cells@);
        let g = grid.deep_view();
        assert forall|y: int| 0 <= y < grid_size implies (#[trigger] g[y]).len() == grid_size by {
            assert(g[y] == grid@[y]@);
        }
        assert forall|y: int, x: int|
            0 <= y < grid_size && 0 <= x < grid_size implies (#[trigger] g[y][x] <==> hits_cell(cells@, x, y)) by {
            assert(g[y] == grid@[y]@);
        }
        lemma_occupancy_grid_cells(g, grid_size as nat, cells@);
    }
    grid
}

/// What an occupancy grid shows, cell by cell: every point that falls in the
/// grid sets the cell in its row (second component) and column (first
/// component), and a set cell always has a point that falls into it, with
/// that column and row.
pub proof fn lemma_occupancy_grid_cells(grid: Seq<Seq<bool>>, grid_size: nat, cells: Seq<(usize, usize)>)
    requires
        is_occupancy_grid(grid, grid_size, cells),
    ensures
        grid.len() == grid_size,
        forall|y: int| 0 <= y < grid_size ==> (#[trigger] grid[y]).len() == grid_size,
        forall|k: int|
            0 <= k < cells.len() && cells[k].0 < grid_size && cells[k].1 < grid_size
                ==> grid[#[trigger] cells[k].1 as int][cells[k].0 as int],
        forall|y: int, x: int|
            0 <= y < grid_size && 0 <= x < grid_size && #[trigger] grid[y][x] ==> exists|k: int|
                0 <= k < cells.len() && #[trigger] cells[k] == (x as usize, y as usize),
{
    assert forall|k: int|
        0 <= k < cells.len() && cells[k].0 < grid_size && cells[k].1 < grid_size implies grid[#[trigger] cells[k].1 as int][cells[k].0 as int] by {
        assert(hits_cell(cells, cells[k].0 as int, cells[k].1 as int));
    }
    assert forall|y: int, x: int|
        0 <= y < grid_size && 0 <= x < grid_size && #[trigger] grid[y][x] implies exists|k: int|
            0 <= k < cells.len() && #[trigger] cells[k] == (x as usize, y as usize) by {
        let k = choose|k: int| 0 <= k < cells.len() && #[trigger] cells[k].0 == x && cells[k].1 == y;
        assert(cells[k] == (x as usize, y as usize));
    }
}

/// Adding points never clears a cell: the grid of a set of points is
/// contained in the grid of any set of points that includes them.
pub proof fn lemma_occupancy_grid_monotone(
    small: Seq<Seq<bool>>,
    large: Seq<Seq<bool>>,
    grid_size: nat,
    some: Seq<(usize, usize)>,
    more: Seq<(usize, usize)>,
)
    requires
        is_occupancy_grid(small, grid_size, some),
        is_occupancy_grid(large, grid_size, more),
        forall|k: int| 0 <= k < some.len() ==> more.contains(#[trigger] some[k]),
    ensures
        forall|y: int, x: int| 0 <= y < grid_size && 0 <= x < grid_size && #[trigger] small[y][x] ==> large[y][x],
{
    lemma_occupancy_grid_cells(small, grid_size, some);
    lemma_occupancy_grid_cells(large, grid_size, more);
    assert forall|y: int, x: int| 0 <= y < grid_size && 0 <= x < grid_size && #[trigger] small[y][x] implies large[y][x] by {
        let k = choose|k: int| 0 <= k < some.len() && #[trigger] some[k] == (x as usize, y as usize);
        assert(more.contains(some[k]));
        let j = choose|j: int| 0 <= j < more.len() && more[j] == some[k];
        assert(more[j].0 == x && more[j].1 == y);
    }
}

} // verus!
