//! The samples of a light grid, brought into the order of a box of cells.
//!
//! A light grid is a box of cells, each with one sample of light. A level
//! stores the samples leaf by leaf: each leaf covers a box of cells, and
//! its samples follow each other along its first axis, then its second,
//! then its third. The box of all cells has the axes in another order: its
//! first axis is the second of the level, its second the third, and its
//! third the first.

use vstd::prelude::*;
use vstd::arithmetic::div_mod::lemma_fundamental_div_mod_converse;

verus! {

/// A sample of light.
#[derive(Clone, Copy, PartialEq, Eq, Structural, Debug)]
pub struct GridSample {
    pub red: u8,
    pub green: u8,
    pub blue: u8,
    /// Whether any light reaches the cell.
    pub used: bool,
}

/// A box of cells whose samples stand together.
#[derive(Clone, Copy, Debug)]
pub struct GridLeaf {
    /// The first cell of the box, along the axes of the level.
    pub mins: [u32; 3],
    /// The number of cells of the box along each axis of the level.
    pub size: [u32; 3],
    /// Where the samples of the box start.
    pub sample_start_idx: usize,
}

/// The sample of a cell that no leaf covers.
pub open spec fn no_sample() -> GridSample {
    GridSample { red: 0, green: 0, blue: 0, used: false }
}

/// The number of cells of a leaf.
pub open spec fn cell_count(leaf: GridLeaf) -> int {
    leaf.size[0] * leaf.size[1] * leaf.size[2]
}

/// The place in the box of all cells of the cell `(x, y, z)` of a leaf.
pub open spec fn cell_slot(grid: [u32; 3], leaf: GridLeaf, x: int, y: int, z: int) -> int {
    (leaf.mins[1] + y) + (leaf.mins[2] + z) * grid[1] + (leaf.mins[0] + x) * (grid[1] * grid[2])
}

/// The place in the box of all cells of cell number `c` of a leaf.
pub open spec fn numbered_slot(grid: [u32; 3], leaf: GridLeaf, c: int) -> int {
    cell_slot(
        grid,
        leaf,
        c % (leaf.size[0] as int),
        (c / (leaf.size[0] as int)) % (leaf.size[1] as int),
        c / (leaf.size[0] * leaf.size[1]),
    )
}

/// Whether every cell of the leaf has a place in the box of all cells and
/// a sample.
pub open spec fn leaf_fits(grid: [u32; 3], leaf: GridLeaf, sample_count: int) -> bool {
    &&& leaf.sample_start_idx + cell_count(leaf) <= sample_count
    &&& cell_count(leaf) > 0 ==> {
        &&& leaf.mins[0] + leaf.size[0] <= grid[0]
        &&& leaf.mins[1] + leaf.size[1] <= grid[1]
        &&& leaf.mins[2] + leaf.size[2] <= grid[2]
    }
}

/// Whether every leaf fits.
pub open spec fn grid_fits(grid: [u32; 3], leafs: Seq<GridLeaf>, sample_count: int) -> bool {
    forall|k: int| 0 <= k < leafs.len() ==> leaf_fits(grid, #[trigger] leafs[k], sample_count)
}

/// Decides whether every cell of a leaf has a place in the box of all
/// cells and a sample.
pub fn leaf_is_valid(grid: [u32; 3], leaf: &GridLeaf, sample_count: usize) -> (r: bool)
    ensures
        r == leaf_fits(grid, *leaf, sample_count as int),
{
    let sx: u128 = leaf.size[0] as u128;
    let sy: u128 = leaf.size[1] as u128;
    let sz: u128 = leaf.size[2] as u128;
    assert(0 <= sx * sy <= 0x1_0000_0000 * 0x1_0000_0000 && 0 <= sx * sy * sz <= 0x1_0000_0000
        * 0x1_0000_0000 * 0x1_0000_0000 && (sx * sy * sz > 0 <==> sx > 0 && sy > 0 && sz > 0))
        by (nonlinear_arith)
        requires
            0 <= sx < 0x1_0000_0000,
            0 <= sy < 0x1_0000_0000,
            0 <= sz < 0x1_0000_0000,
    ;
    let count: u128 = sx * sy * sz;
    if leaf.sample_start_idx as u128 + count > sample_count as u128 {
        return false;
    }
    count == 0 || (leaf.mins[0] as u64 + leaf.size[0] as u64 <= grid[0] as u64 && leaf.mins[1] as u64
        + leaf.size[1] as u64 <= grid[1] as u64 && leaf.mins[2] as u64 + leaf.size[2] as u64
        <= grid[2] as u64)
}

/// Decides whether every leaf fits.
pub fn grid_is_valid(grid: [u32; 3], leafs: &Vec<GridLeaf>, sample_count: usize) -> (r: bool)
    ensures
        r == grid_fits(grid, leafs@, sample_count as int),
{
    let mut k: usize = 0;
    while k < leafs.len()
        invariant
            0 <= k <= leafs.len(),
            forall|j: int| 0 <= j < k ==> leaf_fits(grid, #[trigger] leafs@[j], sample_count as int),
        decreases leafs.len() - k,
    {
        if !leaf_is_valid(grid, &leafs[k], sample_count) {
            return false;
        }
        k = k + 1;
    }
    true
}

/// The box of all cells after the first `n` cells of a leaf took their
/// samples.
pub open spec fn after_cells(
    grid: [u32; 3],
    leaf: GridLeaf,
    samples: Seq<GridSample>,
    cells: Seq<GridSample>,
    n: int,
) -> Seq<GridSample>
    decreases n,
{
    if n <= 0 {
        cells
    } else {
        after_cells(grid, leaf, samples, cells, n - 1).update(
            numbered_slot(grid, leaf, n - 1),
            samples[leaf.sample_start_idx + n - 1],
        )
    }
}

/// The box of all cells after the first `k` leaves took their samples.
pub open spec fn after_leafs(
    grid: [u32; 3],
    leafs: Seq<GridLeaf>,
    samples: Seq<GridSample>,
    k: int,
) -> Seq<GridSample>
    decreases k,
{
    if k <= 0 {
        Seq::new((grid[0] * grid[1] * grid[2]) as nat, |i: int| no_sample())
    } else {
        after_cells(
            grid,
            leafs[k - 1],
            samples,
            after_leafs(grid, leafs, samples, k - 1),
            cell_count(leafs[k - 1]),
        )
    }
}

/// The cell `(x, y, z)` of a leaf has the number `x + sx * (y + sy * z)`,
/// and a place in the box of all cells.
proof fn lemma_cell_number(grid: [u32; 3], leaf: GridLeaf, x: int, y: int, z: int)
    requires
        0 <= x < leaf.size[0],
        0 <= y < leaf.size[1],
        0 <= z < leaf.size[2],
        leaf.mins[0] + leaf.size[0] <= grid[0],
        leaf.mins[1] + leaf.size[1] <= grid[1],
        leaf.mins[2] + leaf.size[2] <= grid[2],
    ensures
        numbered_slot(grid, leaf, x + leaf.size[0] * (y + leaf.size[1] * z)) == cell_slot(
            grid,
            leaf,
            x,
            y,
            z,
        ),
        0 <= x + leaf.size[0] * (y + leaf.size[1] * z) < cell_count(leaf),
        0 <= cell_slot(grid, leaf, x, y, z) < grid[0] * grid[1] * grid[2],
        0 <= (leaf.mins[2] + z) * grid[1] <= grid[1] * grid[2] - grid[1],
        0 <= (leaf.mins[0] + x) * (grid[1] * grid[2]) <= grid[0] * grid[1] * grid[2] - grid[1]
            * grid[2],
        0 <= grid[1] * grid[2],
{
    let sx = leaf.size[0] as int;
    let sy = leaf.size[1] as int;
    let sz = leaf.size[2] as int;
    let row = y + sy * z;
    let c = x + sx * row;
    assert(0 <= row < sy * sz && 0 <= sx * row && sx * row + sx <= sx * (sy * sz) && sx * (sy
        * sz) == sx * sy * sz && sx * row == row * sx) by (nonlinear_arith)
        requires
            row == y + sy * z,
            0 <= y < sy,
            0 <= z < sz,
            0 < sx,
    ;
    lemma_fundamental_div_mod_converse(c, sx, row, x);
    assert(sy * z == z * sy) by (nonlinear_arith);
    lemma_fundamental_div_mod_converse(row, sy, z, y);
    assert(c / (sx * sy) == z) by {
        assert(c == (sx * sy) * z + (x + sx * y) && 0 <= x + sx * y < sx * sy && (sx * sy) * z
            == z * (sx * sy)) by (nonlinear_arith)
            requires
                c == x + sx * (y + sy * z),
                0 <= x < sx,
                0 <= y < sy,
        ;
        lemma_fundamental_div_mod_converse(c, sx * sy, z, x + sx * y);
    }
    let g0 = grid[0] as int;
    let g1 = grid[1] as int;
    let g2 = grid[2] as int;
    let px = leaf.mins[0] + x;
    let py = leaf.mins[1] + y;
    let pz = leaf.mins[2] + z;
    assert(0 <= pz * g1 && pz * g1 + g1 <= g1 * g2 && 0 <= px * (g1 * g2) && px * (g1 * g2) + g1
        * g2 <= g0 * g1 * g2 && 0 <= g1 * g2) by (nonlinear_arith)
        requires
            0 <= px < g0,
            0 <= py < g1,
            0 <= pz < g2,
    ;
}

/// Brings the samples of a light grid into the order of the box of all
/// cells.
///
/// The leaves take their samples one after the other, each cell by cell, so
/// that a cell that two leaves cover keeps the sample of the later leaf. A
/// cell that no leaf covers has no light.
pub fn arrange_samples(grid: [u32; 3], leafs: &Vec<GridLeaf>, samples: &Vec<GridSample>) -> (cells:
    Vec<GridSample>)
    requires
        grid[0] * grid[1] * grid[2] <= usize::MAX,
        grid_fits(grid, leafs@, samples@.len() as int),
    ensures
        cells@ == after_leafs(grid, leafs@, samples@, leafs@.len() as int),
        cells@.len() == grid[0] * grid[1] * grid[2],
{
    let g0: usize = grid[0] as usize;
    let g1: usize = grid[1] as usize;
    let g2: usize = grid[2] as usize;
    assert(0 <= g1 * g2 && (g0 > 0 ==> g1 * g2 <= g0 * g1 * g2) && (g0 == 0 ==> g0 * g1 * g2 == 0))
        by (nonlinear_arith)
        requires
            0 <= g0,
            0 <= g1,
            0 <= g2,
    ;
    if g0 == 0 {
        // No cell at all, and so no leaf with a cell.
        let cells: Vec<GridSample> = Vec::new();
        proof {
            lemma_empty_grid(grid, leafs@, samples@, leafs@.len() as int);
        }
        return cells;
    }
    assert(g0 * (g1 * g2) == g0 * g1 * g2) by (nonlinear_arith);
    let plane: usize = g1 * g2;
    let total: usize = g0 * plane;
    let sample_count: usize = samples.len();
    let mut cells: Vec<GridSample> = Vec::new();
    while cells.len() < total
        invariant
            cells.len() <= total,
            forall|i: int| 0 <= i < cells.len() ==> cells@[i] == no_sample(),
        decreases total - cells.len(),
    {
        cells.push(GridSample { red: 0, green: 0, blue: 0, used: false });
    }
    assert(cells@ =~= after_leafs(grid, leafs@, samples@, 0));
    let mut k: usize = 0;
    while k < leafs.len()
        invariant
            g0 == grid[0],
            g1 == grid[1],
            g2 == grid[2],
            plane == g1 * g2,
            total == grid[0] * grid[1] * grid[2],
            grid_fits(grid, leafs@, samples@.len() as int),
            samples@.len() == sample_count,
            0 <= k <= leafs.len(),
            cells@.len() == total,
            cells@ == after_leafs(grid, leafs@, samples@, k as int),
        decreases leafs.len() - k,
    {
        let leaf = leafs[k];
        assert(leaf_fits(grid, leafs@[k as int], samples@.len() as int));
        let ghost before = cells@;
        let sx: u32 = leaf.size[0];
        let sy: u32 = leaf.size[1];
        let sz: u32 = leaf.size[2];
        let mut c: usize = 0;
        if sx > 0 && sy > 0 && sz > 0 {
            assert(cell_count(leaf) > 0 && cell_count(leaf) == sx * sy * sz) by (nonlinear_arith)
                requires
                    cell_count(leaf) == sx * sy * sz,
                    sx > 0,
                    sy > 0,
                    sz > 0,
            ;
            let mut z: u32 = 0;
            while z < sz
                invariant
                    g0 == grid[0],
                    g1 == grid[1],
                    g2 == grid[2],
                    plane == g1 * g2,
                    total == grid[0] * grid[1] * grid[2],
                    leaf == leafs@[k as int],
                    leaf_fits(grid, leaf, samples@.len() as int),
                    samples@.len() == sample_count,
                    sx == leaf.size[0] && sy == leaf.size[1] && sz == leaf.size[2],
                    sx > 0 && sy > 0 && sz > 0,
                    cell_count(leaf) > 0,
                    0 <= z <= sz,
                    c == sx * (sy * z),
                    c <= cell_count(leaf),
                    cells@.len() == total,
                    cells@ == after_cells(grid, leaf, samples@, before, c as int),
                decreases sz - z,
            {
                let mut y: u32 = 0;
                while y < sy
                    invariant
                        g0 == grid[0],
                        g1 == grid[1],
                        g2 == grid[2],
                        plane == g1 * g2,
                        total == grid[0] * grid[1] * grid[2],
                        leaf == leafs@[k as int],
                        leaf_fits(grid, leaf, samples@.len() as int),
                        samples@.len() == sample_count,
                    samples@.len() == sample_count,
                        sx == leaf.size[0] && sy == leaf.size[1] && sz == leaf.size[2],
                        sx > 0 && sy > 0 && sz > 0,
                        cell_count(leaf) > 0,
                        0 <= z < sz,
                        0 <= y <= sy,
                        c == sx * (y + sy * z),
                        c <= cell_count(leaf),
                        cells@.len() == total,
                        cells@ == after_cells(grid, leaf, samples@, before, c as int),
                    decreases sy - y,
                {
                    let mut x: u32 = 0;
                    while x < sx
                        invariant
                            g0 == grid[0],
                            g1 == grid[1],
                            g2 == grid[2],
                            plane == g1 * g2,
                            total == grid[0] * grid[1] * grid[2],
                            leaf == leafs@[k as int],
                            leaf_fits(grid, leaf, samples@.len() as int),
                            samples@.len() == sample_count,
                        samples@.len() == sample_count,
                    samples@.len() == sample_count,
                            sx == leaf.size[0] && sy == leaf.size[1] && sz == leaf.size[2],
                            sx > 0 && sy > 0 && sz > 0,
                            cell_count(leaf) > 0,
                            0 <= z < sz,
                            0 <= y < sy,
                            0 <= x <= sx,
                            c == x + sx * (y + sy * z),
                            c <= cell_count(leaf),
                            cells@.len() == total,
                            cells@ == after_cells(grid, leaf, samples@, before, c as int),
                        decreases sx - x,
                    {
                        proof {
                            lemma_cell_number(grid, leaf, x as int, y as int, z as int);
                        }
                        let sample = samples[leaf.sample_start_idx + c];
                        let slot: usize = (leaf.mins[1] + y) as usize + (leaf.mins[2] + z) as usize
                            * g1 + (leaf.mins[0] + x) as usize * plane;
                        cells.set(slot, sample);
                        c = c + 1;
                        x = x + 1;
                    }
                    proof {
                        assert(sx + sx * (y + sy * z) == sx * ((y + 1) + sy * z))
                            by (nonlinear_arith);
                    }
                    y = y + 1;
                }
                proof {
                    assert(sx * (sy + sy * z) == sx * (sy * (z + 1))) by (nonlinear_arith);
                }
                z = z + 1;
            }
            assert(c == cell_count(leaf)) by (nonlinear_arith)
                requires
                    c == sx * (sy * sz),
                    cell_count(leaf) == sx * sy * sz,
            ;
        } else {
            assert(cell_count(leaf) == 0) by (nonlinear_arith)
                requires
                    cell_count(leaf) == sx * sy * sz,
                    sx == 0 || sy == 0 || sz == 0,
            ;
        }
        k = k + 1;
    }
    cells
}

/// A box without cells stays empty.
proof fn lemma_empty_grid(grid: [u32; 3], leafs: Seq<GridLeaf>, samples: Seq<GridSample>, k: int)
    requires
        grid[0] == 0,
        grid_fits(grid, leafs, samples.len() as int),
        0 <= k <= leafs.len(),
    ensures
        after_leafs(grid, leafs, samples, k) =~= Seq::<GridSample>::empty(),
    decreases k,
{
    assert(grid[0] * grid[1] * grid[2] == 0) by (nonlinear_arith)
        requires
            grid[0] == 0,
    ;
    if k > 0 {
        lemma_empty_grid(grid, leafs, samples, k - 1);
        let leaf = leafs[k - 1];
        assert(leaf_fits(grid, leaf, samples.len() as int));
        assert(cell_count(leaf) == 0) by (nonlinear_arith)
            requires
                cell_count(leaf) == leaf.size[0] * leaf.size[1] * leaf.size[2],
                cell_count(leaf) > 0 ==> leaf.size[0] == 0,
        ;
    }
}

} // verus!
