//! Accumulation of per-pixel energy into least path energies.
use vstd::prelude::*;
use crate::raster::{rows_model, EnergyGrid, Grid, Raster};

verus! {

/// Accumulated path energies: cell `(x, y)` holds the least total energy of an
/// 8-connected path from the top row down to it.
pub type PathEnergies = Grid<u64>;

pub open spec fn min2(a: int, b: int) -> int {
    if a <= b { a } else { b }
}

/// Least total energy of an 8-connected path from the top row down to `(x, y)`,
/// the cell itself included.
pub open spec fn path_energy(e: Raster<u32>, x: int, y: int) -> int
    decreases y,
{
    if y <= 0 {
        e.at(x, 0) as int
    } else {
        let up = path_energy(e, x, y - 1);
        let with_left = if x > 0 { min2(path_energy(e, x - 1, y - 1), up) } else { up };
        let best = if x + 1 < e.width { min2(with_left, path_energy(e, x + 1, y - 1)) } else { with_left };
        e.at(x, y) as int + best
    }
}

/// Path energies never exceed `u32::MAX` for each row they cross.
pub proof fn lemma_path_energy_bounds(e: Raster<u32>, x: int, y: int)
    requires
        0 <= y,
    ensures
        0 <= path_energy(e, x, y) <= (y + 1) * (u32::MAX as int),
    decreases y,
{
    if y > 0 {
        lemma_path_energy_bounds(e, x, y - 1);
        lemma_path_energy_bounds(e, x - 1, y - 1);
        lemma_path_energy_bounds(e, x + 1, y - 1);
        assert((y + 1) * (u32::MAX as int) == y * (u32::MAX as int) + u32::MAX) by (nonlinear_arith);
    }
}

/// `p` gives, for each row `0..=y`, a column inside `e`, adjacent rows' columns
/// differing by at most one: an 8-connected path from the top row down to row `y`.
pub open spec fn is_path(e: Raster<u32>, p: Seq<int>, y: int) -> bool {
    &&& p.len() == y + 1
    &&& forall|i: int| 0 <= i <= y ==> 0 <= #[trigger] p[i] < e.width
    &&& forall|i: int| 0 < i <= y ==> -1 <= #[trigger] p[i] - p[i - 1] <= 1
}

/// Total energy of the first `n` cells of the path `p`.
pub open spec fn path_sum(e: Raster<u32>, p: Seq<int>, n: int) -> int
    decreases n,
{
    if n <= 0 {
        0
    } else {
        path_sum(e, p, n - 1) + e.at(p[n - 1], n - 1) as int
    }
}

proof fn lemma_path_sum_prefix(e: Raster<u32>, p: Seq<int>, q: Seq<int>, n: int)
    requires
        0 <= n,
        forall|i: int| 0 <= i < n ==> p[i] == q[i],
    ensures
        path_sum(e, p, n) == path_sum(e, q, n),
    decreases n,
{
    if n > 0 {
        lemma_path_sum_prefix(e, p, q, n - 1);
    }
}

/// The path energy of a cell is the least total energy of an 8-connected path
/// from the top row down to it: no such path has less, and one has exactly
/// that much.
pub proof fn lemma_path_energy_is_least(e: Raster<u32>, x: int, y: int)
    requires
        0 <= x < e.width,
        0 <= y,
    ensures
        forall|p: Seq<int>| is_path(e, p, y) && p[y] == x ==> path_energy(e, x, y) <= #[trigger] path_sum(e, p, y + 1),
        exists|p: Seq<int>| is_path(e, p, y) && p[y] == x && #[trigger] path_sum(e, p, y + 1) == path_energy(e, x, y),
{
    assert forall|p: Seq<int>| is_path(e, p, y) && p[y] == x implies path_energy(e, x, y) <= #[trigger] path_sum(e, p, y + 1) by {
        lemma_no_path_below(e, p, y);
    }
    let p = lemma_least_path(e, x, y);
}

proof fn lemma_no_path_below(e: Raster<u32>, p: Seq<int>, y: int)
    requires
        0 <= y,
        p.len() >= y + 1,
        forall|i: int| 0 <= i <= y ==> 0 <= #[trigger] p[i] < e.width,
        forall|i: int| 0 < i <= y ==> -1 <= #[trigger] p[i] - p[i - 1] <= 1,
    ensures
        path_energy(e, p[y], y) <= path_sum(e, p, y + 1),
    decreases y,
{
    if y == 0 {
        assert(path_sum(e, p, 0) == 0);
    } else {
        lemma_no_path_below(e, p, y - 1);
        assert(-1 <= p[y] - p[y - 1] <= 1);
        assert(path_sum(e, p, y + 1) == path_sum(e, p, y) + e.at(p[y], y) as int);
        let x = p[y];
        let up = path_energy(e, x, y - 1);
        let with_left = if x > 0 { min2(path_energy(e, x - 1, y - 1), up) } else { up };
        let best = if x + 1 < e.width { min2(with_left, path_energy(e, x + 1, y - 1)) } else { with_left };
        assert(path_energy(e, x, y) == e.at(x, y) as int + best);
        assert(best <= path_energy(e, p[y - 1], y - 1));
    }
}

proof fn lemma_least_path(e: Raster<u32>, x: int, y: int) -> (p: Seq<int>)
    requires
        0 <= x < e.width,
        0 <= y,
    ensures
        is_path(e, p, y),
        p[y] == x,
        path_sum(e, p, y + 1) == path_energy(e, x, y),
    decreases y,
{
    if y == 0 {
        let p = seq![x];
        assert(path_sum(e, p, 0) == 0);
        p
    } else {
        let up = path_energy(e, x, y - 1);
        let with_left = if x > 0 { min2(path_energy(e, x - 1, y - 1), up) } else { up };
        let best = if x + 1 < e.width { min2(with_left, path_energy(e, x + 1, y - 1)) } else { with_left };
        let parent = if x + 1 < e.width && best == path_energy(e, x + 1, y - 1) {
            x + 1
        } else if x > 0 && best == path_energy(e, x - 1, y - 1) {
            x - 1
        } else {
            x
        };
        let q = lemma_least_path(e, parent, y - 1);
        let p = q.push(x);
        lemma_path_sum_prefix(e, p, q, y);
        assert(path_sum(e, p, y + 1) == path_sum(e, p, y) + e.at(x, y) as int);
        assert(path_energy(e, x, y) == e.at(x, y) as int + best);
        assert(is_path(e, p, y));
        p
    }
}

/// Appends to `row` the path energy of column `x`, given the path energies
/// `above` of the previous row and the raw energy `current` of the cell.
fn set_path_energy(row: &mut Vec<u64>, above: &Vec<u64>, current: u32, x: usize, Ghost(e): Ghost<Raster<u32>>, Ghost(y): Ghost<int>)
    requires
        e.wf(),
        1 <= y < e.height(),
        x < e.width,
        above@.len() == e.width,
        current == e.at(x as int, y),
        forall|i: int| 0 <= i < e.width ==> above@[i] == path_energy(e, i, y - 1),
    ensures
        0 <= path_energy(e, x as int, y) <= u64::MAX,
        final(row)@ == old(row)@.push(path_energy(e, x as int, y) as u64),
{
    proof {
        lemma_path_energy_bounds(e, x as int, y);
        lemma_path_energy_bounds(e, x as int, y - 1);
        assert(y * (u32::MAX as int) <= (u32::MAX as int) * (u32::MAX as int)) by (nonlinear_arith)
            requires y <= u32::MAX;
    }
    let mut least = above[x];
    if x > 0 {
        let left = above[x - 1];
        if left <= least {
            least = left;
        }
    }
    if x + 1 < above.len() {
        let right = above[x + 1];
        if right < least {
            least = right;
        }
    }
    row.push(current as u64 + least);
}

/// Path energies of every cell of `energy`, computed row by row from the top.
pub fn accumulate(energy: &EnergyGrid) -> (r: PathEnergies)
    ensures
        r@.wf(),
        r@.width == energy@.width,
        r@.height() == energy@.height(),
        forall|x: int, y: int| 0 <= x < r@.width && 0 <= y < r@.height() ==>
            #[trigger] r@.at(x, y) == path_energy(energy@, x, y),
{
    let width = energy.width();
    let height = energy.height();
    let ghost e = energy@;
    let source = energy.rows();
    let mut rows: Vec<Vec<u64>> = Vec::new();
    let mut y: usize = 0;
    while y < height as usize
        invariant
            e.wf(),
            e == energy@,
            width == e.width,
            height == e.height(),
            rows_model(source@) == e.rows,
            y <= height,
            rows@.len() == y,
            forall|i: int| 0 <= i < y ==> (#[trigger] rows@[i])@.len() == width,
            forall|i: int, x: int| 0 <= i < y && 0 <= x < width ==>
                #[trigger] rows@[i]@[x] == path_energy(e, x, i),
        decreases height - y,
    {
        let ghost src_row = source@[y as int]@;
        assert(src_row == e.rows[y as int]);
        let mut row: Vec<u64> = Vec::new();
        let mut x: usize = 0;
        while x < width as usize
            invariant
                e.wf(),
                width == e.width,
                height == e.height(),
                rows_model(source@) == e.rows,
                y < height,
                rows@.len() == y,
                src_row == e.rows[y as int],
                source@[y as int]@ == src_row,
                forall|i: int| 0 <= i < y ==> (#[trigger] rows@[i])@.len() == width,
                forall|i: int, x: int| 0 <= i < y && 0 <= x < width ==>
                    #[trigger] rows@[i]@[x] == path_energy(e, x, i),
                x <= width,
                row@.len() == x,
                forall|j: int| 0 <= j < x ==> #[trigger] row@[j] == path_energy(e, j, y as int),
            decreases width - x,
        {
            let current = source[y][x];
            assert(current == e.at(x as int, y as int));
            if y == 0 {
                assert(path_energy(e, x as int, 0) == current);
                row.push(current as u64);
            } else {
                set_path_energy(&mut row, &rows[y - 1], current, x, Ghost(e), Ghost(y as int));
            }
            x += 1;
        }
        rows.push(row);
        y += 1;
    }
    let ghost model = Raster { width: width as nat, rows: rows_model(rows@) };
    assert forall|i: int| 0 <= i < model.rows.len() implies (#[trigger] model.rows[i]).len() == model.width by {
        assert(model.rows[i] == rows@[i]@);
    }
    let r = Grid::from_valid_rows(width, rows);
    assert forall|x: int, y: int| 0 <= x < r@.width && 0 <= y < r@.height() implies
        #[trigger] r@.at(x, y) == path_energy(energy@, x, y) by {
        assert(r@.rows[y] == rows@[y]@);
    }
    r
}

} // verus!
