//! Finding the least-energy vertical seam of an energy grid.
use vstd::prelude::*;
use crate::energy::{accumulate, is_path, lemma_path_energy_is_least, min2, path_energy, path_sum, PathEnergies};
use crate::gradient::{sobel_gradient_map, sobel_gradients};
use crate::raster::{rows_model, EnergyGrid, GrayImage, Raster};

verus! {

/// A seam connecting the bottom of an image to its top: entry `k` is the
/// column of the seam in row `height - 1 - k`.
pub struct VerticalSeam(Vec<u32>);

impl View for VerticalSeam {
    type V = Seq<u32>;

    closed spec fn view(&self) -> Seq<u32> {
        self.0@
    }
}

impl VerticalSeam {
    /// A seam with the given columns, bottom row first.
    pub fn from_columns(columns: Vec<u32>) -> (r: Self)
        ensures
            r@ == columns@,
    {
        VerticalSeam(columns)
    }

    /// The columns of the seam, bottom row first.
    pub fn columns(&self) -> (r: &Vec<u32>)
        ensures
            r@ == self@,
    {
        &self.0
    }
}

/// Why a seam operation refused its input.
#[derive(Clone, Copy, Debug, PartialEq, Eq, Structural)]
pub enum SeamError {
    /// A target width above the image width, an image too narrow or too flat
    /// for a seam, or a seam column outside the image.
    InvalidArgument,
    /// A seam whose length differs from the image height.
    LengthMismatch,
    /// Shrinking would leave an image of width zero.
    DegenerateState,
}

/// `seam` is `height` long, stays inside `width` columns and moves at most one
/// column between adjacent rows.
pub open spec fn is_valid_seam(seam: Seq<u32>, width: nat, height: nat) -> bool {
    &&& seam.len() == height
    &&& forall|k: int| 0 <= k < seam.len() ==> #[trigger] seam[k] < width
    &&& forall|k: int| 0 < k < seam.len() ==> -1 <= #[trigger] seam[k] - seam[k - 1] <= 1
}

/// The first column among columns `0..n` of row `y` with the least path energy.
pub open spec fn first_least(e: Raster<u32>, y: int, n: int) -> int
    decreases n,
{
    if n <= 1 {
        0
    } else {
        let m = first_least(e, y, n - 1);
        if path_energy(e, n - 1, y) < path_energy(e, m, y) { n - 1 } else { m }
    }
}

/// The column in row `y - 1` that the seam moves to from column `c` of row `y`:
/// up-left replaces up only when strictly less, and up-right replaces the
/// best so far only when strictly less.
pub open spec fn step_up(e: Raster<u32>, c: int, y: int) -> int {
    let up = path_energy(e, c, y - 1);
    let c1 = if c > 0 && path_energy(e, c - 1, y - 1) < up { c - 1 } else { c };
    if c + 1 < e.width && path_energy(e, c + 1, y - 1) < path_energy(e, c1, y - 1) {
        c + 1
    } else {
        c1
    }
}

/// Column of the traced seam `k` rows above the bottom row.
pub open spec fn seam_column(e: Raster<u32>, k: int) -> int
    decreases k,
{
    if k <= 0 {
        first_least(e, e.height() - 1, e.width as int)
    } else {
        step_up(e, seam_column(e, k - 1), e.height() - k)
    }
}

/// The seam traced through the path energies of `e`, bottom row first.
pub open spec fn traced_seam(e: Raster<u32>) -> Seq<u32> {
    Seq::new(e.height(), |k: int| seam_column(e, k) as u32)
}

proof fn lemma_first_least_bounds(e: Raster<u32>, y: int, n: int)
    requires
        n >= 1,
    ensures
        0 <= first_least(e, y, n) < n,
    decreases n,
{
    if n > 1 {
        lemma_first_least_bounds(e, y, n - 1);
    }
}

/// The traced seam of a grid at least two columns wide and one row high is a
/// valid seam: one column per row, inside the grid, moving at most one
/// column between adjacent rows.
pub proof fn lemma_traced_seam_valid(e: Raster<u32>)
    requires
        e.width >= 2,
        e.height() >= 1,
        e.width <= u32::MAX,
    ensures
        is_valid_seam(traced_seam(e), e.width, e.height()),
{
    assert forall|k: int| 0 <= k < e.height() implies 0 <= #[trigger] seam_column(e, k) < e.width by {
        lemma_seam_column_bounds(e, k);
    }
    assert forall|k: int| 0 < k < e.height() implies
        -1 <= #[trigger] seam_column(e, k) - seam_column(e, k - 1) <= 1 by {
        lemma_seam_column_bounds(e, k);
    }
}

proof fn lemma_seam_column_bounds(e: Raster<u32>, k: int)
    requires
        e.width >= 2,
        0 <= k,
    ensures
        0 <= seam_column(e, k) < e.width,
        k > 0 ==> -1 <= seam_column(e, k) - seam_column(e, k - 1) <= 1,
    decreases k,
{
    if k == 0 {
        lemma_first_least_bounds(e, e.height() - 1, e.width as int);
    } else {
        lemma_seam_column_bounds(e, k - 1);
    }
}

/// The columns of `seam` listed top row first, as a path from the top row down.
pub open spec fn seam_path(height: nat, seam: Seq<u32>) -> Seq<int> {
    Seq::new(height, |i: int| seam[height - 1 - i] as int)
}

/// Total energy of the pixels that `seam` crosses.
pub open spec fn seam_cost(e: Raster<u32>, seam: Seq<u32>) -> int {
    path_sum(e, seam_path(e.height(), seam), e.height() as int)
}

proof fn lemma_step_up_best(e: Raster<u32>, c: int, y: int)
    requires
        0 <= c < e.width,
        y >= 1,
    ensures
        path_energy(e, c, y) == e.at(c, y) as int + path_energy(e, step_up(e, c, y), y - 1),
{
    let up = path_energy(e, c, y - 1);
    let with_left = if c > 0 { min2(path_energy(e, c - 1, y - 1), up) } else { up };
    let best = if c + 1 < e.width { min2(with_left, path_energy(e, c + 1, y - 1)) } else { with_left };
    assert(path_energy(e, c, y) == e.at(c, y) as int + best);
}

proof fn lemma_first_least_is_least(e: Raster<u32>, y: int, n: int, j: int)
    requires
        1 <= n,
        0 <= j < n,
    ensures
        path_energy(e, first_least(e, y, n), y) <= path_energy(e, j, y),
    decreases n,
{
    if n > 1 && j < n - 1 {
        lemma_first_least_is_least(e, y, n - 1, j);
    }
}

proof fn lemma_traced_prefix(e: Raster<u32>, i: int)
    requires
        e.width >= 2,
        e.width <= u32::MAX,
        e.height() >= 1,
        0 <= i < e.height(),
    ensures
        path_sum(e, seam_path(e.height(), traced_seam(e)), i + 1) == path_energy(e, seam_column(e, e.height() - 1 - i), i),
    decreases i,
{
    let h = e.height() as int;
    let p = seam_path(e.height(), traced_seam(e));
    lemma_seam_column_bounds(e, h - 1 - i);
    assert(traced_seam(e)[h - 1 - i] == seam_column(e, h - 1 - i) as u32);
    assert(p[i] == seam_column(e, h - 1 - i));
    if i == 0 {
        assert(path_sum(e, p, 0) == 0);
    } else {
        lemma_traced_prefix(e, i - 1);
        assert(seam_column(e, h - i) == step_up(e, seam_column(e, h - 1 - i), i));
        lemma_step_up_best(e, seam_column(e, h - 1 - i), i);
    }
}

/// The traced seam is a least-energy seam: no valid seam of the grid crosses
/// pixels of smaller total energy.
pub proof fn lemma_traced_seam_is_least(e: Raster<u32>, seam: Seq<u32>)
    requires
        e.wf(),
        e.width >= 2,
        e.height() >= 1,
        is_valid_seam(seam, e.width, e.height()),
    ensures
        is_valid_seam(traced_seam(e), e.width, e.height()),
        seam_cost(e, traced_seam(e)) <= seam_cost(e, seam),
{
    let h = e.height() as int;
    lemma_traced_seam_valid(e);
    lemma_traced_prefix(e, h - 1);
    lemma_first_least_bounds(e, h - 1, e.width as int);
    lemma_first_least_is_least(e, h - 1, e.width as int, seam[0] as int);
    let p = seam_path(e.height(), seam);
    assert(is_path(e, p, h - 1)) by {
        assert forall|i: int| 0 < i <= h - 1 implies -1 <= #[trigger] p[i] - p[i - 1] <= 1 by {
            assert(seam[h - i] - seam[h - i - 1] <= 1);
            assert(seam[h - i] - seam[h - i - 1] >= -1);
        }
    }
    lemma_path_energy_is_least(e, seam[0] as int, h - 1);
    assert(p[h - 1] == seam[0]);
}

/// Retraces the seam from the bottom row of the path energies upward.
fn trace_seam(acc: &PathEnergies, Ghost(e): Ghost<Raster<u32>>) -> (r: VerticalSeam)
    requires
        e.wf(),
        e.width >= 2,
        e.height() >= 1,
        acc@.width == e.width,
        acc@.height() == e.height(),
        forall|x: int, y: int| 0 <= x < e.width && 0 <= y < e.height() ==>
            #[trigger] acc@.at(x, y) == path_energy(e, x, y),
    ensures
        r@ == traced_seam(e),
        is_valid_seam(r@, e.width, e.height()),
{
    let width = acc.width();
    let height = acc.height();
    let rows = acc.rows();
    proof {
        assert(rows_model(rows@).len() == rows@.len());
        assert(rows@[height - 1]@ == acc@.rows[height - 1]);
        assert(acc@.rows[height - 1].len() == width);
        assert(acc@.at(0, height - 1) == path_energy(e, 0, height - 1));
    }
    let bottom = &rows[height as usize - 1];
    let mut best: u32 = 0;
    let mut best_energy: u64 = bottom[0];
    let mut x: u32 = 1;
    while x < width
        invariant
            1 <= x <= width,
            height >= 1,
            width == e.width,
            height == e.height(),
            bottom@ == acc@.rows[height - 1],
            bottom@.len() == width,
            acc@.wf(),
            acc@.width == e.width,
            acc@.height() == e.height(),
            forall|x: int, y: int| 0 <= x < e.width && 0 <= y < e.height() ==>
                #[trigger] acc@.at(x, y) == path_energy(e, x, y),
            best == first_least(e, height - 1, x as int),
            best_energy == path_energy(e, best as int, height - 1),
        decreases width - x,
    {
        proof {
            lemma_first_least_bounds(e, height - 1, x as int);
            assert(acc@.at(x as int, height - 1) == bottom@[x as int]);
            assert(0 <= height - 1 < e.height());
            assert(0 <= x < e.width);
            assert(acc@.at(x as int, height - 1) == path_energy(e, x as int, height - 1));
        }
        let c = bottom[x as usize];
        if c < best_energy {
            best = x;
            best_energy = c;
        }
        x += 1;
    }
    let mut seam: Vec<u32> = Vec::new();
    seam.push(best);
    let mut last: u32 = best;
    let mut y: u32 = height - 1;
    proof {
        lemma_first_least_bounds(e, height - 1, width as int);
        assert(seam@ =~= Seq::new(1, |k: int| seam_column(e, k) as u32));
    }
    while y > 0
        invariant
            y < height,
            width == e.width,
            width >= 2,
            height == e.height(),
            acc@.wf(),
            acc@.width == e.width,
            acc@.height() == e.height(),
            rows_model(rows@) == acc@.rows,
            rows@.len() == height,
            forall|x: int, y: int| 0 <= x < e.width && 0 <= y < e.height() ==>
                #[trigger] acc@.at(x, y) == path_energy(e, x, y),
            seam@.len() == height - y,
            seam@ =~= Seq::new((height - y) as nat, |k: int| seam_column(e, k) as u32),
            last == seam_column(e, height - 1 - y),
            last < width,
            is_valid_seam(seam@, e.width, seam@.len()),
        decreases y,
    {
        let ghost k = height - y;
        let above_row = &rows[y as usize - 1];
        proof {
            assert(above_row@ == acc@.rows[y - 1]);
            assert(above_row@.len() == width);
            assert(acc@.at(last as int, y - 1) == path_energy(e, last as int, y - 1));
            if last > 0 {
                assert(acc@.at(last - 1, y - 1) == path_energy(e, last - 1, y - 1));
            }
            if last < width - 1 {
                assert(acc@.at(last + 1, y - 1) == path_energy(e, last + 1, y - 1));
            }
            assert(seam_column(e, k) == step_up(e, last as int, y as int));
        }
        let mut next = last;
        let mut least = above_row[last as usize];
        if last > 0 {
            let left = above_row[last as usize - 1];
            if left < least {
                next = last - 1;
                least = left;
            }
        }
        if last < width - 1 {
            let right = above_row[last as usize + 1];
            if right < least {
                next = last + 1;
            }
        }
        let ghost old_seam = seam@;
        seam.push(next);
        proof {
            assert(seam@ =~= Seq::new((k + 1) as nat, |j: int| seam_column(e, j) as u32));
            assert(forall|j: int| 0 < j < seam@.len() ==> #[trigger] seam@[j] == (if j < k { old_seam[j] } else { next }));
        }
        last = next;
        y -= 1;
    }
    VerticalSeam(seam)
}

/// Finds the least-energy vertical seam of a grid of per-pixel energies.
/// Fails with `InvalidArgument` when the grid is under two columns wide or
/// has no row.
pub fn find_seam_in_energy(energy: &EnergyGrid) -> (r: Result<VerticalSeam, SeamError>)
    ensures
        r is Err <==> energy@.width < 2 || energy@.height() == 0,
        r matches Err(err) ==> err == SeamError::InvalidArgument,
        r matches Ok(seam) ==> seam@ == traced_seam(energy@) && is_valid_seam(seam@, energy@.width, energy@.height()),
{
    if energy.width() < 2 || energy.height() == 0 {
        return Err(SeamError::InvalidArgument);
    }
    let acc = accumulate(energy);
    Ok(trace_seam(&acc, Ghost(energy@)))
}

/// The seam that carving removes next from `img`: the one traced through the
/// path energies of its Sobel gradient magnitudes.
pub open spec fn seam_of(img: Raster<u8>) -> Seq<u32> {
    traced_seam(sobel_gradients(img))
}

/// Computes an 8-connected path from the bottom of the image to its top whose
/// sum of gradient magnitudes is least. Fails with `InvalidArgument` when the
/// image is under two columns wide or has no row.
pub fn find_vertical_seam(image: &GrayImage) -> (r: Result<VerticalSeam, SeamError>)
    ensures
        r is Err <==> image@.width < 2 || image@.height() == 0,
        r matches Err(err) ==> err == SeamError::InvalidArgument,
        r matches Ok(seam) ==> seam@ == seam_of(image@) && is_valid_seam(seam@, image@.width, image@.height()),
{
    let gradients = sobel_gradient_map(image);
    find_seam_in_energy(&gradients)
}

/// The seam found in an image depends on the image alone: equal images give
/// equal seams, ties being broken the same way every time.
pub proof fn lemma_seam_deterministic(a: Raster<u8>, b: Raster<u8>)
    requires
        a == b,
    ensures
        seam_of(a) == seam_of(b),
{
}

} // verus!
