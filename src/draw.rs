//! Drawing removed seams back onto the original image.
use vstd::prelude::*;
use crate::raster::{rows_model, GrayImage, Grid, Raster, Rgb, RgbImage};
use crate::seam::{SeamError, VerticalSeam};

verus! {

/// The colour of a gray level.
pub open spec fn gray_to_rgb(v: u8) -> Rgb {
    Rgb { r: v, g: v, b: v }
}

/// The colour that marks a seam pixel: pure red.
pub open spec fn seam_mark() -> Rgb {
    Rgb { r: 255, g: 0, b: 0 }
}

/// The models of a list of seams.
pub open spec fn seam_views(seams: Seq<VerticalSeam>) -> Seq<Seq<u32>> {
    seams.map_values(|s: VerticalSeam| s@)
}

/// Number of untaken columns from column `c` on.
pub open spec fn free_from(taken: Seq<bool>, c: int) -> nat
    decreases taken.len() - c,
{
    if c < 0 || c >= taken.len() {
        0
    } else {
        free_from(taken, c + 1) + if taken[c] { 0nat } else { 1nat }
    }
}

/// The untaken column that has exactly `x` untaken columns between column `c`
/// and it.
pub open spec fn nth_free_from(taken: Seq<bool>, x: int, c: int) -> int
    decreases taken.len() - c,
{
    if c < 0 || c >= taken.len() {
        c
    } else if taken[c] {
        nth_free_from(taken, x, c + 1)
    } else if x <= 0 {
        c
    } else {
        nth_free_from(taken, x - 1, c + 1)
    }
}

/// Columns of row `y` of the original image that the first `n` seams took.
/// Each removal leaves the untaken columns in order, so column `x` of seam
/// `k` is the original column with exactly `x` untaken columns left of it.
pub open spec fn row_taken(seams: Seq<Seq<u32>>, width: nat, height: int, y: int, n: int) -> Seq<bool>
    decreases n,
{
    if n <= 0 {
        Seq::new(width, |c: int| false)
    } else {
        let prior = row_taken(seams, width, height, y, n - 1);
        prior.update(nth_free_from(prior, seams[n - 1][height - 1 - y] as int, 0), true)
    }
}

/// Every seam is `height` long, and seam `k` lies inside the `width - k`
/// columns that were left when it was removed.
pub open spec fn seams_fit(seams: Seq<Seq<u32>>, width: nat, height: nat) -> bool {
    &&& forall|k: int| 0 <= k < seams.len() ==> (#[trigger] seams[k]).len() == height
    &&& forall|k: int, i: int| 0 <= k < seams.len() && 0 <= i < height ==> #[trigger] seams[k][i] + k < width
}

/// `img` in colour with the pixels of `seams` painted red.
pub open spec fn drawn(img: Raster<u8>, seams: Seq<Seq<u32>>) -> Raster<Rgb> {
    Raster {
        width: img.width,
        rows: Seq::new(img.height(), |y: int| Seq::new(img.width, |x: int|
            if row_taken(seams, img.width, img.height() as int, y, seams.len() as int)[x] {
                seam_mark()
            } else {
                gray_to_rgb(img.at(x, y))
            })),
    }
}

proof fn lemma_free_from_bounds(taken: Seq<bool>, c: int)
    requires
        0 <= c <= taken.len(),
    ensures
        free_from(taken, c) <= taken.len() - c,
    decreases taken.len() - c,
{
    if c < taken.len() {
        lemma_free_from_bounds(taken, c + 1);
    }
}

proof fn lemma_free_from_untaken(width: nat, c: int)
    requires
        0 <= c <= width,
    ensures
        free_from(Seq::new(width, |i: int| false), c) == width - c,
    decreases width - c,
{
    if c < width {
        lemma_free_from_untaken(width, c + 1);
    }
}

/// Taking an untaken column `m` leaves one free column fewer from any `c <= m` on.
proof fn lemma_free_after_take(taken: Seq<bool>, m: int, c: int)
    requires
        0 <= m < taken.len(),
        !taken[m],
        0 <= c <= taken.len(),
    ensures
        free_from(taken.update(m, true), c) + (if c <= m { 1int } else { 0int }) == free_from(taken, c),
    decreases taken.len() - c,
{
    if c < taken.len() {
        lemma_free_after_take(taken, m, c + 1);
    }
}

/// With more than `x` untaken columns from `c` on, the `x`-th of them lies
/// inside the row and is untaken.
proof fn lemma_nth_free_from(taken: Seq<bool>, x: int, c: int)
    requires
        0 <= c <= taken.len(),
        0 <= x < free_from(taken, c),
    ensures
        c <= nth_free_from(taken, x, c) < taken.len(),
        !taken[nth_free_from(taken, x, c)],
    decreases taken.len() - c,
{
    if c < taken.len() {
        if taken[c] {
            lemma_nth_free_from(taken, x, c + 1);
        } else if x > 0 {
            lemma_nth_free_from(taken, x - 1, c + 1);
        }
    }
}

proof fn lemma_nth_free_from_untaken(width: nat, x: int, c: int)
    requires
        0 <= c,
        0 <= x,
        c + x < width,
    ensures
        nth_free_from(Seq::new(width, |i: int| false), x, c) == c + x,
    decreases width - c,
{
    if x > 0 {
        lemma_nth_free_from_untaken(width, x - 1, c + 1);
    }
}

/// Draws `seams` in red on a colour copy of `image`. The seams are taken to
/// have been removed from `image` in the given order, each column counted in
/// the image that the earlier removals left.
/// Fails with `LengthMismatch` when a seam's length differs from the image
/// height, and else with `InvalidArgument` when a seam lies outside the
/// image it was removed from.
pub fn draw_vertical_seams(image: &GrayImage, seams: &[VerticalSeam]) -> (r: Result<RgbImage, SeamError>)
    ensures
        (exists|k: int| 0 <= k < seams@.len() && (#[trigger] seams@[k])@.len() != image@.height())
            <==> r matches Err(SeamError::LengthMismatch),
        (forall|k: int| 0 <= k < seams@.len() ==> (#[trigger] seams@[k])@.len() == image@.height())
            && !seams_fit(seam_views(seams@), image@.width, image@.height())
            <==> r matches Err(SeamError::InvalidArgument),
        !(r matches Err(SeamError::DegenerateState)),
        r matches Ok(out) ==> out@ == drawn(image@, seam_views(seams@)) && out@.wf(),
{
    let width = image.width();
    let height = image.height();
    let ghost sv = seam_views(seams@);
    let mut k: usize = 0;
    while k < seams.len()
        invariant
            k <= seams@.len(),
            height == image@.height(),
            forall|j: int| 0 <= j < k ==> (#[trigger] seams@[j])@.len() == height,
        decreases seams@.len() - k,
    {
        if seams[k].columns().len() != height as usize {
            return Err(SeamError::LengthMismatch);
        }
        k += 1;
    }
    k = 0;
    while k < seams.len()
        invariant
            k <= seams@.len(),
            width == image@.width,
            height == image@.height(),
            sv == seam_views(seams@),
            forall|j: int| 0 <= j < seams@.len() ==> (#[trigger] seams@[j])@.len() == height,
            forall|j: int, i: int| 0 <= j < k && 0 <= i < height ==> #[trigger] sv[j][i] + j < width,
        decreases seams@.len() - k,
    {
        let columns = seams[k].columns();
        let mut i: usize = 0;
        while i < columns.len()
            invariant
                k < seams@.len(),
                height == image@.height(),
                sv == seam_views(seams@),
                forall|j: int| 0 <= j < seams@.len() ==> (#[trigger] seams@[j])@.len() == height,
                i <= columns@.len(),
                columns@ == sv[k as int],
                columns@.len() == height,
                width == image@.width,
                forall|j: int| 0 <= j < i ==> #[trigger] columns@[j] + k < width,
            decreases columns@.len() - i,
        {
            let col = columns[i];
            if col >= width || k >= (width - col) as usize {
                proof {
                    assert(sv[k as int][i as int] + k >= width);
                    assert(!seams_fit(sv, image@.width, image@.height()));
                }
                return Err(SeamError::InvalidArgument);
            }
            i += 1;
        }
        proof {
            assert forall|j: int, i: int| 0 <= j < k + 1 && 0 <= i < height implies #[trigger] sv[j][i] + j < width by {
                if j == k {
                    assert(sv[j][i] == columns@[i]);
                }
            }
        }
        k += 1;
    }
    let ghost img = image@;
    let ghost target = drawn(img, sv);
    let n = seams.len();
    let src = image.rows();
    let mut rows: Vec<Vec<Rgb>> = Vec::new();
    let mut y: u32 = 0;
    while y < height
        invariant
            img == image@,
            img.wf(),
            width == img.width,
            height == img.height(),
            rows_model(src@) == img.rows,
            n == seams@.len(),
            sv == seam_views(seams@),
            seams_fit(sv, img.width, img.height()),
            target == drawn(img, sv),
            y <= height,
            rows@.len() == y,
            forall|i: int| 0 <= i < y ==> (#[trigger] rows@[i])@ == target.rows[i],
        decreases height - y,
    {
        let line = &src[y as usize];
        proof {
            assert(line@ == img.rows[y as int]);
        }
        let mut row: Vec<Rgb> = Vec::new();
        let mut x: usize = 0;
        while x < line.len()
            invariant
                x <= line@.len(),
                line@.len() == width,
                row@.len() == x,
                forall|j: int| 0 <= j < x ==> #[trigger] row@[j] == gray_to_rgb(line@[j]),
            decreases line@.len() - x,
        {
            let v = line[x];
            row.push(Rgb { r: v, g: v, b: v });
            x += 1;
        }
        let mut taken: Vec<bool> = Vec::new();
        let mut c: u32 = 0;
        while c < width
            invariant
                c <= width,
                taken@ =~= Seq::new(c as nat, |i: int| false),
            decreases width - c,
        {
            taken.push(false);
            c += 1;
        }
        proof {
            lemma_free_from_untaken(width as nat, 0);
        }
        let mut k: usize = 0;
        while k < n
            invariant
                img.wf(),
                width == img.width,
                height == img.height(),
                line@ == img.rows[y as int],
                y < height,
                n == seams@.len(),
                sv == seam_views(seams@),
                seams_fit(sv, img.width, img.height()),
                k <= n,
                taken@ == row_taken(sv, width as nat, height as int, y as int, k as int),
                taken@.len() == width,
                free_from(taken@, 0) == width - k,
                row@.len() == width,
                forall|j: int| 0 <= j < width ==> #[trigger] row@[j] == (
                    if taken@[j] { seam_mark() } else { gray_to_rgb(line@[j]) }),
            decreases n - k,
        {
            let columns = seams[k].columns();
            proof {
                assert(columns@ == sv[k as int]);
                assert(sv[k as int].len() == height);
                assert(sv[k as int][height - 1 - y] + k < width);
            }
            let x = columns[(height - 1 - y) as usize];
            let mut left: u32 = x;
            let mut c: usize = 0;
            while c < taken.len() && (taken[c] || left > 0)
                invariant
                    taken@.len() == width,
                    0 <= c <= width,
                    left < free_from(taken@, c as int),
                    nth_free_from(taken@, left as int, c as int) == nth_free_from(taken@, x as int, 0),
                decreases width - c,
            {
                if !taken[c] {
                    left -= 1;
                }
                c += 1;
            }
            proof {
                if c == width {
                    assert(free_from(taken@, c as int) == 0);
                }
                assert(nth_free_from(taken@, left as int, c as int) == c);
                lemma_nth_free_from(taken@, x as int, 0);
                lemma_free_after_take(taken@, c as int, 0);
            }
            let ghost prior = taken@;
            let ghost old_row = row@;
            taken.set(c, true);
            row.set(c, Rgb { r: 255, g: 0, b: 0 });
            proof {
                assert(taken@ == row_taken(sv, width as nat, height as int, y as int, k + 1));
                assert forall|j: int| 0 <= j < width implies #[trigger] row@[j] == (
                    if taken@[j] { seam_mark() } else { gray_to_rgb(line@[j]) }) by {
                    if j != c {
                        assert(row@[j] == old_row[j]);
                        assert(taken@[j] == prior[j]);
                    }
                }
            }
            k += 1;
        }
        proof {
            assert(taken@ == row_taken(sv, img.width, img.height() as int, y as int, seams@.len() as int));
        }
        proof {
            assert(row@ =~= target.rows[y as int]);
        }
        rows.push(row);
        y += 1;
    }
    let ghost model = Raster { width: width as nat, rows: rows_model(rows@) };
    assert(model =~= target) by {
        assert(model.rows =~= target.rows) by {
            assert forall|i: int| 0 <= i < model.rows.len() implies model.rows[i] == target.rows[i] by {
                assert(model.rows[i] == rows@[i]@);
            }
        }
    }
    Ok(Grid::from_valid_rows(width, rows))
}

/// Drawing a single seam onto the image it was removed from marks exactly one
/// pixel per row, at the seam's own column for that row.
pub proof fn lemma_draw_single_seam(img: Raster<u8>, seam: Seq<u32>)
    requires
        img.wf(),
        seams_fit(seq![seam], img.width, img.height()),
    ensures
        forall|x: int, y: int| 0 <= x < img.width && 0 <= y < img.height() ==>
            (#[trigger] drawn(img, seq![seam]).at(x, y) == seam_mark() <==> x == seam[img.height() - 1 - y]),
{
    let h = img.height() as int;
    let w = img.width;
    assert forall|x: int, y: int| 0 <= x < w && 0 <= y < h implies
        (#[trigger] drawn(img, seq![seam]).at(x, y) == seam_mark() <==> x == seam[h - 1 - y]) by {
        assert(seq![seam][0] == seam);
        assert(seq![seam][0][h - 1 - y] + 0 < w);
        let none = row_taken(seq![seam], w, h, y, 0);
        assert(none == Seq::new(w, |i: int| false));
        lemma_nth_free_from_untaken(w, seam[h - 1 - y] as int, 0);
        let taken = row_taken(seq![seam], w, h, y, 1);
        assert(taken == none.update(seam[h - 1 - y] as int, true));
        assert(gray_to_rgb(img.at(x, y)) != seam_mark());
    }
}

} // verus!
