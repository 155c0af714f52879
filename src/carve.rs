//! Removing seams from an image.
use vstd::prelude::*;
use crate::raster::{rows_model, GrayImage, Grid, Raster};
use crate::gradient::sobel_gradients;
use crate::seam::{find_vertical_seam, is_valid_seam, lemma_traced_seam_valid, seam_of, SeamError, VerticalSeam};

verus! {

/// `row` without its entry at `c`.
pub open spec fn without<T>(row: Seq<T>, c: int) -> Seq<T> {
    row.subrange(0, c) + row.subrange(c + 1, row.len() as int)
}

/// Every column of `seam` lies inside `width` columns.
pub open spec fn seam_fits(seam: Seq<u32>, width: nat) -> bool {
    forall|k: int| 0 <= k < seam.len() ==> #[trigger] seam[k] < width
}

/// `img` with the pixel of `seam` taken out of each row, the pixels to its
/// right moving one column left. Row `y` loses column `seam[height - 1 - y]`.
pub open spec fn without_seam<T>(img: Raster<T>, seam: Seq<u32>) -> Raster<T> {
    Raster {
        width: (img.width - 1) as nat,
        rows: Seq::new(img.height(), |y: int| without(img.rows[y], seam[img.height() - 1 - y] as int)),
    }
}

/// The image that removing `seam` from `image` leaves.
/// Fails with `LengthMismatch` when the seam's length differs from the
/// image height, and else with `InvalidArgument` when the image is under two
/// columns wide or a column of the seam lies outside it.
pub fn remove_vertical_seam(image: &GrayImage, seam: &VerticalSeam) -> (r: Result<GrayImage, SeamError>)
    ensures
        seam@.len() != image@.height() <==> r matches Err(SeamError::LengthMismatch),
        seam@.len() == image@.height() && (image@.width < 2 || !seam_fits(seam@, image@.width))
            <==> r matches Err(SeamError::InvalidArgument),
        !(r matches Err(SeamError::DegenerateState)),
        r matches Ok(out) ==> out@ == without_seam(image@, seam@) && out@.wf(),
{
    let width = image.width();
    let height = image.height();
    let columns = seam.columns();
    if columns.len() != height as usize {
        return Err(SeamError::LengthMismatch);
    }
    if width < 2 {
        return Err(SeamError::InvalidArgument);
    }
    let mut k: usize = 0;
    while k < columns.len()
        invariant
            k <= columns@.len(),
            columns@ == seam@,
            width == image@.width,
            height == image@.height(),
            columns@.len() == height,
            forall|j: int| 0 <= j < k ==> #[trigger] columns@[j] < width,
        decreases columns@.len() - k,
    {
        if columns[k] >= width {
            assert(seam@[k as int] >= image@.width);
            return Err(SeamError::InvalidArgument);
        }
        k += 1;
    }
    let src = image.rows();
    let ghost img = image@;
    let ghost target = without_seam(img, seam@);
    let mut rows: Vec<Vec<u8>> = Vec::new();
    let mut y: u32 = 0;
    while y < height
        invariant
            img.wf(),
            width == img.width,
            width >= 2,
            height == img.height(),
            rows_model(src@) == img.rows,
            columns@ == seam@,
            columns@.len() == height,
            seam_fits(seam@, img.width),
            target == without_seam(img, seam@),
            y <= height,
            rows@.len() == y,
            forall|i: int| 0 <= i < y ==> (#[trigger] rows@[i])@ == target.rows[i],
        decreases height - y,
    {
        let ghost src_row = img.rows[y as int];
        let line = &src[y as usize];
        let cut = columns[(height - y - 1) as usize];
        proof {
            assert(line@ == src_row);
            assert(src_row.len() == width);
            assert(cut < width);
        }
        let mut row: Vec<u8> = Vec::new();
        let mut x: u32 = 0;
        while x < cut
            invariant
                x <= cut < width,
                line@ == src_row,
                src_row.len() == width,
                row@ =~= src_row.subrange(0, x as int),
            decreases cut - x,
        {
            row.push(line[x as usize]);
            x += 1;
        }
        x = cut + 1;
        while x < width
            invariant
                cut < x <= width,
                line@ == src_row,
                src_row.len() == width,
                row@ =~= src_row.subrange(0, cut as int) + src_row.subrange(cut + 1, x as int),
            decreases width - x,
        {
            row.push(line[x as usize]);
            x += 1;
        }
        proof {
            assert(row@ =~= target.rows[y as int]);
        }
        rows.push(row);
        y += 1;
    }
    let ghost model = Raster { width: (width - 1) as nat, rows: rows_model(rows@) };
    assert(model =~= target) by {
        assert(model.rows =~= target.rows) by {
            assert forall|i: int| 0 <= i < model.rows.len() implies model.rows[i] == target.rows[i] by {
                assert(model.rows[i] == rows@[i]@);
            }
        }
    }
    assert forall|i: int| 0 <= i < model.rows.len() implies (#[trigger] model.rows[i]).len() == model.width by {
        assert(img.rows[i].len() == width);
    }
    Ok(Grid::from_valid_rows(width - 1, rows))
}

/// `img` with its next seam removed.
pub open spec fn carve_once(img: Raster<u8>) -> Raster<u8> {
    without_seam(img, seam_of(img))
}

/// `img` after `n` seams were found and removed in turn.
pub open spec fn shrunk(img: Raster<u8>, n: nat) -> Raster<u8>
    decreases n,
{
    if n == 0 {
        img
    } else {
        carve_once(shrunk(img, (n - 1) as nat))
    }
}

/// Narrows `image` to `target_width` columns by removing seams one at a
/// time, each found in the image that the previous removal left.
/// Fails with `InvalidArgument` when `target_width` exceeds the image width,
/// with `DegenerateState` when it is zero below a nonzero width, and with
/// `InvalidArgument` when seams are to be removed from an image with no row.
pub fn shrink_width(image: &GrayImage, target_width: u32) -> (r: Result<GrayImage, SeamError>)
    ensures
        r matches Err(SeamError::InvalidArgument) <==> target_width > image@.width
            || (0 < target_width < image@.width && image@.height() == 0),
        r matches Err(SeamError::DegenerateState) <==> target_width == 0 && image@.width > 0,
        !(r matches Err(SeamError::LengthMismatch)),
        r matches Ok(out) ==> {
            &&& out@ == shrunk(image@, (image@.width - target_width) as nat)
            &&& out@.wf()
            &&& out@.width == target_width
            &&& out@.height() == image@.height()
        },
{
    let width = image.width();
    let height = image.height();
    if target_width > width {
        return Err(SeamError::InvalidArgument);
    }
    if target_width == 0 && width > 0 {
        return Err(SeamError::DegenerateState);
    }
    if target_width < width && height == 0 {
        return Err(SeamError::InvalidArgument);
    }
    let iterations = width - target_width;
    let mut result = image.duplicate();
    let mut i: u32 = 0;
    while i < iterations
        invariant
            iterations == width - target_width,
            width == image@.width,
            height == image@.height(),
            target_width >= 1 || width == 0,
            iterations > 0 ==> height >= 1,
            i <= iterations,
            result@ == shrunk(image@, i as nat),
            result@.wf(),
            result@.width == width - i,
            result@.height() == height,
        decreases iterations - i,
    {
        let seam = match find_vertical_seam(&result) {
            Ok(seam) => seam,
            Err(err) => return Err(err),
        };
        let next = match remove_vertical_seam(&result, &seam) {
            Ok(next) => next,
            Err(err) => return Err(err),
        };
        result = next;
        i += 1;
    }
    Ok(result)
}

/// Removing the seam traced in an image of at least two columns and one row
/// leaves an image one column narrower and as high, in which each row keeps
/// the pixels left of the seam in place and those right of it, in order, one
/// column further left.
pub proof fn lemma_remove_traced_seam(img: Raster<u8>)
    requires
        img.wf(),
        img.width >= 2,
        img.height() >= 1,
    ensures
        is_valid_seam(seam_of(img), img.width, img.height()),
        seam_fits(seam_of(img), img.width),
        without_seam(img, seam_of(img)).wf(),
        without_seam(img, seam_of(img)).width == img.width - 1,
        without_seam(img, seam_of(img)).height() == img.height(),
        forall|x: int, y: int| 0 <= x < img.width - 1 && 0 <= y < img.height() ==>
            #[trigger] without_seam(img, seam_of(img)).at(x, y) == (
                if x < seam_of(img)[img.height() - 1 - y] { img.at(x, y) } else { img.at(x + 1, y) }),
{
    lemma_traced_seam_valid(sobel_gradients(img));
    lemma_remove_keeps_order(img, seam_of(img));
}

/// Removing a seam that fits the image keeps, in each row, the pixels left of
/// the seam in place and moves those right of it one column left, in order.
pub proof fn lemma_remove_keeps_order(img: Raster<u8>, seam: Seq<u32>)
    requires
        img.wf(),
        img.width >= 1,
        seam.len() == img.height(),
        seam_fits(seam, img.width),
    ensures
        without_seam(img, seam).wf(),
        without_seam(img, seam).width == img.width - 1,
        without_seam(img, seam).height() == img.height(),
        forall|x: int, y: int| 0 <= x < img.width - 1 && 0 <= y < img.height() ==>
            #[trigger] without_seam(img, seam).at(x, y) == (
                if x < seam[img.height() - 1 - y] { img.at(x, y) } else { img.at(x + 1, y) }),
{
    let out = without_seam(img, seam);
    assert forall|y: int| 0 <= y < out.rows.len() implies (#[trigger] out.rows[y]).len() == out.width by {
        assert(seam[img.height() - 1 - y] < img.width);
        assert(img.rows[y].len() == img.width);
    }
    assert forall|x: int, y: int| 0 <= x < img.width - 1 && 0 <= y < img.height() implies
        #[trigger] out.at(x, y) == (if x < seam[img.height() - 1 - y] { img.at(x, y) } else { img.at(x + 1, y) }) by {
        assert(seam[img.height() - 1 - y] < img.width);
        assert(img.rows[y].len() == img.width);
    }
}

/// Shrinking an image to its own width removes no seam: the image comes back
/// unchanged.
pub proof fn lemma_shrink_to_own_width(img: Raster<u8>)
    ensures
        shrunk(img, (img.width - img.width) as nat) == img,
{
}

} // verus!
