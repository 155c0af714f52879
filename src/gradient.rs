//! Sobel gradient magnitudes of a grayscale image.
use vstd::prelude::*;
use crate::raster::{rows_model, EnergyGrid, GrayImage, Grid, Raster};

verus! {

/// `i` moved into `0..n`: coordinates outside the image take the nearest edge.
pub open spec fn clamp_index(i: int, n: int) -> int {
    if i < 0 {
        0
    } else if i >= n {
        n - 1
    } else {
        i
    }
}

/// The pixel at `(x, y)`, the image being extended past its edges by
/// repeating the edge pixels.
pub open spec fn sample(img: Raster<u8>, x: int, y: int) -> int {
    img.at(clamp_index(x, img.width as int), clamp_index(y, img.height() as int)) as int
}

/// Horizontal Sobel response at `(x, y)`.
pub open spec fn sobel_x(img: Raster<u8>, x: int, y: int) -> int {
    sample(img, x + 1, y - 1) - sample(img, x - 1, y - 1)
        + 2 * sample(img, x + 1, y) - 2 * sample(img, x - 1, y)
        + sample(img, x + 1, y + 1) - sample(img, x - 1, y + 1)
}

/// Vertical Sobel response at `(x, y)`.
pub open spec fn sobel_y(img: Raster<u8>, x: int, y: int) -> int {
    sample(img, x - 1, y + 1) + 2 * sample(img, x, y + 1) + sample(img, x + 1, y + 1)
        - sample(img, x - 1, y - 1) - 2 * sample(img, x, y - 1) - sample(img, x + 1, y - 1)
}

/// `r` is the square root of `n` rounded down.
pub open spec fn is_floor_sqrt(r: int, n: int) -> bool {
    0 <= r && r * r <= n < (r + 1) * (r + 1)
}

pub open spec fn floor_sqrt(n: int) -> int {
    choose|r: int| is_floor_sqrt(r, n)
}

/// Gradient magnitude at `(x, y)`: the length of the Sobel response vector,
/// rounded down.
pub open spec fn gradient_magnitude(img: Raster<u8>, x: int, y: int) -> int {
    floor_sqrt(sobel_x(img, x, y) * sobel_x(img, x, y) + sobel_y(img, x, y) * sobel_y(img, x, y))
}

/// The grid of gradient magnitudes of `img`.
pub open spec fn sobel_gradients(img: Raster<u8>) -> Raster<u32> {
    Raster {
        width: img.width,
        rows: Seq::new(img.height(), |y: int| Seq::new(img.width, |x: int| gradient_magnitude(img, x, y) as u32)),
    }
}

proof fn lemma_floor_sqrt_unique(a: int, b: int, n: int)
    requires
        is_floor_sqrt(a, n),
        is_floor_sqrt(b, n),
    ensures
        a == b,
{
    if a < b {
        assert((a + 1) * (a + 1) <= b * b) by (nonlinear_arith)
            requires 0 <= a, a + 1 <= b;
    } else if b < a {
        assert((b + 1) * (b + 1) <= a * a) by (nonlinear_arith)
            requires 0 <= b, b + 1 <= a;
    }
}

/// Square root of `n`, rounded down.
fn floor_sqrt_u64(n: u64) -> (r: u32)
    requires
        n < 2048 * 2048,
    ensures
        r == floor_sqrt(n as int),
        r < 2048,
{
    let mut lo: u64 = 0;
    let mut hi: u64 = 2048;
    while hi - lo > 1
        invariant
            lo < hi <= 2048,
            lo * lo <= n,
            n < hi * hi,
        decreases hi - lo,
    {
        let mid = lo + (hi - lo) / 2;
        assert(mid * mid <= 2048 * 2048) by (nonlinear_arith)
            requires mid <= 2048;
        if mid * mid <= n {
            lo = mid;
        } else {
            hi = mid;
        }
    }
    proof {
        assert(hi == lo + 1);
        assert(is_floor_sqrt(lo as int, n as int));
        lemma_floor_sqrt_unique(lo as int, floor_sqrt(n as int), n as int);
    }
    lo as u32
}

/// `i` moved into `0..n`.
fn clamp_coord(i: i64, n: u32) -> (r: usize)
    requires
        n >= 1,
    ensures
        r == clamp_index(i as int, n as int),
{
    if i < 0 {
        0
    } else if i >= n as i64 {
        (n - 1) as usize
    } else {
        i as usize
    }
}

/// Sobel gradient magnitude of every pixel of `image`, edges extended by
/// repeating the edge pixels.
pub fn sobel_gradient_map(image: &GrayImage) -> (r: EnergyGrid)
    ensures
        r@ == sobel_gradients(image@),
        r@.wf(),
{
    let width = image.width();
    let height = image.height();
    let src = image.rows();
    let ghost img = image@;
    let mut rows: Vec<Vec<u32>> = Vec::new();
    let mut y: u32 = 0;
    while y < height
        invariant
            img == image@,
            img.wf(),
            width == img.width,
            height == img.height(),
            rows_model(src@) == img.rows,
            y <= height,
            rows@.len() == y,
            forall|i: int| 0 <= i < y ==> (#[trigger] rows@[i])@ == sobel_gradients(img).rows[i],
        decreases height - y,
    {
        let mut row: Vec<u32> = Vec::new();
        let mut x: u32 = 0;
        while x < width
            invariant
                img.wf(),
                width == img.width,
                height == img.height(),
                rows_model(src@) == img.rows,
                y < height,
                x <= width,
                row@.len() == x,
                forall|j: int| 0 <= j < x ==> #[trigger] row@[j] == gradient_magnitude(img, j, y as int) as u32,
            decreases width - x,
        {
            let mut p: [[i64; 3]; 3] = [[0; 3]; 3];
            let mut dy: usize = 0;
            while dy < 3
                invariant
                    img.wf(),
                    width == img.width,
                    height == img.height(),
                    rows_model(src@) == img.rows,
                    y < height,
                    x < width,
                    dy <= 3,
                    forall|a: int, b: int| 0 <= a < dy && 0 <= b < 3 ==>
                        #[trigger] p@[a]@[b] == sample(img, x + b - 1, y + a - 1),
                decreases 3 - dy,
            {
                let sy = clamp_coord(y as i64 + dy as i64 - 1, height);
                let line = &src[sy];
                proof {
                    assert(line@ == img.rows[sy as int]);
                }
                let mut prow: [i64; 3] = [0; 3];
                let mut dx: usize = 0;
                while dx < 3
                    invariant
                        img.wf(),
                        width == img.width,
                        height == img.height(),
                        x < width,
                        sy < height,
                        sy == clamp_index(y + dy - 1, height as int),
                        line@ == img.rows[sy as int],
                        dx <= 3,
                        forall|b: int| 0 <= b < dx ==>
                            #[trigger] prow@[b] == sample(img, x + b - 1, y + dy - 1),
                    decreases 3 - dx,
                {
                    let sx = clamp_coord(x as i64 + dx as i64 - 1, width);
                    prow[dx] = line[sx] as i64;
                    dx += 1;
                }
                p[dy] = prow;
                dy += 1;
            }
            let gx = p[0][2] - p[0][0] + 2 * p[1][2] - 2 * p[1][0] + p[2][2] - p[2][0];
            let gy = p[2][0] + 2 * p[2][1] + p[2][2] - p[0][0] - 2 * p[0][1] - p[0][2];
            proof {
                assert(gx == sobel_x(img, x as int, y as int));
                assert(gy == sobel_y(img, x as int, y as int));
                assert(0 <= gx * gx <= 1020 * 1020) by (nonlinear_arith)
                    requires -1020 <= gx <= 1020;
                assert(0 <= gy * gy <= 1020 * 1020) by (nonlinear_arith)
                    requires -1020 <= gy <= 1020;
            }
            let magnitude = floor_sqrt_u64((gx * gx + gy * gy) as u64);
            row.push(magnitude);
            x += 1;
        }
        proof {
            assert(row@ =~= sobel_gradients(img).rows[y as int]);
        }
        rows.push(row);
        y += 1;
    }
    let ghost model = Raster { width: width as nat, rows: rows_model(rows@) };
    assert(model =~= sobel_gradients(img)) by {
        assert(model.rows =~= sobel_gradients(img).rows) by {
            assert forall|i: int| 0 <= i < model.rows.len() implies model.rows[i] == sobel_gradients(img).rows[i] by {
                assert(model.rows[i] == rows@[i]@);
            }
        }
    }
    Grid::from_valid_rows(width, rows)
}

} // verus!
