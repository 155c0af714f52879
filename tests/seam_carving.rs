use seam_carving::{
    accumulate, draw_vertical_seams, find_seam_in_energy, find_vertical_seam, remove_vertical_seam,
    shrink_width, sobel_gradient_map, EnergyGrid, GrayImage, Rgb, SeamError, VerticalSeam,
};

fn gray(width: u32, rows: Vec<Vec<u8>>) -> GrayImage {
    GrayImage::from_rows(width, rows).expect("rows of equal width")
}

fn energy(width: u32, rows: Vec<Vec<u32>>) -> EnergyGrid {
    EnergyGrid::from_rows(width, rows).expect("rows of equal width")
}

fn pattern(width: u32, height: u32) -> GrayImage {
    let mut rows = Vec::new();
    for y in 0..height {
        let mut row = Vec::new();
        for x in 0..width {
            row.push(((x * 37 + y * 91 + x * y * 13) % 256) as u8);
        }
        rows.push(row);
    }
    gray(width, rows)
}

fn assert_valid_seam(seam: &VerticalSeam, width: u32, height: u32) {
    let cols = seam.columns();
    assert_eq!(cols.len(), height as usize);
    for (k, c) in cols.iter().enumerate() {
        assert!(*c < width);
        if k > 0 {
            let d = *c as i64 - cols[k - 1] as i64;
            assert!((-1..=1).contains(&d));
        }
    }
}

#[test]
fn from_rows_rejects_ragged_rows() {
    assert!(GrayImage::from_rows(2, vec![vec![1, 2], vec![3]]).is_none());
    assert!(GrayImage::from_rows(2, vec![vec![1, 2], vec![3, 4]]).is_some());
}

#[test]
fn accumulate_scenario_grid() {
    let e = energy(3, vec![vec![1, 5, 1], vec![1, 1, 1], vec![5, 1, 1]]);
    let acc = accumulate(&e);
    assert_eq!(acc.into_rows(), vec![vec![1, 5, 1], vec![2, 2, 2], vec![7, 3, 3]]);
}

#[test]
fn trace_scenario_grid_is_left_biased() {
    let e = energy(3, vec![vec![1, 5, 1], vec![1, 1, 1], vec![5, 1, 1]]);
    let seam = find_seam_in_energy(&e).unwrap();
    assert_eq!(seam.columns(), &vec![1, 1, 0]);
}

#[test]
fn trace_prefers_up_on_tie_with_left() {
    // From column 1 of the bottom row, up-left and up tie: up is kept.
    let e = energy(3, vec![vec![2, 2, 9], vec![9, 0, 9]]);
    let seam = find_seam_in_energy(&e).unwrap();
    assert_eq!(seam.columns(), &vec![1, 1]);
}

#[test]
fn trace_takes_strictly_smaller_right() {
    let e = energy(3, vec![vec![9, 5, 4], vec![9, 0, 9]]);
    let seam = find_seam_in_energy(&e).unwrap();
    assert_eq!(seam.columns(), &vec![1, 2]);
}

#[test]
fn trace_rejects_narrow_or_empty_grid() {
    let narrow = energy(1, vec![vec![1], vec![2]]);
    assert!(matches!(find_seam_in_energy(&narrow), Err(SeamError::InvalidArgument)));
    let flat = energy(3, vec![]);
    assert!(matches!(find_seam_in_energy(&flat), Err(SeamError::InvalidArgument)));
}

#[test]
fn sobel_of_flat_image_is_zero() {
    let img = gray(3, vec![vec![7, 7, 7], vec![7, 7, 7]]);
    let g = sobel_gradient_map(&img);
    assert_eq!(g.into_rows(), vec![vec![0, 0, 0], vec![0, 0, 0]]);
}

#[test]
fn sobel_of_vertical_edge() {
    // Columns 0 and 1 dark, column 2 bright; edges repeat.
    let img = gray(3, vec![vec![0, 0, 10]; 3]);
    let g = sobel_gradient_map(&img);
    // At x = 0: right sample 0, left sample 0 -> 0. At x = 1: (10 - 0) * 4 = 40.
    // At x = 2: right sample (clamped) 10, left 0 -> 40.
    assert_eq!(g.into_rows(), vec![vec![0, 40, 40]; 3]);
}

#[test]
fn sobel_magnitude_rounds_down() {
    // gx = 4 * 3 = 12 and gy = 4 * 3 = 12 at the centre: sqrt(288) = 16.97...
    let img = gray(3, vec![vec![0, 0, 3], vec![0, 0, 3], vec![3, 3, 6]]);
    let g = sobel_gradient_map(&img);
    let c = g.get_pixel(1, 1);
    let gx: i64 = (3 - 0) + 2 * (3 - 0) + (6 - 3);
    let gy: i64 = (3 + 2 * 3 + 6) - (0 + 0 + 3);
    let expected = ((gx * gx + gy * gy) as f64).sqrt() as u32;
    assert_eq!(c, expected);
    assert_eq!(c, 16);
}

#[test]
fn find_seam_is_valid() {
    let img = pattern(7, 5);
    let seam = find_vertical_seam(&img).unwrap();
    assert_valid_seam(&seam, 7, 5);
}

#[test]
fn find_seam_follows_dark_column() {
    // A flat image with one dark column far from the bright ones: the seam
    // runs through the flat area, where the gradient is zero.
    let img = gray(5, vec![vec![0, 0, 0, 200, 200]; 4]);
    let seam = find_vertical_seam(&img).unwrap();
    assert_eq!(seam.columns(), &vec![0, 0, 0, 0]);
}

#[test]
fn find_seam_is_deterministic() {
    let img = pattern(9, 6);
    let a = find_vertical_seam(&img).unwrap();
    let b = find_vertical_seam(&img).unwrap();
    assert_eq!(a.columns(), b.columns());
}

#[test]
fn find_seam_on_two_columns() {
    let img = pattern(2, 4);
    let seam = find_vertical_seam(&img).unwrap();
    assert_valid_seam(&seam, 2, 4);
}

#[test]
fn find_seam_on_one_column_fails() {
    let img = gray(1, vec![vec![3], vec![4]]);
    assert!(matches!(find_vertical_seam(&img), Err(SeamError::InvalidArgument)));
}

#[test]
fn remove_seam_shifts_pixels_left() {
    let img = gray(3, vec![vec![1, 2, 3], vec![4, 5, 6], vec![7, 8, 9]]);
    // Bottom row loses column 2, middle row column 1, top row column 0.
    let seam = VerticalSeam::from_columns(vec![2, 1, 0]);
    let out = remove_vertical_seam(&img, &seam).unwrap();
    assert_eq!(out.width(), 2);
    assert_eq!(out.height(), 3);
    assert_eq!(out.into_rows(), vec![vec![2, 3], vec![4, 6], vec![7, 8]]);
}

#[test]
fn remove_traced_seam_keeps_order() {
    let img = pattern(6, 4);
    let seam = find_vertical_seam(&img).unwrap();
    let out = remove_vertical_seam(&img, &seam).unwrap();
    assert_eq!(out.width(), 5);
    assert_eq!(out.height(), 4);
    let cols = seam.columns();
    for y in 0..4u32 {
        let cut = cols[(4 - 1 - y) as usize];
        for x in 0..5u32 {
            let src_x = if x < cut { x } else { x + 1 };
            assert_eq!(out.get_pixel(x, y), img.get_pixel(src_x, y));
        }
    }
}

#[test]
fn remove_seam_length_mismatch() {
    let img = pattern(3, 3);
    let seam = VerticalSeam::from_columns(vec![0, 0]);
    assert!(matches!(remove_vertical_seam(&img, &seam), Err(SeamError::LengthMismatch)));
}

#[test]
fn remove_seam_out_of_range_or_too_narrow() {
    let img = pattern(3, 2);
    let seam = VerticalSeam::from_columns(vec![0, 3]);
    assert!(matches!(remove_vertical_seam(&img, &seam), Err(SeamError::InvalidArgument)));
    let narrow = gray(1, vec![vec![1], vec![2]]);
    let seam = VerticalSeam::from_columns(vec![0, 0]);
    assert!(matches!(remove_vertical_seam(&narrow, &seam), Err(SeamError::InvalidArgument)));
}

#[test]
fn shrink_width_reaches_target() {
    let img = pattern(8, 5);
    let out = shrink_width(&img, 5).unwrap();
    assert_eq!(out.width(), 5);
    assert_eq!(out.height(), 5);
}

#[test]
fn shrink_width_matches_repeated_removal() {
    let img = pattern(6, 4);
    let mut current = img.duplicate();
    for _ in 0..2 {
        let seam = find_vertical_seam(&current).unwrap();
        current = remove_vertical_seam(&current, &seam).unwrap();
    }
    let out = shrink_width(&img, 4).unwrap();
    assert_eq!(out.into_rows(), current.into_rows());
}

#[test]
fn shrink_width_to_own_width_is_identity() {
    let img = pattern(4, 3);
    let out = shrink_width(&img, 4).unwrap();
    assert_eq!(out.into_rows(), img.into_rows());
}

#[test]
fn shrink_width_errors() {
    let img = pattern(4, 3);
    assert!(matches!(shrink_width(&img, 5), Err(SeamError::InvalidArgument)));
    assert!(matches!(shrink_width(&img, 0), Err(SeamError::DegenerateState)));
    let flat = gray(4, vec![]);
    assert!(matches!(shrink_width(&flat, 2), Err(SeamError::InvalidArgument)));
    assert_eq!(shrink_width(&flat, 4).unwrap().width(), 4);
}

#[test]
fn shrink_width_to_one_column() {
    let img = pattern(4, 3);
    let out = shrink_width(&img, 1).unwrap();
    assert_eq!(out.width(), 1);
    assert_eq!(out.height(), 3);
}

const RED: Rgb = Rgb { r: 255, g: 0, b: 0 };

#[test]
fn draw_single_seam_marks_its_columns() {
    let img = pattern(5, 4);
    let seam = find_vertical_seam(&img).unwrap();
    let cols = seam.columns().clone();
    let out = draw_vertical_seams(&img, &[seam]).unwrap();
    assert_eq!(out.width(), 5);
    assert_eq!(out.height(), 4);
    let mut marked = 0;
    for y in 0..4u32 {
        for x in 0..5u32 {
            let p = out.get_pixel(x, y);
            if x == cols[(4 - 1 - y) as usize] {
                assert_eq!(p, RED);
                marked += 1;
            } else {
                let v = img.get_pixel(x, y);
                assert_eq!(p, Rgb { r: v, g: v, b: v });
            }
        }
    }
    assert_eq!(marked, 4);
}

#[test]
fn draw_maps_later_seams_to_original_columns() {
    let img = gray(4, vec![vec![10, 20, 30, 40]]);
    // First seam removes column 1; the second, in the narrower image, names
    // column 1 again, which is original column 2.
    let seams = [VerticalSeam::from_columns(vec![1]), VerticalSeam::from_columns(vec![1])];
    let out = draw_vertical_seams(&img, &seams).unwrap();
    assert_eq!(
        out.into_rows(),
        vec![vec![Rgb { r: 10, g: 10, b: 10 }, RED, RED, Rgb { r: 40, g: 40, b: 40 }]]
    );
}

#[test]
fn draw_errors() {
    let img = pattern(3, 2);
    let short = [VerticalSeam::from_columns(vec![0])];
    assert!(matches!(draw_vertical_seams(&img, &short), Err(SeamError::LengthMismatch)));
    // The second seam was removed from a two-column image: column 2 is outside it.
    let outside = [VerticalSeam::from_columns(vec![0, 0]), VerticalSeam::from_columns(vec![2, 1])];
    assert!(matches!(draw_vertical_seams(&img, &outside), Err(SeamError::InvalidArgument)));
}

#[test]
fn draw_no_seams_is_gray_copy() {
    let img = gray(2, vec![vec![5, 6]]);
    let out = draw_vertical_seams(&img, &[]).unwrap();
    assert_eq!(out.into_rows(), vec![vec![Rgb { r: 5, g: 5, b: 5 }, Rgb { r: 6, g: 6, b: 6 }]]);
}

#[test]
fn draw_repeated_leftmost_seams_mark_distinct_columns() {
    let img = gray(4, vec![vec![10, 20, 30, 40]]);
    // Each seam takes the leftmost column of the image left by the ones before:
    // original columns 0, 1 and 2.
    let seams = [
        VerticalSeam::from_columns(vec![0]),
        VerticalSeam::from_columns(vec![0]),
        VerticalSeam::from_columns(vec![0]),
    ];
    let out = draw_vertical_seams(&img, &seams).unwrap();
    assert_eq!(out.into_rows(), vec![vec![RED, RED, RED, Rgb { r: 40, g: 40, b: 40 }]]);
}

#[test]
fn draw_matches_repeated_removal() {
    let img = pattern(7, 5);
    let mut current = img.duplicate();
    let mut seams = Vec::new();
    for _ in 0..4 {
        let seam = find_vertical_seam(&current).unwrap();
        current = remove_vertical_seam(&current, &seam).unwrap();
        seams.push(seam);
    }
    let out = draw_vertical_seams(&img, &seams).unwrap();
    for y in 0..5u32 {
        let mut kept = Vec::new();
        let mut red = 0;
        for x in 0..7u32 {
            let p = out.get_pixel(x, y);
            if p == RED {
                red += 1;
            } else {
                let v = img.get_pixel(x, y);
                assert_eq!(p, Rgb { r: v, g: v, b: v });
                kept.push(v);
            }
        }
        assert_eq!(red, 4);
        assert_eq!(kept, current.rows()[y as usize]);
    }
}
