use seam_carving::{
    CarveError, Pixel, RemoveError, SeamStep, carve_vertical_seams, compute_energy_weights,
    find_min_seam_path, remove_vertical_seam, sobel_energy,
};

fn px(v: u8) -> Pixel {
    Pixel { r: v, g: v, b: v }
}

fn seam_cols(seam: &[SeamStep]) -> Vec<usize> {
    seam.iter().map(|s| s.col).collect()
}

fn count_pixel(row: &[Pixel], p: Pixel) -> usize {
    row.iter().filter(|&&q| q == p).count()
}

#[test]
fn find_seam_single_pixel() {
    let weights: Vec<Vec<u32>> = vec![vec![5]];
    let seam = find_min_seam_path(&weights);
    assert_eq!(seam.len(), 1);
    assert_eq!(seam[0], SeamStep { col: 0, row: 0 });
}

#[test]
fn find_seam_empty_grids() {
    let no_rows: Vec<Vec<u32>> = Vec::new();
    assert!(find_min_seam_path(&no_rows).is_empty());
    let no_cols: Vec<Vec<u32>> = vec![Vec::new(), Vec::new()];
    assert!(find_min_seam_path(&no_cols).is_empty());
}

#[test]
fn find_seam_threaded_path() {
    let weights: Vec<Vec<u32>> = vec![vec![9, 9, 0], vec![9, 0, 9], vec![9, 9, 0]];
    let seam = find_min_seam_path(&weights);
    assert_eq!(seam_cols(&seam), vec![2, 1, 2]);
    for (i, step) in seam.iter().enumerate() {
        assert_eq!(step.row, i);
    }
}

#[test]
fn find_seam_uniform_zero_prefers_leftmost() {
    // A 5-wide, 4-tall all-zero energy grid: ties always break toward
    // the lowest column, so the seam hugs column 0.
    let weights: Vec<Vec<u32>> = vec![vec![0; 5], vec![0; 5], vec![0; 5], vec![0; 5]];
    let seam = find_min_seam_path(&weights);
    assert_eq!(seam_cols(&seam), vec![0, 0, 0, 0]);
    for (i, step) in seam.iter().enumerate() {
        assert_eq!(step.row, i);
    }
}

#[test]
fn find_seam_single_column() {
    let weights: Vec<Vec<u32>> = vec![vec![7], vec![3], vec![4]];
    let seam = find_min_seam_path(&weights);
    assert_eq!(seam_cols(&seam), vec![0, 0, 0]);
}

#[test]
fn find_seam_single_row_ties_break_low() {
    let weights: Vec<Vec<u32>> = vec![vec![4, 2, 2, 9]];
    let seam = find_min_seam_path(&weights);
    assert_eq!(seam_cols(&seam), vec![1]);
}

#[test]
fn find_seam_structure() {
    let weights: Vec<Vec<u32>> = vec![
        vec![3, 1, 4, 1, 5],
        vec![9, 2, 6, 5, 3],
        vec![5, 8, 9, 7, 9],
        vec![3, 2, 3, 8, 4],
    ];
    let seam = find_min_seam_path(&weights);
    assert_eq!(seam.len(), 4);
    for (i, step) in seam.iter().enumerate() {
        assert_eq!(step.row, i);
        assert!(step.col < 5);
    }
    for pair in seam.windows(2) {
        let a = pair[0].col as i64;
        let b = pair[1].col as i64;
        assert!((a - b).abs() <= 1);
    }
}

#[test]
fn energy_uniform_grid_is_zero() {
    let image: Vec<Vec<Pixel>> = vec![vec![px(7); 4]; 3];
    let weights = compute_energy_weights(&image);
    assert_eq!(weights.len(), 3);
    for row in &weights {
        assert_eq!(row.len(), 4);
        for &w in row {
            assert_eq!(w, 0);
        }
    }
}

#[test]
fn energy_black_white_pair() {
    // One row, black then white: on either pixel the clamped left
    // column samples are all black and the right column all white, so
    // each channel contributes |0 - 4 * 255| = 1020.
    let image: Vec<Vec<Pixel>> = vec![vec![px(0), px(255)]];
    let weights = compute_energy_weights(&image);
    assert_eq!(weights, vec![vec![3060, 3060]]);
    assert_eq!(sobel_energy(&image, 0, 0), 3060);
    assert_eq!(sobel_energy(&image, 1, 0), 3060);
}

#[test]
fn remove_seam_excises_one_pixel_per_row() {
    let image: Vec<Vec<Pixel>> = vec![
        vec![px(1), px(2), px(3)],
        vec![px(4), px(5), px(6)],
    ];
    let seam = vec![SeamStep { col: 1, row: 0 }, SeamStep { col: 2, row: 1 }];
    let out = remove_vertical_seam(&image, &seam).unwrap();
    assert_eq!(out, vec![vec![px(1), px(3)], vec![px(4), px(5)]]);
}

#[test]
fn remove_seam_reinsert_recovers_rows() {
    let original: Vec<Vec<Pixel>> = vec![
        vec![px(10), px(20), px(30), px(40)],
        vec![px(50), px(60), px(70), px(80)],
    ];
    let seam = vec![SeamStep { col: 2, row: 0 }, SeamStep { col: 1, row: 1 }];
    let out = remove_vertical_seam(&original, &seam).unwrap();
    for (i, step) in seam.iter().enumerate() {
        let mut rebuilt = out[i].clone();
        rebuilt.insert(step.col, original[i][step.col]);
        assert_eq!(rebuilt, original[i]);
    }
}

#[test]
fn remove_seam_width_one_fails() {
    let image: Vec<Vec<Pixel>> = vec![vec![px(1)]];
    let seam = vec![SeamStep { col: 0, row: 0 }];
    assert_eq!(remove_vertical_seam(&image, &seam), Err(RemoveError::WidthExhausted));
}

#[test]
fn remove_seam_length_mismatch() {
    let image: Vec<Vec<Pixel>> = vec![vec![px(1), px(2)], vec![px(3), px(4)]];
    let seam = vec![SeamStep { col: 0, row: 0 }];
    assert_eq!(
        remove_vertical_seam(&image, &seam),
        Err(RemoveError::SeamLengthMismatch { seam_len: 1, height: 2 })
    );
}

#[test]
fn remove_seam_row_mismatch() {
    let image: Vec<Vec<Pixel>> = vec![vec![px(1), px(2)], vec![px(3), px(4)]];
    let seam = vec![SeamStep { col: 0, row: 1 }, SeamStep { col: 0, row: 1 }];
    assert_eq!(
        remove_vertical_seam(&image, &seam),
        Err(RemoveError::SeamRowMismatch { row: 0 })
    );
}

#[test]
fn remove_seam_column_out_of_bounds() {
    let image: Vec<Vec<Pixel>> = vec![vec![px(1), px(2)], vec![px(3), px(4)]];
    let seam = vec![SeamStep { col: 5, row: 0 }, SeamStep { col: 0, row: 1 }];
    assert_eq!(
        remove_vertical_seam(&image, &seam),
        Err(RemoveError::SeamColumnOutOfBounds { col: 5, width: 2 })
    );
}

#[test]
fn carve_shrinks_width_keeps_height() {
    let image: Vec<Vec<Pixel>> = (0..3)
        .map(|r| (0..6).map(|c| px((r * 6 + c) as u8)).collect())
        .collect();
    let out = carve_vertical_seams(image, 2).unwrap();
    assert_eq!(out.len(), 3);
    for row in &out {
        assert_eq!(row.len(), 4);
    }
}

#[test]
fn carve_zero_seams_returns_input() {
    let image: Vec<Vec<Pixel>> = vec![vec![px(1), px(2)], vec![px(3), px(4)]];
    let out = carve_vertical_seams(image.clone(), 0).unwrap();
    assert_eq!(out, image);
}

#[test]
fn carve_is_deterministic() {
    let image: Vec<Vec<Pixel>> = (0..4)
        .map(|r| (0..5).map(|c| px((r * 53 + c * 17) as u8)).collect())
        .collect();
    let a = carve_vertical_seams(image.clone(), 3).unwrap();
    let b = carve_vertical_seams(image, 3).unwrap();
    assert_eq!(a, b);
}

#[test]
fn carve_one_seam_from_4x3_keeps_row_multisets() {
    // Carving one seam from a 4-wide, 3-tall grid: each output row
    // holds the original row's pixels minus exactly one of them.
    let image: Vec<Vec<Pixel>> = (0..3)
        .map(|r| (0..4).map(|c| px((r * 4 + c) as u8)).collect())
        .collect();
    let out = carve_vertical_seams(image.clone(), 1).unwrap();
    assert_eq!(out.len(), 3);
    for (orig, carved) in image.iter().zip(out.iter()) {
        assert_eq!(carved.len(), 3);
        let mut missing = 0;
        for &p in orig {
            let before = count_pixel(orig, p);
            let after = count_pixel(carved, p);
            assert!(after == before || after + 1 == before);
            if after + 1 == before {
                missing += 1;
            }
        }
        // Pixels in these rows are pairwise distinct, so exactly one
        // value lost exactly one occurrence.
        assert_eq!(missing, 1);
    }
}

#[test]
fn carve_too_many_seams_fails_at_exhaustion() {
    let image: Vec<Vec<Pixel>> = vec![vec![px(1), px(2), px(3)], vec![px(4), px(5), px(6)]];
    let err = carve_vertical_seams(image, 5).unwrap_err();
    assert_eq!(err, CarveError { iteration: 2, cause: RemoveError::WidthExhausted });
}

#[test]
fn carve_empty_grid_fails_immediately() {
    let image: Vec<Vec<Pixel>> = Vec::new();
    let err = carve_vertical_seams(image, 1).unwrap_err();
    assert_eq!(err, CarveError { iteration: 0, cause: RemoveError::WidthExhausted });
}

#[test]
fn carve_uniform_grid_drops_leftmost_columns() {
    // Uniform pixels give an all-zero energy grid, so every seam is
    // the leftmost column.
    let image: Vec<Vec<Pixel>> = vec![vec![px(9); 5]; 4];
    let out = carve_vertical_seams(image, 2).unwrap();
    assert_eq!(out, vec![vec![px(9); 3]; 4]);
}

#[test]
fn energy_single_row_gradient() {
    // One row [10, 20, 40] in grayscale: with edge clamping, the pixel
    // at x sees the clamped left column four times against the clamped
    // right column four times, so each energy is 3 * 4 * |left - right|.
    let image: Vec<Vec<Pixel>> = vec![vec![px(10), px(20), px(40)]];
    let weights = compute_energy_weights(&image);
    assert_eq!(weights, vec![vec![120, 360, 240]]);
}

#[test]
fn find_seam_beats_every_other_path() {
    let weights: Vec<Vec<u32>> = vec![vec![1, 2, 3], vec![3, 2, 1], vec![2, 1, 3]];
    let seam = find_min_seam_path(&weights);
    assert_eq!(seam_cols(&seam), vec![0, 1, 1]);
    let seam_total: u32 = seam.iter().map(|s| weights[s.row][s.col]).sum();
    assert_eq!(seam_total, 4);
    // Brute force over all column triples that form a valid path.
    let mut best = u32::MAX;
    for c0 in 0..3usize {
        for c1 in 0..3usize {
            for c2 in 0..3usize {
                let adjacent = c0.abs_diff(c1) <= 1 && c1.abs_diff(c2) <= 1;
                if adjacent {
                    best = best.min(weights[0][c0] + weights[1][c1] + weights[2][c2]);
                }
            }
        }
    }
    assert_eq!(seam_total, best);
}
