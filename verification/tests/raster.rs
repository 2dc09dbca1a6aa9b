use rtiow::raster::{Pixel, Raster};

#[test]
fn sixteen_by_nine_at_width_400_is_225_high() {
    assert_eq!(Raster::from_aspect(400, 16, 9), Some(Raster { width: 400, height: 225 }));
}

#[test]
fn height_is_rounded_down() {
    assert_eq!(Raster::from_aspect(401, 16, 9), Some(Raster { width: 401, height: 225 }));
    assert_eq!(Raster::from_aspect(10, 3, 1), Some(Raster { width: 10, height: 3 }));
    assert_eq!(Raster::from_aspect(1, 16, 9), Some(Raster { width: 1, height: 0 }));
}

#[test]
fn square_image() {
    assert_eq!(Raster::from_aspect(256, 1, 1), Some(Raster { width: 256, height: 256 }));
}

#[test]
fn zero_width_gives_empty_image() {
    assert_eq!(Raster::from_aspect(0, 16, 9), Some(Raster { width: 0, height: 0 }));
}

#[test]
fn ratio_with_zero_first_term_has_no_grid() {
    assert_eq!(Raster::from_aspect(400, 0, 9), None);
    assert_eq!(Raster::from_aspect(0, 0, 0), None);
}

#[test]
fn height_beyond_32_bits_has_no_grid() {
    assert_eq!(Raster::from_aspect(u32::MAX, 1, 2), None);
    assert_eq!(
        Raster::from_aspect(u32::MAX, 1, 1),
        Some(Raster { width: u32::MAX, height: u32::MAX })
    );
    assert_eq!(Raster::from_aspect(65536, 1, 65536), None);
    assert_eq!(
        Raster::from_aspect(65535, 1, 65537),
        Some(Raster { width: 65535, height: u32::MAX })
    );
}

#[test]
fn pixel_count_is_width_times_height() {
    assert_eq!(Raster { width: 400, height: 225 }.pixel_count(), 90000);
    assert_eq!(Raster { width: 0, height: 225 }.pixel_count(), 0);
    assert_eq!(Raster { width: 400, height: 0 }.pixel_count(), 0);
    assert_eq!(
        Raster { width: u32::MAX, height: u32::MAX }.pixel_count(),
        18446744065119617025
    );
}

#[test]
fn scan_starts_at_top_left() {
    let grid = Raster { width: 400, height: 225 };
    assert_eq!(grid.pixel_at(0), Some(Pixel { column: 0, row: 224 }));
    assert_eq!(grid.pixel_at(1), Some(Pixel { column: 1, row: 224 }));
}

#[test]
fn scan_wraps_to_the_row_below() {
    let grid = Raster { width: 400, height: 225 };
    assert_eq!(grid.pixel_at(399), Some(Pixel { column: 399, row: 224 }));
    assert_eq!(grid.pixel_at(400), Some(Pixel { column: 0, row: 223 }));
}

#[test]
fn scan_ends_at_bottom_right() {
    let grid = Raster { width: 400, height: 225 };
    assert_eq!(grid.pixel_at(89999), Some(Pixel { column: 399, row: 0 }));
    assert_eq!(grid.pixel_at(90000), None);
    assert_eq!(grid.pixel_at(u64::MAX), None);
}

#[test]
fn empty_grid_has_no_pixel() {
    assert_eq!(Raster { width: 0, height: 5 }.pixel_at(0), None);
    assert_eq!(Raster { width: 5, height: 0 }.pixel_at(0), None);
}

#[test]
fn scan_of_three_by_two() {
    let grid = Raster { width: 3, height: 2 };
    let mut seen = Vec::new();
    let mut k = 0;
    while let Some(p) = grid.pixel_at(k) {
        seen.push((p.column, p.row));
        k += 1;
    }
    assert_eq!(seen, vec![(0, 1), (1, 1), (2, 1), (0, 0), (1, 0), (2, 0)]);
}

#[test]
fn scan_visits_each_pixel_once() {
    let grid = Raster { width: 7, height: 5 };
    let mut visits = vec![0u32; 35];
    for k in 0..grid.pixel_count() {
        let p = grid.pixel_at(k).unwrap();
        assert!(p.column < 7 && p.row < 5);
        visits[(p.row * 7 + p.column) as usize] += 1;
    }
    assert!(visits.iter().all(|n| *n == 1));
}

#[test]
fn scan_matches_nested_loops() {
    let grid = Raster { width: 4, height: 3 };
    let mut k = 0;
    for row in (0..3u32).rev() {
        for column in 0..4u32 {
            assert_eq!(grid.pixel_at(k), Some(Pixel { column, row }));
            k += 1;
        }
    }
    assert_eq!(k, grid.pixel_count());
}

#[test]
fn scan_goes_down_and_right() {
    let grid = Raster { width: 5, height: 4 };
    for k in 1..grid.pixel_count() {
        let before = grid.pixel_at(k - 1).unwrap();
        let after = grid.pixel_at(k).unwrap();
        assert!(
            before.row > after.row || (before.row == after.row && before.column < after.column)
        );
    }
}

#[test]
fn scan_of_largest_grid_does_not_overflow() {
    let grid = Raster { width: u32::MAX, height: u32::MAX };
    let last = grid.pixel_count() - 1;
    assert_eq!(grid.pixel_at(0), Some(Pixel { column: 0, row: u32::MAX - 1 }));
    assert_eq!(grid.pixel_at(last), Some(Pixel { column: u32::MAX - 1, row: 0 }));
    assert_eq!(grid.pixel_at(last + 1), None);
}
