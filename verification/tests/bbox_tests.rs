use training_manifest::bbox::calculate_bounding_box;

#[test]
fn full_coverage_even_dimensions_is_whole_image() {
    assert_eq!(calculate_bounding_box(100, 60, 100), (0, 0, 100, 60));
    assert_eq!(calculate_bounding_box(2, 2, 100), (0, 0, 2, 2));
}

#[test]
fn eighty_percent_square() {
    assert_eq!(calculate_bounding_box(100, 100, 80), (10, 10, 90, 90));
}

#[test]
fn eighty_percent_rectangle() {
    assert_eq!(calculate_bounding_box(50, 60, 80), (5, 6, 45, 54));
}

#[test]
fn zero_coverage_collapses_to_center() {
    assert_eq!(calculate_bounding_box(100, 100, 0), (50, 50, 50, 50));
}

#[test]
fn odd_dimensions_full_coverage() {
    assert_eq!(calculate_bounding_box(5, 5, 100), (0, 0, 5, 5));
}

#[test]
fn box_lies_inside_image_and_is_centered() {
    for &(w, h) in &[(2u32, 2u32), (3, 7), (100, 100), (640, 480), (1921, 1081)] {
        for cov in [0u32, 1, 50, 80, 99, 100] {
            let (xmin, ymin, xmax, ymax) = calculate_bounding_box(w, h, cov);
            assert!(xmin <= xmax && xmax <= w);
            assert!(ymin <= ymax && ymax <= h);
            let left = xmin as i64;
            let right = w as i64 - xmax as i64;
            assert!((left - right).abs() <= 1);
            let top = ymin as i64;
            let bottom = h as i64 - ymax as i64;
            assert!((top - bottom).abs() <= 1);
        }
    }
}

#[test]
fn largest_dimensions_full_coverage() {
    assert_eq!(
        calculate_bounding_box(u32::MAX, u32::MAX, 100),
        (0, 0, u32::MAX, u32::MAX)
    );
}
