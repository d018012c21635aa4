use spline_kernel::edit::{
    check_control_mesh, check_curve, insert_point, max_possible_degree, nearest_segment, remove_point,
    CurveError,
};

#[test]
fn check_curve_accepts_valid_counts() {
    assert_eq!(check_curve(4, 3, 8), Ok(()));
    assert_eq!(check_curve(4, 3, 0), Ok(()));
}

#[test]
fn check_curve_too_few_points() {
    assert_eq!(check_curve(3, 3, 7), Err(CurveError::TooFewControlPoints));
    assert_eq!(check_curve(0, 0, 0), Err(CurveError::TooFewControlPoints));
}

#[test]
fn check_curve_knot_mismatch() {
    assert_eq!(check_curve(4, 3, 7), Err(CurveError::KnotCountMismatch { got: 7, expected: 8 }));
}

#[test]
fn check_control_mesh_rejects_empty() {
    let empty: Vec<Vec<f32>> = Vec::new();
    assert_eq!(check_control_mesh(&empty), Err(CurveError::EmptyControlMesh));
    assert_eq!(check_control_mesh(&vec![vec![1.0f32]]), Ok(()));
}

#[test]
fn max_degree_of_points() {
    assert_eq!(max_possible_degree(0), 0);
    assert_eq!(max_possible_degree(1), 0);
    assert_eq!(max_possible_degree(5), 4);
}

#[test]
fn nearest_segment_prefers_lowest_index_on_ties() {
    let dists: Vec<f32> = vec![3.0, 1.0, 2.0, 1.0];
    assert_eq!(nearest_segment(&dists, &f32::MAX), Some(1));
}

#[test]
fn nearest_segment_needs_distance_below_bound() {
    let dists: Vec<f32> = vec![f32::INFINITY, f32::NAN];
    assert_eq!(nearest_segment(&dists, &f32::MAX), None);
    let empty: Vec<f32> = Vec::new();
    assert_eq!(nearest_segment(&empty, &f32::MAX), None);
    let ints: Vec<u32> = vec![5, 9, 4];
    assert_eq!(nearest_segment(&ints, &5), Some(2));
}

#[test]
fn insert_into_single_point_appends() {
    let mut points = vec![(0.0f32, 0.0f32)];
    let idx = insert_point(&mut points, (3.0, 1.0), None, true, false);
    assert_eq!(idx, 1);
    assert_eq!(points, vec![(0.0, 0.0), (3.0, 1.0)]);
}

#[test]
fn insert_prepends_at_start_of_first_segment() {
    let mut points = vec![1, 2, 3];
    assert_eq!(insert_point(&mut points, 9, Some(0), true, false), 0);
    assert_eq!(points, vec![9, 1, 2, 3]);
}

#[test]
fn insert_appends_at_end_of_last_segment() {
    let mut points = vec![1, 2, 3];
    assert_eq!(insert_point(&mut points, 9, Some(1), false, true), 3);
    assert_eq!(points, vec![1, 2, 3, 9]);
}

#[test]
fn insert_goes_after_nearest_segment_start() {
    let mut points = vec![1, 2, 3];
    assert_eq!(insert_point(&mut points, 9, Some(1), false, false), 2);
    assert_eq!(points, vec![1, 2, 9, 3]);
    let mut points = vec![1, 2, 3];
    assert_eq!(insert_point(&mut points, 9, Some(0), false, true), 1);
    assert_eq!(points, vec![1, 9, 2, 3]);
}

#[test]
fn insert_into_empty_polygon() {
    let mut points: Vec<i32> = Vec::new();
    assert_eq!(insert_point(&mut points, 7, None, true, false), 0);
    assert_eq!(points, vec![7]);
}

#[test]
fn insert_without_nearest_prepends() {
    let mut points = vec![1, 2, 3];
    assert_eq!(insert_point(&mut points, 9, None, false, false), 0);
    assert_eq!(points, vec![9, 1, 2, 3]);
}

#[test]
fn remove_at_minimum_lowers_degree() {
    let mut points = vec![1, 2, 3, 4];
    assert_eq!(remove_point(&mut points, 3, 1), 2);
    assert_eq!(points, vec![1, 3, 4]);
}

#[test]
fn remove_above_minimum_keeps_degree() {
    let mut points = vec![1, 2, 3, 4, 5];
    assert_eq!(remove_point(&mut points, 3, 4), 3);
    assert_eq!(points, vec![1, 2, 3, 4]);
}
