use spline_kernel::search::{find_span, last_increasing_span, upper_bound};

#[test]
fn upper_bound_finds_first_greater() {
    let data: Vec<f32> = vec![0.0, 0.0, 1.0, 2.0, 2.0, 3.0];
    assert_eq!(upper_bound(&data, &0.0), Some(2));
    assert_eq!(upper_bound(&data, &1.5), Some(3));
    assert_eq!(upper_bound(&data, &2.0), Some(5));
    assert_eq!(upper_bound(&data, &-1.0), Some(0));
    assert_eq!(upper_bound(&data, &3.0), None);
}

#[test]
fn upper_bound_on_integers_and_empty() {
    let data: Vec<i64> = vec![1, 3, 5, 7];
    assert_eq!(upper_bound(&data, &4), Some(2));
    let empty: Vec<i64> = Vec::new();
    assert_eq!(upper_bound(&empty, &4), None);
}

#[test]
fn span_of_clamped_cubic() {
    let knots: Vec<f32> = vec![0.0, 0.0, 0.0, 0.0, 2.0, 2.0, 2.0, 2.0];
    assert_eq!(find_span(&knots, 3, &0.0), 4);
    assert_eq!(find_span(&knots, 3, &1.0), 4);
    assert_eq!(find_span(&knots, 3, &2.0), 4);
}

#[test]
fn span_of_open_quadratic() {
    let knots: Vec<f32> = vec![0.0, 1.0, 2.0, 3.0, 4.0, 5.0, 6.0, 7.0];
    assert_eq!(find_span(&knots, 2, &2.0), 3);
    assert_eq!(find_span(&knots, 2, &3.5), 4);
    assert_eq!(find_span(&knots, 2, &5.0), 5);
    assert_eq!(find_span(&knots, 2, &-1.0), 2);
}

#[test]
fn last_rise_in_clamped_vector() {
    let knots: Vec<f32> = vec![0.0, 0.0, 1.0, 2.0, 2.0];
    assert_eq!(last_increasing_span(&knots), 2);
    let flat: Vec<f32> = vec![1.0, 1.0, 1.0];
    assert_eq!(last_increasing_span(&flat), 0);
    let single: Vec<i64> = vec![4];
    assert_eq!(last_increasing_span(&single), 0);
}

#[test]
fn span_skips_zero_length_end_spans() {
    let knots: Vec<f32> = vec![0.0, 0.0, 1.0, 1.0, 1.0];
    assert_eq!(find_span(&knots, 1, &1.0), 2);
    assert_eq!(find_span(&knots, 1, &0.0), 2);
    assert_eq!(find_span(&knots, 1, &0.5), 2);
    let ints: Vec<i64> = vec![0, 0, 0, 1, 2, 2, 2, 2];
    assert_eq!(find_span(&ints, 2, &2), 4);
}
