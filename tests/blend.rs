use spline_kernel::blend::{blend_down, de_boor_knot_pairs, de_casteljau, Interpolate};
use spline_kernel::search::find_span;

#[derive(Clone, Copy, Debug, PartialEq)]
struct P2 {
    x: f32,
    y: f32,
}

impl Interpolate<f32> for P2 {
    fn interpolation(&self, other: &P2, t: f32) -> P2 {
        self.interpolate(other, t)
    }
    fn interpolate(&self, other: &P2, t: f32) -> P2 {
        P2 { x: self.x * (1.0 - t) + other.x * t, y: self.y * (1.0 - t) + other.y * t }
    }
}

fn p(x: f32, y: f32) -> P2 {
    P2 { x, y }
}

/// A B-spline point through the library: span, knot pairs, blend parameters, blend.
fn bspline_point(points: &[P2], knots: &[f32], degree: usize, t: f32) -> P2 {
    let i = find_span(knots, degree, &t);
    let pairs = de_boor_knot_pairs(i, degree, knots.len());
    let alphas: Vec<Vec<f32>> = pairs
        .iter()
        .map(|row| row.iter().map(|&(lo, hi)| (t - knots[lo]) / (knots[hi] - knots[lo])).collect())
        .collect();
    blend_down(&points[i - degree - 1..i], &alphas)
}

#[test]
fn casteljau_single_point() {
    let a = p(1.5, -2.0);
    assert_eq!(de_casteljau(&[a], 0.3f32), a);
}

#[test]
fn casteljau_linear_midpoint() {
    assert_eq!(de_casteljau(&[p(0.0, 0.0), p(2.0, 4.0)], 0.5f32), p(1.0, 2.0));
}

#[test]
fn casteljau_quadratic_midpoint() {
    let pts = [p(0.0, 0.0), p(1.0, 2.0), p(2.0, 0.0)];
    assert_eq!(de_casteljau(&pts, 0.5f32), p(1.0, 1.0));
}

#[test]
fn casteljau_ends_are_control_points() {
    let pts = [p(-1.5, -1.5), p(-0.5, 1.5), p(0.5, -1.5), p(1.5, 1.5)];
    assert_eq!(de_casteljau(&pts, 0.0f32), pts[0]);
    assert_eq!(de_casteljau(&pts, 1.0f32), pts[3]);
}

#[test]
fn knot_pairs_of_cubic_span() {
    let pairs = de_boor_knot_pairs(4, 3, 8);
    assert_eq!(pairs, vec![vec![(1, 4), (2, 5), (3, 6)], vec![(2, 4), (3, 5)], vec![(3, 4)]]);
    assert!(de_boor_knot_pairs(1, 0, 2).is_empty());
}

#[test]
fn blend_down_with_table() {
    let base = [p(0.0, 0.0), p(4.0, 0.0), p(4.0, 4.0)];
    let alphas = vec![vec![0.5f32, 0.25], vec![0.5]];
    assert_eq!(blend_down(&base, &alphas), p(3.0, 0.5));
    assert_eq!(blend_down(&base[..1], &Vec::new()), base[0]);
}

#[test]
fn clamped_cubic_interpolates_its_ends() {
    let pts = [p(-1.5, -1.5), p(-0.5, 1.5), p(0.5, -1.5), p(1.5, 1.5)];
    let knots = [0.0f32, 0.0, 0.0, 0.0, 2.0, 2.0, 2.0, 2.0];
    assert_eq!(bspline_point(&pts, &knots, 3, 0.0), p(-1.5, -1.5));
    assert_eq!(bspline_point(&pts, &knots, 3, 2.0), p(1.5, 1.5));
}

#[test]
fn clamped_cubic_matches_bezier_inside() {
    let pts = [p(-1.5, -1.5), p(-0.5, 1.5), p(0.5, -1.5), p(1.5, 1.5)];
    let knots = [0.0f32, 0.0, 0.0, 0.0, 2.0, 2.0, 2.0, 2.0];
    let b = bspline_point(&pts, &knots, 3, 1.0);
    let c = de_casteljau(&pts, 0.5f32);
    assert!((b.x - c.x).abs() < 1e-6 && (b.y - c.y).abs() < 1e-6);
}

#[test]
fn linear_bspline_passes_through_points() {
    let pts = [p(0.0, 0.0), p(1.0, 3.0), p(2.0, 0.0)];
    let knots = [0.0f32, 0.0, 1.0, 2.0, 2.0];
    assert_eq!(bspline_point(&pts, &knots, 1, 1.0), p(1.0, 3.0));
    assert_eq!(bspline_point(&pts, &knots, 1, 0.5), p(0.5, 1.5));
}

#[test]
fn repeated_end_knot_gives_last_point() {
    let pts = [p(0.0, 0.0), p(1.0, 2.0), p(5.0, 5.0)];
    let knots = [0.0f32, 0.0, 1.0, 1.0, 1.0];
    assert_eq!(bspline_point(&pts, &knots, 1, 1.0), p(1.0, 2.0));
    assert_eq!(bspline_point(&pts, &knots, 1, 0.0), p(0.0, 0.0));
}
