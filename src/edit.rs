//! Structural edits of a curve's control polygon: validating a curve's counts,
//! choosing where a new control point goes, and removing one.
use vstd::prelude::*;
use crate::knots::{knot_count, generated_knots, lemma_generated_knots_sorted};
use crate::search::less;
use vstd::std_specs::cmp::PartialOrdSpec;

verus! {

/// Why a curve or a surface cannot be built from the given parts.
#[derive(Debug, Clone, Copy, PartialEq, Eq, Structural)]
pub enum CurveError {
    /// A curve needs more control points than its degree.
    TooFewControlPoints,
    /// A knot vector was given with a length other than the one the curve needs.
    KnotCountMismatch { got: usize, expected: usize },
    /// A surface needs at least one row of control points.
    EmptyControlMesh,
}

/// Checks the counts of a B-spline curve: more control points than the degree,
/// and, when knots are given (`num_knots > 0`), exactly
/// `num_points + degree + 1` of them.
pub fn check_curve(num_points: usize, degree: usize, num_knots: usize) -> (r: Result<(), CurveError>)
    requires
        num_points + degree + 1 <= usize::MAX,
    ensures
        num_points <= degree ==> r == Err::<(), CurveError>(CurveError::TooFewControlPoints),
        num_points > degree && num_knots != 0 && num_knots != knot_count(
            num_points as nat,
            degree as nat,
        ) ==> r == Err::<(), CurveError>(
            CurveError::KnotCountMismatch {
                got: num_knots,
                expected: (num_points + degree + 1) as usize,
            },
        ),
        num_points > degree && (num_knots == 0 || num_knots == knot_count(
            num_points as nat,
            degree as nat,
        )) ==> r == Ok::<(), CurveError>(()),
{
    if num_points <= degree {
        return Err(CurveError::TooFewControlPoints);
    }
    let expected = num_points + degree + 1;
    if num_knots != 0 && num_knots != expected {
        return Err(CurveError::KnotCountMismatch { got: num_knots, expected });
    }
    Ok(())
}

/// Checks that a surface's control mesh has at least one row.
pub fn check_control_mesh<T>(mesh: &Vec<Vec<T>>) -> (r: Result<(), CurveError>)
    ensures
        mesh@.len() == 0 ==> r == Err::<(), CurveError>(CurveError::EmptyControlMesh),
        mesh@.len() > 0 ==> r == Ok::<(), CurveError>(()),
{
    if mesh.len() == 0 {
        Err(CurveError::EmptyControlMesh)
    } else {
        Ok(())
    }
}

/// The highest degree that `num_points` control points support.
pub fn max_possible_degree(num_points: usize) -> (r: usize)
    ensures
        r == if num_points == 0 { 0 } else { num_points - 1 },
{
    if num_points == 0 {
        0
    } else {
        num_points - 1
    }
}

/// Scanning `dists` in order from `bound`, the index of each value strictly
/// below the best so far replaces it: the nearest segment among the first `m`.
pub open spec fn nearest_among<D: PartialOrd>(dists: Seq<D>, bound: D, m: nat) -> Option<int>
    decreases m,
{
    if m == 0 {
        None
    } else {
        let prev = nearest_among(dists, bound, (m - 1) as nat);
        let best = match prev {
            Some(k) => dists[k],
            None => bound,
        };
        if less(dists[m - 1], best) {
            Some(m - 1)
        } else {
            prev
        }
    }
}

/// Index of the segment of the control polygon nearest to a new point, given
/// the distance from the point to each segment: the first strict minimum below
/// `bound`, or `None` when no distance is below `bound`.
pub fn nearest_segment<D: PartialOrd>(dists: &[D], bound: &D) -> (r: Option<usize>)
    ensures
        r matches Some(k) ==> k < dists@.len(),
        D::obeys_partial_cmp_spec() ==> nearest_among(dists@, *bound, dists@.len()) == match r {
            Some(k) => Some(k as int),
            None => None::<int>,
        },
{
    let n = dists.len();
    let mut best: Option<usize> = None;
    let mut i: usize = 0;
    while i < n
        invariant
            n == dists@.len(),
            i <= n,
            best matches Some(k) ==> k < i,
            D::obeys_partial_cmp_spec() ==> nearest_among(dists@, *bound, i as nat) == match best {
                Some(k) => Some(k as int),
                None => None::<int>,
            },
        decreases n - i,
    {
        let closer = match best {
            Some(k) => dists[i].lt(&dists[k]),
            None => dists[i].lt(bound),
        };
        if closer {
            best = Some(i);
        }
        i = i + 1;
    }
    best
}

/// Where a new control point goes in a polygon of `len` points, given the
/// nearest segment and whether the point projects onto that segment's start
/// (`at_start`) or end (`at_end`): after a single point; before the first
/// point when it projects onto the start of the first segment (or no segment
/// was found); after the last point when it projects onto the end of the last
/// segment; otherwise right after the nearest segment's start point.
pub open spec fn insertion_index(len: nat, nearest: Option<usize>, at_start: bool, at_end: bool) -> nat {
    if len == 1 {
        1
    } else {
        match nearest {
            None => 0,
            Some(s) => if s == 0 && at_start {
                0
            } else if s + 2 == len && at_end {
                len
            } else {
                (s + 1) as nat
            },
        }
    }
}

/// Inserts `p` into the control polygon `points` next to the nearest segment
/// (see `insertion_index`) and returns the index that it now has.
pub fn insert_point<T>(
    points: &mut Vec<T>,
    p: T,
    nearest: Option<usize>,
    at_start: bool,
    at_end: bool,
) -> (r: usize)
    requires
        nearest matches Some(s) ==> s + 1 < old(points)@.len(),
    ensures
        r == insertion_index(old(points)@.len(), nearest, at_start, at_end),
        final(points)@ == old(points)@.insert(r as int, p),
{
    let len = points.len();
    if len == 1 {
        points.push(p);
        return 1;
    }
    let idx = match nearest {
        None => 0,
        Some(s) => {
            if s == 0 && at_start {
                0
            } else if s + 2 == len && at_end {
                len
            } else {
                s + 1
            }
        },
    };
    points.insert(idx, p);
    idx
}

/// A new point inserted into a polygon of a single control point `p` goes
/// after it, whatever the nearest segment and projection say: `[p]` becomes
/// `[p, q]`.
pub proof fn lemma_insert_into_single_point<T>(
    p: T,
    q: T,
    nearest: Option<usize>,
    at_start: bool,
    at_end: bool,
)
    ensures
        insertion_index(1, nearest, at_start, at_end) == 1,
        seq![p].insert(1, q) == seq![p, q],
{
    assert(seq![p].insert(1, q) =~= seq![p, q]);
}

/// The degree of a curve after a removal leaves it `remaining` control points:
/// one lower when they no longer outnumber the degree.
pub open spec fn degree_after_removal(remaining: nat, degree: nat) -> int {
    if remaining <= degree {
        degree - 1
    } else {
        degree as int
    }
}

/// Removes control point `i` from `points` and returns the curve's new degree:
/// `degree`, or one less when the remaining points no longer outnumber it.
pub fn remove_point<T>(points: &mut Vec<T>, degree: usize, i: usize) -> (r: usize)
    requires
        i < old(points)@.len(),
        old(points)@.len() - 1 > degree || degree >= 1,
    ensures
        final(points)@ == old(points)@.remove(i as int),
        r == degree_after_removal((old(points)@.len() - 1) as nat, degree as nat),
{
    points.remove(i);
    if points.len() <= degree {
        degree - 1
    } else {
        degree
    }
}

/// Removing a control point from a curve at the minimum point count for its
/// degree (one more point than the degree) lowers the degree by exactly one,
/// leaves a valid curve, and the regenerated knot vector, whatever its clamped
/// state, has the `points + degree + 1` knots that the curve needs and never
/// decreases.
pub proof fn lemma_remove_at_minimum(
    num_points: nat,
    degree: nat,
    left_clamped: bool,
    right_clamped: bool,
)
    requires
        num_points == degree + 1,
        degree >= 1,
        num_points + degree <= usize::MAX,
    ensures
        degree_after_removal((num_points - 1) as nat, degree) == degree - 1,
        num_points - 1 > degree - 1,
        generated_knots(
            knot_count((num_points - 1) as nat, (degree - 1) as nat),
            (degree - 1) as nat,
            left_clamped,
            right_clamped,
        ).len() == (num_points - 1) + (degree - 1) + 1,
        forall|i: int, j: int|
            0 <= i <= j < (num_points - 1) + (degree - 1) + 1 ==> #[trigger] generated_knots(
                knot_count((num_points - 1) as nat, (degree - 1) as nat),
                (degree - 1) as nat,
                left_clamped,
                right_clamped,
            )[i] <= #[trigger] generated_knots(
                knot_count((num_points - 1) as nat, (degree - 1) as nat),
                (degree - 1) as nat,
                left_clamped,
                right_clamped,
            )[j],
{
    lemma_generated_knots_sorted(
        knot_count((num_points - 1) as nat, (degree - 1) as nat),
        (degree - 1) as nat,
        left_clamped,
        right_clamped,
    );
}

} // verus!
