//! Knot vectors: how fresh ones are generated, how the clamped state of an
//! existing one is read back, and the knot domain over which a curve is defined.
//!
//! Generated knot vectors are the integers 0, 1, 2, ... as `usize`. Existing
//! knot vectors are generic over the knot type; what is read from them is
//! stated through the type's equality (`eq_spec`), for every type whose `==`
//! follows it.
use vstd::prelude::*;
use vstd::std_specs::cmp::PartialEqSpec;

verus! {

/// The number of knots that a curve of `num_points` control points and
/// degree `degree` needs.
pub open spec fn knot_count(num_points: nat, degree: nat) -> nat {
    num_points + degree + 1
}

/// First knot index at which a generated knot vector starts to climb: the
/// `degree + 1` first knots stay at the start value when the left end is clamped.
pub open spec fn climb_start(degree: nat, left_clamped: bool) -> int {
    if left_clamped { degree as int } else { 0 }
}

/// Knot index at which a generated knot vector stops climbing: the
/// `degree + 1` last knots stay at the end value when the right end is clamped.
pub open spec fn climb_stop(num_knots: nat, degree: nat, right_clamped: bool) -> int {
    if right_clamped { num_knots - 1 - degree } else { num_knots as int }
}

/// The `i`-th knot of a generated knot vector of length `num_knots`: the
/// integers 0, 1, 2, ... held constant over the clamped ends.
pub open spec fn generated_knot(
    num_knots: nat,
    degree: nat,
    left_clamped: bool,
    right_clamped: bool,
    i: int,
) -> int {
    let stop = climb_stop(num_knots, degree, right_clamped);
    let top = if i < stop { i } else { stop };
    let v = top - climb_start(degree, left_clamped);
    if v < 0 { 0 } else { v }
}

/// The whole generated knot vector.
pub open spec fn generated_knots(
    num_knots: nat,
    degree: nat,
    left_clamped: bool,
    right_clamped: bool,
) -> Seq<usize> {
    Seq::new(
        num_knots,
        |i: int| generated_knot(num_knots, degree, left_clamped, right_clamped, i) as usize,
    )
}

/// The first `degree + 1` knots all equal the first knot.
pub open spec fn left_clamped<K: PartialEq>(knots: Seq<K>, degree: nat) -> bool {
    forall|i: int| 0 <= i < knots.len() && i <= degree ==> #[trigger] knots[i].eq_spec(&knots[0])
}

/// The last `degree + 1` knots all equal the last knot.
pub open spec fn right_clamped<K: PartialEq>(knots: Seq<K>, degree: nat) -> bool {
    forall|i: int|
        0 <= i < knots.len() && i + degree + 1 >= knots.len() ==> #[trigger] knots[i].eq_spec(
            &knots[knots.len() - 1],
        )
}

/// Both ends of the knot vector are clamped.
pub open spec fn clamped<K: PartialEq>(knots: Seq<K>, degree: nat) -> bool {
    left_clamped(knots, degree) && right_clamped(knots, degree)
}

/// Number of knots required by a curve with `num_points` control points.
pub fn knots_required(num_points: usize, degree: usize) -> (r: usize)
    requires
        num_points + degree + 1 <= usize::MAX,
    ensures
        r == knot_count(num_points as nat, degree as nat),
{
    num_points + degree + 1
}

/// A fresh knot vector of `num_knots` knots for a curve of degree `degree`:
/// 0, 1, 2, ..., where the first `degree + 1` knots share the start value if
/// `left_clamped` and the last `degree + 1` share the end value if `right_clamped`.
pub fn fill_knot_vector(
    num_knots: usize,
    degree: usize,
    left_clamped: bool,
    right_clamped: bool,
) -> (r: Vec<usize>)
    requires
        num_knots >= degree + 1,
    ensures
        r@ == generated_knots(num_knots as nat, degree as nat, left_clamped, right_clamped),
{
    let mut knots: Vec<usize> = Vec::with_capacity(num_knots);
    let mut x: usize = 0;
    let last_climb: usize = num_knots - 1 - degree;
    let mut i: usize = 0;
    while i < num_knots
        invariant
            num_knots >= degree + 1,
            last_climb == num_knots - 1 - degree,
            i <= num_knots,
            x <= i,
            x == generated_knot(num_knots as nat, degree as nat, left_clamped, right_clamped, i as int),
            knots@.len() == i,
            forall|j: int|
                0 <= j < i ==> knots@[j] == generated_knot(
                    num_knots as nat,
                    degree as nat,
                    left_clamped,
                    right_clamped,
                    j,
                ) as usize,
        decreases num_knots - i,
    {
        knots.push(x);
        if !(left_clamped && i < degree) && !(right_clamped && i >= last_climb) {
            x = x + 1;
        }
        i = i + 1;
    }
    assert(knots@ =~= generated_knots(num_knots as nat, degree as nat, left_clamped, right_clamped));
    knots
}

/// The clamped uniform knot vector of a basis of degree `degree` over
/// `num_points` functions.
pub fn clamped_uniform_knots(degree: usize, num_points: usize) -> (r: Vec<usize>)
    requires
        num_points + degree + 1 <= usize::MAX,
    ensures
        r@ == generated_knots(knot_count(num_points as nat, degree as nat), degree as nat, true, true),
{
    let n = knots_required(num_points, degree);
    fill_knot_vector(n, degree, true, true)
}

/// Reads which ends of `knots` are clamped for a curve of degree `degree`:
/// `(left, right)`.
pub fn clamp_state<K: PartialEq>(knots: &[K], degree: usize) -> (r: (bool, bool))
    ensures
        K::obeys_eq_spec() ==> r == (
            left_clamped(knots@, degree as nat),
            right_clamped(knots@, degree as nat),
        ),
{
    let n = knots.len();
    let mut left = true;
    let mut right = true;
    let mut i: usize = 0;
    while i < n
        invariant
            n == knots@.len(),
            i <= n,
            K::obeys_eq_spec() ==> (left <==> forall|j: int|
                0 <= j < i && j <= degree ==> #[trigger] knots@[j].eq_spec(&knots@[0])),
            K::obeys_eq_spec() ==> (right <==> forall|j: int|
                0 <= j < i && j + degree + 1 >= n ==> #[trigger] knots@[j].eq_spec(
                    &knots@[n - 1],
                )),
        decreases n - i,
    {
        if i <= degree {
            let same = knots[i] == knots[0];
            left = left && same;
        }
        if i >= n - 1 || n - 1 - i <= degree {
            let same = knots[i] == knots[n - 1];
            right = right && same;
        }
        i = i + 1;
    }
    (left, right)
}

/// Whether both ends of `knots` are clamped for a curve of degree `degree`.
pub fn is_clamped<K: PartialEq>(knots: &[K], degree: usize) -> (r: bool)
    ensures
        K::obeys_eq_spec() ==> r == clamped(knots@, degree as nat),
{
    let (left, right) = clamp_state(knots, degree);
    left && right
}

/// The knot domain `(knots[degree], knots[len - 1 - degree])`: the inclusive
/// range of parameters over which a curve of degree `degree` is defined.
pub fn knot_domain<K: Copy>(knots: &[K], degree: usize) -> (r: (K, K))
    requires
        knots@.len() >= degree + 1,
    ensures
        r == (knots@[degree as int], knots@[knots@.len() - 1 - degree]),
{
    (knots[degree], knots[knots.len() - 1 - degree])
}

/// The knots that lie within the knot domain: all but the first and last
/// `degree` knots.
pub fn knot_domain_knots<K: Copy>(knots: &[K], degree: usize) -> (r: Vec<K>)
    requires
        knots@.len() >= 2 * degree,
    ensures
        r@ == knots@.subrange(degree as int, knots@.len() - degree),
{
    let stop = knots.len() - degree;
    let mut out: Vec<K> = Vec::with_capacity(stop - degree);
    let mut i: usize = degree;
    while i < stop
        invariant
            stop == knots@.len() - degree,
            degree <= i <= stop,
            out@ == knots@.subrange(degree as int, i as int),
        decreases stop - i,
    {
        out.push(knots[i]);
        i = i + 1;
        assert(out@ =~= knots@.subrange(degree as int, i as int));
    }
    out
}

/// A fresh knot vector for a curve of `num_points` control points and degree
/// `degree` that keeps the clamped state that `knots` has at each end.
pub fn regenerate_knots<K: PartialEq>(knots: &[K], degree: usize, num_points: usize) -> (r: Vec<
    usize,
>)
    requires
        num_points + degree + 1 <= usize::MAX,
    ensures
        exists|left: bool, right: bool|
            r@ == #[trigger] generated_knots(
                knot_count(num_points as nat, degree as nat),
                degree as nat,
                left,
                right,
            ),
        K::obeys_eq_spec() ==> r@ == generated_knots(
            knot_count(num_points as nat, degree as nat),
            degree as nat,
            left_clamped(knots@, degree as nat),
            right_clamped(knots@, degree as nat),
        ),
{
    let (left, right) = clamp_state(knots, degree);
    let n = knots_required(num_points, degree);
    fill_knot_vector(n, degree, left, right)
}

/// The knot vector of a curve whose degree changes from `old_degree` (with knot
/// vector `knots`) to `new_degree`, which `num_points` control points must
/// support: each end stays clamped or open as it was in `knots`.
pub fn knots_for_degree<K: PartialEq>(
    knots: &[K],
    old_degree: usize,
    new_degree: usize,
    num_points: usize,
) -> (r: Vec<usize>)
    requires
        new_degree <= if num_points == 0 { 0 } else { num_points - 1 },
        num_points + new_degree + 1 <= usize::MAX,
    ensures
        exists|left: bool, right: bool|
            r@ == #[trigger] generated_knots(
                knot_count(num_points as nat, new_degree as nat),
                new_degree as nat,
                left,
                right,
            ),
        K::obeys_eq_spec() ==> r@ == generated_knots(
            knot_count(num_points as nat, new_degree as nat),
            new_degree as nat,
            left_clamped(knots@, old_degree as nat),
            right_clamped(knots@, old_degree as nat),
        ),
{
    let (left, right) = clamp_state(knots, old_degree);
    let n = knots_required(num_points, new_degree);
    fill_knot_vector(n, new_degree, left, right)
}

/// The knot vector of a curve of `num_points` control points and degree
/// `degree`, clamped at both ends or at neither.
pub fn knots_for_clamping(num_points: usize, degree: usize, clamp: bool) -> (r: Vec<usize>)
    requires
        num_points + degree + 1 <= usize::MAX,
    ensures
        r@ == generated_knots(knot_count(num_points as nat, degree as nat), degree as nat, clamp, clamp),
{
    let n = knots_required(num_points, degree);
    fill_knot_vector(n, degree, clamp, clamp)
}

/// A generated knot vector starts at zero and never decreases.
pub proof fn lemma_generated_knots_sorted(
    num_knots: nat,
    degree: nat,
    left_clamped: bool,
    right_clamped: bool,
)
    requires
        num_knots >= degree + 1,
        num_knots <= usize::MAX,
    ensures
        num_knots > 0 ==> generated_knots(num_knots, degree, left_clamped, right_clamped)[0] == 0,
        forall|i: int, j: int|
            0 <= i <= j < num_knots ==> #[trigger] generated_knots(
                num_knots,
                degree,
                left_clamped,
                right_clamped,
            )[i] <= #[trigger] generated_knots(num_knots, degree, left_clamped, right_clamped)[j],
{
    let k = generated_knots(num_knots, degree, left_clamped, right_clamped);
    assert forall|i: int, j: int| 0 <= i <= j < num_knots implies #[trigger] k[i] <= #[trigger] k[j] by {
        let a = generated_knot(num_knots, degree, left_clamped, right_clamped, i);
        let b = generated_knot(num_knots, degree, left_clamped, right_clamped, j);
        assert(0 <= a <= b <= num_knots);
    }
}

/// Each end of a generated knot vector of a valid curve (more control points
/// than its degree) reads back as it was generated: clamped when asked
/// clamped, and open when asked open, as long as the degree is at least one (a
/// degree-zero knot vector has one-knot ends, which always read as clamped).
pub proof fn lemma_generated_ends_read_back(num_points: nat, degree: nat, left: bool, right: bool)
    requires
        num_points > degree,
        knot_count(num_points, degree) <= usize::MAX,
    ensures
        left || degree >= 1 ==> left_clamped(
            generated_knots(knot_count(num_points, degree), degree, left, right),
            degree,
        ) == left,
        right || degree >= 1 ==> right_clamped(
            generated_knots(knot_count(num_points, degree), degree, left, right),
            degree,
        ) == right,
{
    let n = knot_count(num_points, degree);
    let k = generated_knots(n, degree, left, right);
    if left {
        assert forall|i: int| 0 <= i < k.len() && i <= degree implies #[trigger] k[i].eq_spec(
            &k[0],
        ) by {}
    } else if degree >= 1 {
        assert(k[1] != k[0]);
        assert(!k[1].eq_spec(&k[0]));
    }
    if right {
        assert forall|i: int| 0 <= i < k.len() && i + degree + 1 >= k.len() implies #[trigger] k[i].eq_spec(
            &k[k.len() - 1],
        ) by {}
    } else if degree >= 1 {
        assert(k[n - 2] != k[n - 1]);
        assert(!k[n - 2].eq_spec(&k[n - 1]));
    }
}

/// Clamping both ends of a valid curve (more control points than its degree)
/// and then asking whether it is clamped answers `true`; opening both ends
/// answers `false`, as long as the degree is at least one (a degree-zero knot
/// vector has one-knot ends, which always read as clamped).
pub proof fn lemma_set_clamped_reads_back(num_points: nat, degree: nat, clamp: bool)
    requires
        num_points > degree,
        knot_count(num_points, degree) <= usize::MAX,
        clamp || degree >= 1,
    ensures
        clamped(
            generated_knots(knot_count(num_points, degree), degree, clamp, clamp),
            degree,
        ) == clamp,
{
    lemma_generated_ends_read_back(num_points, degree, clamp, clamp);
}

/// Changing the degree of a curve whose knots were generated (each end clamped
/// or open) and changing it back restores exactly the original knot vector, so
/// the curve is the same as before. An open end needs both degrees to be at
/// least one, since a degree-zero end always reads as clamped.
pub proof fn lemma_degree_round_trip(
    num_points: nat,
    degree: nat,
    other_degree: nat,
    left: bool,
    right: bool,
)
    requires
        num_points > degree,
        num_points > other_degree,
        knot_count(num_points, degree) <= usize::MAX,
        knot_count(num_points, other_degree) <= usize::MAX,
        left || (degree >= 1 && other_degree >= 1),
        right || (degree >= 1 && other_degree >= 1),
    ensures
        ({
            let k0 = generated_knots(knot_count(num_points, degree), degree, left, right);
            let k1 = generated_knots(
                knot_count(num_points, other_degree),
                other_degree,
                left_clamped(k0, degree),
                right_clamped(k0, degree),
            );
            generated_knots(
                knot_count(num_points, degree),
                degree,
                left_clamped(k1, other_degree),
                right_clamped(k1, other_degree),
            ) == k0
        }),
{
    lemma_generated_ends_read_back(num_points, degree, left, right);
    lemma_generated_ends_read_back(num_points, other_degree, left, right);
}

} // verus!
