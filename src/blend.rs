//! Evaluation by repeated linear interpolation: the triangle scheme shared by
//! de Casteljau's algorithm (Bezier curves) and de Boor's (B-splines).
//!
//! Both start from a row of control points and, level after level, replace
//! each pair of neighbours by a blend of the two, until one point is left.
//! The blend is the value type's own linear interpolation.
use vstd::prelude::*;

verus! {

/// Linear interpolation between two values by a parameter of type `S`, for
/// example `self * (1 - t) + other * t` on points.
///
/// An implementation promises that `interpolate` depends on its arguments
/// alone; `interpolation` names its result. Code built without the verifier
/// implements `interpolation` by returning what `interpolate` returns.
pub trait Interpolate<S>: Sized {
    /// The value that `interpolate` returns: it depends on its arguments alone.
    spec fn interpolation(&self, other: &Self, t: S) -> Self;

    /// Interpolates between `self` and `other` at `t`.
    fn interpolate(&self, other: &Self, t: S) -> (r: Self)
        ensures
            r == self.interpolation(other, t),
    ;
}

/// Entry `j` of level `level` of the triangle over `base`, where `alpha(l, j)`
/// is the parameter of the blend that makes entry `j` of level `l + 1`.
pub open spec fn triangle<S, T: Interpolate<S>>(
    base: Seq<T>,
    alpha: spec_fn(int, int) -> S,
    level: nat,
    j: int,
) -> T
    decreases level,
{
    if level == 0 {
        base[j]
    } else {
        triangle(base, alpha, (level - 1) as nat, j).interpolation(
            &triangle(base, alpha, (level - 1) as nat, j + 1),
            alpha(level - 1, j),
        )
    }
}

/// The point of the Bezier curve over `points` at `t` (de Casteljau).
pub open spec fn casteljau<S, T: Interpolate<S>>(points: Seq<T>, t: S) -> T {
    triangle(points, |l: int, j: int| t, (points.len() - 1) as nat, 0)
}

/// The table of blend parameters `alphas[l][j]` as a function.
pub open spec fn table<S>(alphas: Seq<Vec<S>>) -> spec_fn(int, int) -> S {
    |l: int, j: int| alphas[l]@[j]
}

/// Blends the working row `tmp` from level `level - 1` up to level `level`.
fn blend_level<S: Copy, T: Interpolate<S> + Copy>(
    tmp: &mut Vec<T>,
    base: Ghost<Seq<T>>,
    alpha: Ghost<spec_fn(int, int) -> S>,
    level: usize,
    params: &[S],
)
    requires
        1 <= level < old(tmp)@.len(),
        params@.len() >= old(tmp)@.len() - level,
        forall|j: int| 0 <= j < old(tmp)@.len() - level ==> #[trigger] params@[j] == alpha@(level - 1, j),
        forall|j: int|
            0 <= j < old(tmp)@.len() - level + 1 ==> #[trigger] old(tmp)@[j] == triangle(
                base@,
                alpha@,
                (level - 1) as nat,
                j,
            ),
    ensures
        final(tmp)@.len() == old(tmp)@.len(),
        forall|j: int|
            0 <= j < old(tmp)@.len() - level ==> #[trigger] final(tmp)@[j] == triangle(
                base@,
                alpha@,
                level as nat,
                j,
            ),
{
    let n = tmp.len();
    let mut j: usize = 0;
    while j < n - level
        invariant
            n == tmp@.len(),
            1 <= level < n,
            params@.len() >= n - level,
            forall|k: int| 0 <= k < n - level ==> #[trigger] params@[k] == alpha@(level - 1, k),
            j <= n - level,
            forall|k: int|
                0 <= k < j ==> #[trigger] tmp@[k] == triangle(base@, alpha@, level as nat, k),
            forall|k: int|
                j <= k < n - level + 1 ==> #[trigger] tmp@[k] == triangle(
                    base@,
                    alpha@,
                    (level - 1) as nat,
                    k,
                ),
        decreases n - level - j,
    {
        let blended = tmp[j].interpolate(&tmp[j + 1], params[j]);
        tmp.set(j, blended);
        j = j + 1;
    }
}

/// The point of the Bezier curve over `points` at `t`, by de Casteljau's
/// algorithm run bottom up in a working row.
pub fn de_casteljau<S: Copy, T: Interpolate<S> + Copy>(points: &[T], t: S) -> (r: T)
    requires
        points@.len() >= 1,
    ensures
        r == casteljau(points@, t),
{
    let n = points.len();
    let alpha = Ghost(|l: int, j: int| t);
    let mut tmp: Vec<T> = Vec::with_capacity(n);
    let mut params: Vec<S> = Vec::with_capacity(n);
    let mut i: usize = 0;
    while i < n
        invariant
            n == points@.len(),
            i <= n,
            tmp@ == points@.subrange(0, i as int),
            params@.len() == i,
            forall|k: int| 0 <= k < i ==> #[trigger] params@[k] == t,
        decreases n - i,
    {
        tmp.push(points[i]);
        params.push(t);
        i = i + 1;
    }
    assert(tmp@ =~= points@);
    let mut level: usize = 1;
    while level < n
        invariant
            n == points@.len(),
            n >= 1,
            1 <= level <= n,
            tmp@.len() == n,
            params@.len() == n,
            forall|k: int| 0 <= k < n ==> #[trigger] params@[k] == t,
            forall|l: int, k: int| #[trigger] alpha@(l, k) == t,
            forall|k: int|
                0 <= k < n - level + 1 ==> #[trigger] tmp@[k] == triangle(
                    points@,
                    alpha@,
                    (level - 1) as nat,
                    k,
                ),
        decreases n - level,
    {
        blend_level(&mut tmp, Ghost(points@), alpha, level, params.as_slice());
        level = level + 1;
    }
    tmp[0]
}

/// The knots that set the blend parameters of de Boor's algorithm from span
/// `i_start`: the parameter of entry `j` of level `l + 1` is
/// `(t - knots[lo]) / (knots[hi] - knots[lo])` with `(lo, hi) = r[l][j]`.
/// Every such interval contains the span `[knots[i_start - 1], knots[i_start]]`,
/// so no denominator is zero when that span has positive length.
pub fn de_boor_knot_pairs(i_start: usize, degree: usize, num_knots: usize) -> (r: Vec<Vec<(usize, usize)>>)
    requires
        degree + 1 <= i_start,
        i_start + degree + 1 <= num_knots,
    ensures
        r@.len() == degree,
        forall|l: int| 0 <= l < degree ==> (#[trigger] r@[l])@.len() == degree - l,
        forall|l: int, j: int|
            0 <= l < degree && 0 <= j < degree - l ==> #[trigger] r@[l]@[j] == (
                (j + l + i_start - degree) as usize,
                (j + i_start) as usize,
            ),
        forall|l: int, j: int|
            0 <= l < degree && 0 <= j < degree - l ==> #[trigger] r@[l]@[j].0 < r@[l]@[j].1 < num_knots,
        forall|l: int, j: int|
            0 <= l < degree && 0 <= j < degree - l ==> #[trigger] r@[l]@[j].0 + 1 <= i_start <= r@[l]@[j].1,
{
    let mut pairs: Vec<Vec<(usize, usize)>> = Vec::with_capacity(degree);
    let mut l: usize = 0;
    while l < degree
        invariant
            degree + 1 <= i_start,
            i_start + degree + 1 <= num_knots,
            l <= degree,
            pairs@.len() == l,
            forall|m: int| 0 <= m < l ==> (#[trigger] pairs@[m])@.len() == degree - m,
            forall|m: int, j: int|
                0 <= m < l && 0 <= j < degree - m ==> #[trigger] pairs@[m]@[j] == (
                    (j + m + i_start - degree) as usize,
                    (j + i_start) as usize,
                ),
        decreases degree - l,
    {
        let mut row: Vec<(usize, usize)> = Vec::with_capacity(degree - l);
        let mut j: usize = 0;
        while j < degree - l
            invariant
                degree + 1 <= i_start,
                i_start + degree + 1 <= num_knots,
                l < degree,
                j <= degree - l,
                row@.len() == j,
                forall|k: int|
                    0 <= k < j ==> #[trigger] row@[k] == (
                        (k + l + i_start - degree) as usize,
                        (k + i_start) as usize,
                    ),
            decreases degree - l - j,
        {
            row.push((j + l + i_start - degree, j + i_start));
            j = j + 1;
        }
        pairs.push(row);
        l = l + 1;
    }
    pairs
}

/// The last point of de Boor's algorithm over the `degree + 1` control points
/// `base`, where `alphas[l][j]` is the parameter of the blend that makes
/// entry `j` of level `l + 1`.
pub fn blend_down<S: Copy, T: Interpolate<S> + Copy>(base: &[T], alphas: &Vec<Vec<S>>) -> (r: T)
    requires
        base@.len() >= 1,
        alphas@.len() + 1 >= base@.len(),
        forall|l: int| 0 <= l < base@.len() - 1 ==> (#[trigger] alphas@[l])@.len() + l + 1 >= base@.len(),
    ensures
        r == triangle(base@, table(alphas@), (base@.len() - 1) as nat, 0),
{
    let n = base.len();
    let alpha = Ghost(table(alphas@));
    let mut tmp: Vec<T> = Vec::with_capacity(n);
    let mut i: usize = 0;
    while i < n
        invariant
            n == base@.len(),
            i <= n,
            tmp@ == base@.subrange(0, i as int),
        decreases n - i,
    {
        tmp.push(base[i]);
        i = i + 1;
    }
    assert(tmp@ =~= base@);
    let mut level: usize = 1;
    while level < n
        invariant
            n == base@.len(),
            n >= 1,
            1 <= level <= n,
            tmp@.len() == n,
            alphas@.len() + 1 >= n,
            forall|l: int| 0 <= l < n - 1 ==> (#[trigger] alphas@[l])@.len() + l + 1 >= n,
            alpha@ == table(alphas@),
            forall|k: int|
                0 <= k < n - level + 1 ==> #[trigger] tmp@[k] == triangle(
                    base@,
                    alpha@,
                    (level - 1) as nat,
                    k,
                ),
        decreases n - level,
    {
        let row = &alphas[level - 1];
        assert(row@.len() + level >= n);
        blend_level(&mut tmp, Ghost(base@), alpha, level, row.as_slice());
        level = level + 1;
    }
    tmp[0]
}

proof fn lemma_triangle_left<S, T: Interpolate<S>>(
    base: Seq<T>,
    alpha: spec_fn(int, int) -> S,
    level: nat,
    j: int,
)
    requires
        forall|a: T, b: T, l: int, k: int| #[trigger] a.interpolation(&b, alpha(l, k)) == a,
    ensures
        triangle(base, alpha, level, j) == base[j],
    decreases level,
{
    if level > 0 {
        lemma_triangle_left(base, alpha, (level - 1) as nat, j);
        lemma_triangle_left(base, alpha, (level - 1) as nat, j + 1);
        let a = triangle(base, alpha, (level - 1) as nat, j);
        let b = triangle(base, alpha, (level - 1) as nat, j + 1);
        assert(a.interpolation(&b, alpha(level - 1, j)) == a);
    }
}

proof fn lemma_triangle_right<S, T: Interpolate<S>>(
    base: Seq<T>,
    alpha: spec_fn(int, int) -> S,
    level: nat,
    j: int,
)
    requires
        forall|a: T, b: T, l: int, k: int| #[trigger] a.interpolation(&b, alpha(l, k)) == b,
    ensures
        triangle(base, alpha, level, j) == base[j + level],
    decreases level,
{
    if level > 0 {
        lemma_triangle_right(base, alpha, (level - 1) as nat, j);
        lemma_triangle_right(base, alpha, (level - 1) as nat, j + 1);
        let a = triangle(base, alpha, (level - 1) as nat, j);
        let b = triangle(base, alpha, (level - 1) as nat, j + 1);
        assert(a.interpolation(&b, alpha(level - 1, j)) == b);
    }
}

/// A Bezier curve starts at its first control point and ends at its last:
/// where interpolating at `t` returns its first argument (as it does at
/// `t = 0`), the curve at `t` is the first control point; where it returns its
/// second argument (as at `t = 1`), the curve at `t` is the last one.
pub proof fn lemma_casteljau_ends<S, T: Interpolate<S>>(points: Seq<T>, t: S)
    requires
        points.len() >= 1,
    ensures
        (forall|a: T, b: T| #[trigger] a.interpolation(&b, t) == a) ==> casteljau(points, t)
            == points[0],
        (forall|a: T, b: T| #[trigger] a.interpolation(&b, t) == b) ==> casteljau(points, t)
            == points[points.len() - 1],
{
    let alpha = |l: int, j: int| t;
    if forall|a: T, b: T| #[trigger] a.interpolation(&b, t) == a {
        assert forall|a: T, b: T, l: int, k: int| #[trigger] a.interpolation(&b, alpha(l, k)) == a by {
            assert(a.interpolation(&b, t) == a);
        }
        lemma_triangle_left(points, alpha, (points.len() - 1) as nat, 0);
    }
    if forall|a: T, b: T| #[trigger] a.interpolation(&b, t) == b {
        assert forall|a: T, b: T, l: int, k: int| #[trigger] a.interpolation(&b, alpha(l, k)) == b by {
            assert(a.interpolation(&b, t) == b);
        }
        lemma_triangle_right(points, alpha, (points.len() - 1) as nat, 0);
    }
}

} // verus!
