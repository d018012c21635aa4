//! Searches over sorted knot vectors: the upper bound of a parameter, the knot
//! span that evaluation starts from, and the last span of positive length.
//!
//! The functions are generic over the knot type. What they return is stated
//! through the type's comparison (`partial_cmp_spec`), for every type whose
//! `<` follows that comparison.
use vstd::prelude::*;
use vstd::std_specs::cmp::PartialOrdSpec;
use core::cmp::Ordering;
use vstd::std_specs::cmp::{OrdSpec, PartialEqSpec};
use vstd::laws_cmp::{obeys_cmp, obeys_partial_cmp_spec_properties, obeys_cmp_ord};
use vstd::laws_eq::obeys_eq_spec_properties;

verus! {

/// `a < b` by the comparison of `K`.
pub open spec fn less<K: PartialOrd>(a: K, b: K) -> bool {
    a.partial_cmp_spec(&b) == Some(Ordering::Less)
}

/// Once `value < data[i]` holds, it holds for every later index: what
/// sortedness of `data` gives a binary search.
pub open spec fn partitioned<K: PartialOrd>(data: Seq<K>, value: K) -> bool {
    forall|i: int, j: int|
        0 <= i <= j < data.len() && #[trigger] less(value, data[i]) ==> #[trigger] less(
            value,
            data[j],
        )
}

/// `r` is the index of the first element of `data` greater than `value`
/// (`data.len()` when there is none).
pub open spec fn is_upper_bound<K: PartialOrd>(data: Seq<K>, value: K, r: int) -> bool {
    &&& 0 <= r <= data.len()
    &&& forall|i: int| 0 <= i < r ==> !#[trigger] less(value, data[i])
    &&& forall|i: int| r <= i < data.len() ==> #[trigger] less(value, data[i])
}

/// Index of the first element of the sorted `data` that is greater than
/// `value`, or `None` when there is none.
pub fn upper_bound<K: PartialOrd>(data: &[K], value: &K) -> (r: Option<usize>)
    ensures
        r matches Some(x) ==> x < data@.len(),
        K::obeys_partial_cmp_spec() && partitioned(data@, *value) ==> match r {
            Some(x) => is_upper_bound(data@, *value, x as int),
            None => is_upper_bound(data@, *value, data@.len() as int),
        },
{
    let n = data.len();
    let mut first: usize = 0;
    let mut count: usize = n;
    while count > 0
        invariant
            n == data@.len(),
            first + count <= n,
            K::obeys_partial_cmp_spec() && partitioned(data@, *value) ==> {
                &&& forall|i: int| 0 <= i < first ==> !#[trigger] less(*value, data@[i])
                &&& forall|i: int| first + count <= i < n ==> #[trigger] less(*value, data@[i])
            },
        decreases count,
    {
        let step = count / 2;
        let it = first + step;
        let above = value.lt(&data[it]);
        proof {
            if K::obeys_partial_cmp_spec() && partitioned(data@, *value) {
                if above {
                    assert forall|i: int| it <= i < n implies #[trigger] less(*value, data@[i]) by {
                        assert(less(*value, data@[it as int]));
                    }
                } else {
                    assert forall|i: int| 0 <= i <= it implies !#[trigger] less(*value, data@[i]) by {
                        if less(*value, data@[i]) {
                            assert(less(*value, data@[it as int]));
                        }
                    }
                }
            }
        }
        if !above {
            first = it + 1;
            count = count - (step + 1);
        } else {
            count = step;
        }
    }
    if first == n {
        None
    } else {
        Some(first)
    }
}

/// The knot span from which a curve of degree `degree` is evaluated at `upper`,
/// the upper bound of the parameter in the knots: held within
/// `[degree, num_knots - degree - 1]` at both ends of the domain.
pub open spec fn span_of(num_knots: int, degree: int, upper: int) -> int {
    if upper == 0 {
        degree
    } else if upper >= num_knots - degree - 1 {
        num_knots - degree - 1
    } else {
        upper
    }
}

/// From span `s`, steps down over spans of zero length (`knots[s - 1]` not
/// below `knots[s]`), but not below `degree + 1`.
pub open spec fn hold_to_rise<K: PartialOrd>(knots: Seq<K>, degree: int, s: int) -> int
    decreases s - degree,
{
    if s > degree + 1 && !less(knots[s - 1], knots[s]) {
        hold_to_rise(knots, degree, s - 1)
    } else {
        s
    }
}

/// Knot span `i` for evaluating a curve of degree `degree` at `t`: the index
/// of the first knot greater than `t`, held to `[degree, knots.len() - degree - 1]`
/// at the ends of the domain, then moved down over spans of zero length so
/// that de Boor's blends never divide by zero at the right end of the domain.
pub fn find_span<K: PartialOrd>(knots: &[K], degree: usize, t: &K) -> (r: usize)
    requires
        knots@.len() >= 2 * degree + 1,
    ensures
        r <= knots@.len() - degree - 1,
        K::obeys_partial_cmp_spec() && r >= degree + 2 ==> less(knots@[r - 1], knots@[r as int]),
        K::obeys_partial_cmp_spec() && partitioned(knots@, *t) ==> {
            &&& exists|u: int|
                is_upper_bound(knots@, *t, u) && r == hold_to_rise(
                    knots@,
                    degree as int,
                    span_of(knots@.len() as int, degree as int, u),
                )
            &&& (forall|i: int| 0 <= i <= degree ==> !#[trigger] less(*t, knots@[i])) ==> degree
                + 1 <= r || knots@.len() - degree - 1 < degree + 1
        },
{
    let top = knots.len() - degree - 1;
    let ub = upper_bound(knots, t);
    let start = match ub {
        Some(x) => {
            if x == 0 {
                degree
            } else if x >= top {
                top
            } else {
                x
            }
        },
        None => top,
    };
    let floor = degree + 1;
    let mut r = start;
    while r > floor && !knots[r - 1].lt(&knots[r])
        invariant
            floor == degree + 1,
            knots@.len() >= 2 * degree + 1,
            degree + 1 <= r <= start || r == start,
            start <= top,
            top == knots@.len() - degree - 1,
            K::obeys_partial_cmp_spec() ==> hold_to_rise(knots@, degree as int, r as int)
                == hold_to_rise(knots@, degree as int, start as int),
        decreases r,
    {
        r = r - 1;
    }
    proof {
        if K::obeys_partial_cmp_spec() && partitioned(knots@, *t) {
            let u = match ub {
                Some(x) => x as int,
                None => knots@.len() as int,
            };
            assert(is_upper_bound(knots@, *t, u));
            if forall|i: int| 0 <= i <= degree ==> !#[trigger] less(*t, knots@[i]) {
                if u <= degree {
                    assert(less(*t, knots@[u]));
                }
            }
        }
    }
    r
}

/// Every value of `knots` is at most each later one.
pub open spec fn sorted<K: PartialOrd>(knots: Seq<K>) -> bool {
    forall|i: int, j: int| 0 <= i <= j < knots.len() ==> !#[trigger] less(knots[j], knots[i])
}

/// Over sorted knots of a totally ordered type, stepping down from span `s`
/// ends on a span of positive length, provided `knots[degree] < knots[s]`: so
/// `find_span` ends on one at both ends of a domain of positive length.
pub proof fn lemma_held_span_rises<K: Ord>(knots: Seq<K>, degree: int, s: int)
    requires
        obeys_cmp::<K>(),
        sorted(knots),
        0 <= degree,
        degree + 1 <= s < knots.len(),
        less(knots[degree], knots[s]),
    ensures
        ({
            let h = hold_to_rise(knots, degree, s);
            degree + 1 <= h <= s && less(knots[h - 1], knots[h])
        }),
    decreases s - degree,
{
    if s > degree + 1 && !less(knots[s - 1], knots[s]) {
        reveal(obeys_partial_cmp_spec_properties);
        reveal(obeys_cmp_ord);
        reveal(obeys_eq_spec_properties);
        let a = knots[degree];
        let b = knots[s - 1];
        let c = knots[s];
        assert(!less(c, b));
        assert(b.partial_cmp_spec(&c) == Some(b.cmp_spec(&c)));
        assert(c.partial_cmp_spec(&b) == Some(c.cmp_spec(&b)));
        assert(a.partial_cmp_spec(&b) == Some(a.cmp_spec(&b)));
        assert(b.partial_cmp_spec(&c) == Some(Ordering::Equal));
        assert(b.eq_spec(&c));
        if !less(a, b) {
            if a.cmp_spec(&b) == Ordering::Equal {
                assert(a.eq_spec(&b));
                assert(a.eq_spec(&c));
                assert(a.partial_cmp_spec(&c) == Some(Ordering::Equal));
            } else {
                assert(a.cmp_spec(&b) == Ordering::Greater);
                assert(less(b, a));
                assert(less(b, c));
            }
        }
        lemma_held_span_rises(knots, degree, s - 1);
    }
}

/// Index of the last span `[knots[i], knots[i + 1]]` of positive length among
/// the first `m` knots; zero when there is none.
pub open spec fn last_rise<K: PartialOrd>(knots: Seq<K>, m: nat) -> int
    decreases m,
{
    if m <= 1 {
        0
    } else if less(knots[m - 2], knots[m - 1]) {
        m - 2
    } else {
        last_rise(knots, (m - 1) as nat)
    }
}

/// The last index `i` with `knots[i] < knots[i + 1]`, or zero when the knots
/// never rise. The basis function that starts there stays one at the right
/// end of the domain.
pub fn last_increasing_span<K: PartialOrd>(knots: &[K]) -> (r: usize)
    requires
        knots@.len() >= 1,
    ensures
        r < knots@.len(),
        K::obeys_partial_cmp_spec() ==> r == last_rise(knots@, knots@.len()),
{
    let n = knots.len();
    let mut r: usize = 0;
    let mut i: usize = 0;
    while i + 1 < n
        invariant
            n == knots@.len(),
            n >= 1,
            i + 1 <= n,
            r < n,
            K::obeys_partial_cmp_spec() ==> r == last_rise(knots@, (i + 1) as nat),
        decreases n - i,
    {
        if knots[i].lt(&knots[i + 1]) {
            r = i;
        }
        i = i + 1;
    }
    r
}

} // verus!
