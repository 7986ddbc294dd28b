//! Choosing among candidates by distance.
use vstd::prelude::*;

use crate::double::{Double, INFINITY_BITS};

verus! {

/// The candidate with the least distance: the first one to start with, then each
/// one that is strictly nearer.
pub open spec fn nearest(d: Seq<Double>) -> Option<int>
    decreases d.len(),
{
    if d.len() == 0 {
        None
    } else {
        match nearest(d.drop_last()) {
            None => Some(0),
            Some(b) => if d.last().lt(d[b]) {
                Some(d.len() - 1)
            } else {
                Some(b)
            },
        }
    }
}

/// The candidate with the least distance, if that is below `limit`; distances
/// that are not below infinity do not count.
pub open spec fn closest(d: Seq<Double>) -> Option<int>
    decreases d.len(),
{
    if d.len() == 0 {
        None
    } else {
        let before = closest(d.drop_last());
        let best = match before {
            None => Double { bits: INFINITY_BITS },
            Some(b) => d[b],
        };
        if d.last().lt(best) {
            Some(d.len() - 1)
        } else {
            before
        }
    }
}

/// `i` is the first of the least distances.
pub open spec fn first_least(d: Seq<Double>, i: int) -> bool {
    &&& 0 <= i < d.len()
    &&& forall|j: int| 0 <= j < d.len() ==> !(#[trigger] d[j]).lt(d[i])
    &&& forall|j: int| 0 <= j < i ==> (#[trigger] d[j]).nan() || d[i].lt(d[j])
}

/// Among distances that are numbers, the nearest candidate is the first of the
/// least.
pub proof fn law_nearest_is_the_first_least(d: Seq<Double>)
    requires
        d.len() > 0,
        forall|j: int| 0 <= j < d.len() ==> !(#[trigger] d[j]).nan(),
    ensures
        nearest(d) matches Some(i) && first_least(d, i),
    decreases d.len(),
{
    let rest = d.drop_last();
    if rest.len() > 0 {
        assert forall|j: int| 0 <= j < rest.len() implies !(#[trigger] rest[j]).nan() by {
            assert(rest[j] == d[j]);
        }
        law_nearest_is_the_first_least(rest);
        let b = nearest(rest)->0;
        let i = nearest(d)->0;
        assert(rest[b] == d[b]);
        assert forall|j: int| 0 <= j < d.len() implies !(#[trigger] d[j]).lt(d[i]) by {
            if j < rest.len() {
                assert(rest[j] == d[j]);
                assert(!rest[j].lt(rest[b]));
            }
        }
        assert forall|j: int| 0 <= j < i implies (#[trigger] d[j]).nan() || d[i].lt(d[j]) by {
            if j < rest.len() {
                assert(rest[j] == d[j]);
                assert(!rest[j].lt(rest[b]));
            }
        }
    }
}

/// A closest candidate is the first of the least distances, whatever the others
/// are; there is one as soon as any distance is finite.
pub proof fn law_closest_is_the_first_least(d: Seq<Double>)
    ensures
        closest(d) matches Some(i) ==> first_least(d, i) && d[i].lt(Double { bits: INFINITY_BITS }),
        closest(d) is None ==> forall|j: int|
            0 <= j < d.len() ==> !(#[trigger] d[j]).lt(Double { bits: INFINITY_BITS }),
    decreases d.len(),
{
    if d.len() > 0 {
        let rest = d.drop_last();
        law_closest_is_the_first_least(rest);
        if closest(d) is Some {
            let i = closest(d)->0;
            assert forall|j: int| 0 <= j < d.len() implies !(#[trigger] d[j]).lt(d[i]) by {
                if j < rest.len() {
                    assert(rest[j] == d[j]);
                    if closest(rest) is Some {
                        assert(!rest[j].lt(rest[closest(rest)->0]));
                    }
                }
            }
            assert forall|j: int| 0 <= j < i implies (#[trigger] d[j]).nan() || d[i].lt(d[j]) by {
                assert(rest[j] == d[j]);
                if closest(rest) is Some {
                    let b = closest(rest)->0;
                    assert(!rest[j].lt(rest[b]));
                }
            }
        } else {
            assert forall|j: int| 0 <= j < d.len() implies !(#[trigger] d[j]).lt(
                Double { bits: INFINITY_BITS },
            ) by {
                if j < rest.len() {
                    assert(rest[j] == d[j]);
                }
            }
        }
    }
}

/// The candidate with the least distance.
pub fn nearest_index(d: &Vec<Double>) -> (res: Option<usize>)
    ensures
        match res {
            Some(i) => nearest(d@) == Some(i as int) && i < d@.len(),
            None => nearest(d@) is None && d@.len() == 0,
        },
{
    let mut best: Option<usize> = None;
    let mut i: usize = 0;
    while i < d.len()
        invariant
            i <= d@.len(),
            match best {
                Some(b) => nearest(d@.take(i as int)) == Some(b as int) && b < i,
                None => i == 0,
            },
        decreases d.len() - i,
    {
        assert(d@.take(i + 1).drop_last() =~= d@.take(i as int));
        best = match best {
            Some(b) => if d[i].is_less(d[b]) {
                Some(i)
            } else {
                Some(b)
            },
            None => {
                assert(d@.take(0).len() == 0);
                Some(0)
            },
        };
        i += 1;
    }
    assert(d@.take(i as int) =~= d@);
    best
}

/// The candidate with the least distance, if that is below `limit`.
pub fn nearest_within(d: &Vec<Double>, limit: Double) -> (res: Option<usize>)
    ensures
        match res {
            Some(i) => i < d@.len() && nearest(d@) == Some(i as int) && d@[i as int].lt(limit),
            None => nearest(d@) matches Some(i) ==> !d@[i].lt(limit),
        },
{
    match nearest_index(d) {
        Some(i) => if d[i].is_less(limit) {
            Some(i)
        } else {
            None
        },
        None => None,
    }
}

/// The candidate with the least distance, if that is below `limit`; none when no
/// distance is below infinity.
pub fn closest_within(d: &Vec<Double>, limit: Double) -> (res: Option<usize>)
    ensures
        match res {
            Some(i) => i < d@.len() && closest(d@) == Some(i as int) && d@[i as int].lt(limit),
            None => closest(d@) matches Some(i) ==> !d@[i].lt(limit),
        },
{
    let mut best: Option<usize> = None;
    let mut i: usize = 0;
    while i < d.len()
        invariant
            i <= d@.len(),
            match best {
                Some(b) => closest(d@.take(i as int)) == Some(b as int) && b < i,
                None => closest(d@.take(i as int)) is None,
            },
        decreases d.len() - i,
    {
        assert(d@.take(i + 1).drop_last() =~= d@.take(i as int));
        let least = match best {
            Some(b) => d[b],
            None => Double::from_bits(INFINITY_BITS),
        };
        if d[i].is_less(least) {
            best = Some(i);
        }
        i += 1;
    }
    assert(d@.take(i as int) =~= d@);
    match best {
        Some(b) => if d[b].is_less(limit) {
            Some(b)
        } else {
            None
        },
        None => None,
    }
}

/// Whether any distance is below `limit`.
pub fn any_within(d: &Vec<Double>, limit: Double) -> (res: bool)
    ensures
        res == exists|i: int| 0 <= i < d@.len() && (#[trigger] d@[i]).lt(limit),
{
    let mut i: usize = 0;
    while i < d.len()
        invariant
            i <= d@.len(),
            forall|j: int| 0 <= j < i ==> !(#[trigger] d@[j]).lt(limit),
        decreases d.len() - i,
    {
        if d[i].is_less(limit) {
            return true;
        }
        i += 1;
    }
    false
}

/// Whether some candidate's distance is not known.
pub open spec fn any_unknown(d: Seq<Option<Double>>) -> bool {
    exists|i: int| 0 <= i < d.len() && (#[trigger] d[i]) is None
}

/// Is camera `ci` the nearest one to a point, given each camera's (Manhattan)
/// distance to it? `None` when any camera's position is not known yet.
pub fn owns_point(d: &Vec<Option<Double>>, ci: usize) -> (res: Option<bool>)
    requires
        ci < d@.len(),
    ensures
        res is None <==> any_unknown(d@),
        res matches Some(owns) ==> owns == (!d@[ci as int]->0.nan() && forall|i: int|
            0 <= i < d@.len() && !(#[trigger] d@[i])->0.nan() ==> d@[ci as int]->0.le(d@[i]->0)),
{
    let mut i: usize = 0;
    while i < d.len()
        invariant
            i <= d@.len(),
            forall|j: int| 0 <= j < i ==> (#[trigger] d@[j]) is Some,
        decreases d.len() - i,
    {
        if d[i].is_none() {
            return None;
        }
        i += 1;
    }
    let own = d[ci].unwrap();
    if own.is_nan() {
        return Some(false);
    }
    let mut k: usize = 0;
    while k < d.len()
        invariant
            k <= d@.len(),
            forall|j: int| 0 <= j < d@.len() ==> (#[trigger] d@[j]) is Some,
            !own.nan(),
            forall|j: int| 0 <= j < k && !(#[trigger] d@[j])->0.nan() ==> own.le(d@[j]->0),
            own == d@[ci as int]->0,
        decreases d.len() - k,
    {
        let other = d[k].unwrap();
        if !other.is_nan() && !own.is_at_most(other) {
            assert(!d@[k as int]->0.nan());
            return Some(false);
        }
        k += 1;
    }
    Some(true)
}

/// Camera `ci` is at least as near as every other one.
pub open spec fn is_owner(d: Seq<Double>, ci: int) -> bool {
    0 <= ci < d.len() && forall|i: int| 0 <= i < d.len() ==> d[ci].le(#[trigger] d[i])
}

/// The point is owned by at least one camera when all positions are known and
/// all distances are numbers: regions leave no gap.
pub proof fn law_every_point_is_owned(d: Seq<Double>)
    requires
        d.len() > 0,
        forall|j: int| 0 <= j < d.len() ==> !(#[trigger] d[j]).nan(),
    ensures
        exists|ci: int| is_owner(d, ci),
{
    law_nearest_is_the_first_least(d);
    let ci = nearest(d)->0;
    assert forall|i: int| 0 <= i < d.len() implies d[ci].le(#[trigger] d[i]) by {
        assert(!d[i].lt(d[ci]));
    }
    assert(is_owner(d, ci));
}

/// The nearest candidate is not farther than any other and nearer than all before it;
/// what is not a number is passed over, unless it comes first, which nothing is nearer
/// than.
pub proof fn law_nearest_by_comparison(d: Seq<Double>)
    requires
        d.len() > 0,
    ensures
        nearest(d) matches Some(i) && 0 <= i < d.len() && (d[0].nan() ==> i == 0) && (!d[0].nan()
            ==> !d[i].nan()) && (forall|j: int| 0 <= j < d.len() ==> !(#[trigger] d[j]).lt(d[i])) && (
        forall|j: int| 0 <= j < i ==> (#[trigger] d[j]).nan() || d[i].lt(d[j])),
    decreases d.len(),
{
    let rest = d.drop_last();
    if rest.len() > 0 {
        law_nearest_by_comparison(rest);
        let b = nearest(rest)->0;
        let i = nearest(d)->0;
        assert(rest[0] == d[0]);
        assert forall|j: int| 0 <= j < d.len() implies !(#[trigger] d[j]).lt(d[i]) by {
            if j < rest.len() {
                assert(!rest[j].lt(rest[b]));
            }
        }
        assert forall|j: int| 0 <= j < i implies (#[trigger] d[j]).nan() || d[i].lt(d[j]) by {
            assert(rest[j] == d[j]);
            assert(!rest[j].lt(rest[b]));
        }
    }
}

/// The first of the least has none below it, and only larger ones before it.
pub proof fn law_first_least_by_comparison(d: Seq<Double>, i: int, j: int)
    requires
        first_least(d, i),
        0 <= j < d.len(),
    ensures
        0 <= i < d.len(),
        !d[j].lt(d[i]),
        j < i && !d[j].nan() ==> d[i].lt(d[j]),
{
}

/// A distance is unknown if it is not given; an owner is at most as far as each other
/// camera.
pub proof fn law_owners_are_nearest(d: Seq<Double>, ci: int, i: int, o: Seq<Option<Double>>)
    ensures
        is_owner(d, ci) && 0 <= i < d.len() ==> 0 <= ci < d.len() && !d[i].lt(d[ci]) && !d[ci].nan(),
        0 <= i < o.len() && o[i] is None ==> any_unknown(o),
        any_unknown(o) ==> exists|j: int| 0 <= j < o.len() && #[trigger] o[j] is None,
{
    if 0 <= ci < d.len() && is_owner(d, ci) && 0 <= i < d.len() {
        assert(d[ci].le(d[i]));
    }
}

} // verus!
