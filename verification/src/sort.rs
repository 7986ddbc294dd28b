//! Sorting in ascending order.
use vstd::prelude::*;

use crate::double::Double;

verus! {

/// Values that stand in a row.
pub trait Ranked: Copy {
    /// The place of a value.
    spec fn place(self) -> int;

    /// Whether this stands at or before `other`.
    fn at_or_before(self, other: Self) -> (res: bool)
        ensures
            res == (self.place() <= other.place()),
    ;
}

impl Ranked for Double {
    open spec fn place(self) -> int {
        self.rank()
    }

    fn at_or_before(self, other: Self) -> (res: bool) {
        self.ranks_at_most(other)
    }
}

impl Ranked for u32 {
    open spec fn place(self) -> int {
        self as int
    }

    fn at_or_before(self, other: Self) -> (res: bool) {
        self <= other
    }
}

/// The values do not descend.
pub open spec fn sorted<T: Ranked>(s: Seq<T>) -> bool {
    forall|i: int, j: int| 0 <= i <= j < s.len() ==> (#[trigger] s[i]).place() <= (
    #[trigger] s[j]).place()
}

proof fn lemma_concat_multiset<T>(a: Seq<T>, b: Seq<T>)
    ensures
        (a + b).to_multiset() == a.to_multiset().add(b.to_multiset()),
{
    vstd::seq_lib::lemma_multiset_commutative(a, b);
}

fn merge<T: Ranked>(a: &Vec<T>, b: &Vec<T>) -> (res: Vec<T>)
    requires
        sorted(a@),
        sorted(b@),
        a@.len() + b@.len() <= usize::MAX,
    ensures
        sorted(res@),
        res@.to_multiset() == a@.to_multiset().add(b@.to_multiset()),
        res@.len() == a@.len() + b@.len(),
{
    let mut out: Vec<T> = Vec::new();
    let mut i: usize = 0;
    let mut j: usize = 0;
    proof {
        assert(a@.take(0) =~= Seq::<T>::empty());
        assert(b@.take(0) =~= Seq::<T>::empty());
        a@.take(0).to_multiset_ensures();
        assert(out@.to_multiset() =~= a@.take(0).to_multiset().add(b@.take(0).to_multiset()));
    }
    while i < a.len() || j < b.len()
        invariant
            sorted(a@),
            sorted(b@),
            i <= a@.len(),
            j <= b@.len(),
            out@.len() == i + j,
            sorted(out@),
            forall|x: int, y: int|
                0 <= x < out@.len() && i <= y < a@.len() ==> (#[trigger] out@[x]).place() <= (
                #[trigger] a@[y]).place(),
            forall|x: int, y: int|
                0 <= x < out@.len() && j <= y < b@.len() ==> (#[trigger] out@[x]).place() <= (
                #[trigger] b@[y]).place(),
            out@.to_multiset() == a@.take(i as int).to_multiset().add(
                b@.take(j as int).to_multiset(),
            ),
        decreases a.len() - i + b.len() - j,
    {
        let ghost before = out@;
        let from_a = if i == a.len() {
            false
        } else if j == b.len() {
            true
        } else {
            a[i].at_or_before(b[j])
        };
        if from_a {
            let x = a[i];
            out.push(x);
            i += 1;
            proof {
                assert(a@.take(i as int) =~= a@.take(i - 1).push(x));
                before.to_multiset_ensures();
                a@.take(i - 1).to_multiset_ensures();
                assert(out@.to_multiset() =~= a@.take(i as int).to_multiset().add(
                    b@.take(j as int).to_multiset(),
                ));
            }
        } else {
            let x = b[j];
            out.push(x);
            j += 1;
            proof {
                assert(b@.take(j as int) =~= b@.take(j - 1).push(x));
                before.to_multiset_ensures();
                b@.take(j - 1).to_multiset_ensures();
                assert(out@.to_multiset() =~= a@.take(i as int).to_multiset().add(
                    b@.take(j as int).to_multiset(),
                ));
            }
        }
    }
    assert(a@.take(i as int) =~= a@);
    assert(b@.take(j as int) =~= b@);
    out
}

fn sort_range<T: Ranked>(v: &Vec<T>, from: usize, to: usize) -> (res: Vec<T>)
    requires
        from <= to <= v@.len(),
    ensures
        sorted(res@),
        res@.to_multiset() == v@.subrange(from as int, to as int).to_multiset(),
        res@.len() == to - from,
    decreases to - from,
{
    let total: usize = v.len();
    if to - from <= 1 {
        let mut out: Vec<T> = Vec::new();
        if from < to {
            out.push(v[from]);
        }
        assert(out@ =~= v@.subrange(from as int, to as int));
        out
    } else {
        let mid: usize = from + (to - from) / 2;
        let a = sort_range(v, from, mid);
        let b = sort_range(v, mid, to);
        let res = merge(&a, &b);
        proof {
            let x = v@.subrange(from as int, mid as int);
            let y = v@.subrange(mid as int, to as int);
            assert(x + y =~= v@.subrange(from as int, to as int));
            lemma_concat_multiset(x, y);
        }
        res
    }
}

/// The same values in ascending order.
pub fn sort<T: Ranked>(v: &Vec<T>) -> (res: Vec<T>)
    ensures
        sorted(res@),
        res@.to_multiset() == v@.to_multiset(),
        res@.len() == v@.len(),
{
    let res = sort_range(v, 0, v.len());
    assert(v@.subrange(0, v@.len() as int) =~= v@);
    res
}

/// Sorted numbers do not descend, nor do sorted unsigned integers.
pub proof fn law_sorted_does_not_descend(s: Seq<Double>, u: Seq<u32>, i: int, j: int)
    requires
        0 <= i < j,
    ensures
        sorted(s) && j < s.len() ==> !s[j].lt(s[i]),
        sorted(u) && j < u.len() ==> u[i] <= u[j],
{
    if sorted(s) && j < s.len() {
        assert(s[i].place() <= s[j].place());
    }
    if sorted(u) && j < u.len() {
        assert(u[i].place() <= u[j].place());
    }
}

} // verus!
