//! Order statistics: searching, sorting, selecting and counting numbers.
use vstd::prelude::*;

use crate::double::Double;
use crate::sort::{self, Ranked};

verus! {

// ---------------------------------------------------------------- searching

/// Whether a number is on the near side of a bound: below it or, if `inclusive`,
/// not above it.
pub open spec fn near_side(x: Double, bound: Double, inclusive: bool) -> bool {
    if inclusive {
        x.le(bound)
    } else {
        x.lt(bound)
    }
}

/// All numbers on the near side come first.
pub open spec fn partitioned(s: Seq<Double>, bound: Double, inclusive: bool) -> bool {
    forall|i: int, j: int|
        0 <= i < j < s.len() && near_side(#[trigger] s[j], bound, inclusive) ==> near_side(
            #[trigger] s[i],
            bound,
            inclusive,
        )
}

/// The first `n` numbers are on the near side and no others are.
pub open spec fn splits(s: Seq<Double>, bound: Double, inclusive: bool, n: int) -> bool {
    &&& 0 <= n <= s.len()
    &&& forall|i: int| 0 <= i < n ==> near_side(#[trigger] s[i], bound, inclusive)
    &&& forall|i: int| n <= i < s.len() ==> !near_side(#[trigger] s[i], bound, inclusive)
}

/// How many numbers are on the near side of a bound, if all of them come first.
pub fn partition_point(s: &Vec<Double>, bound: Double, inclusive: bool) -> (res: usize)
    ensures
        res <= s@.len(),
        partitioned(s@, bound, inclusive) ==> splits(s@, bound, inclusive, res as int),
{
    let mut lo: usize = 0;
    let mut hi: usize = s.len();
    while lo < hi
        invariant
            lo <= hi <= s@.len(),
            partitioned(s@, bound, inclusive) ==> {
                &&& forall|i: int| 0 <= i < lo ==> near_side(#[trigger] s@[i], bound, inclusive)
                &&& forall|i: int|
                    hi <= i < s@.len() ==> !near_side(#[trigger] s@[i], bound, inclusive)
            },
        decreases hi - lo,
    {
        let mid: usize = lo + (hi - lo) / 2;
        let near = if inclusive {
            s[mid].is_at_most(bound)
        } else {
            s[mid].is_less(bound)
        };
        assert(near == near_side(s@[mid as int], bound, inclusive));
        if near {
            lo = mid + 1;
        } else {
            hi = mid;
        }
    }
    lo
}

/// Numbers that do not descend are partitioned by every bound.
pub proof fn law_sorted_numbers_are_partitioned(s: Seq<Double>, bound: Double, inclusive: bool)
    requires
        sort::sorted(s),
        forall|i: int| 0 <= i < s.len() ==> !(#[trigger] s[i]).nan(),
    ensures
        partitioned(s, bound, inclusive),
{
    assert forall|i: int, j: int|
        0 <= i < j < s.len() && near_side(#[trigger] s[j], bound, inclusive) implies near_side(
        #[trigger] s[i],
        bound,
        inclusive,
    ) by {
        assert(s[i].place() <= s[j].place());
    }
}

// ---------------------------------------------------------------- sorting

/// A number with its place in a list.
#[derive(Clone, Copy, Debug, PartialEq, Eq, Structural)]
pub struct Keyed {
    /// The number.
    pub x: Double,
    /// Its place.
    pub i: usize,
}

impl Ranked for Keyed {
    open spec fn place(self) -> int {
        self.x.rank() * (usize::MAX + 1) + self.i
    }

    fn at_or_before(self, other: Self) -> (res: bool) {
        proof {
            let n = usize::MAX as int + 1;
            let a = self.x.rank();
            let b = other.x.rank();
            assert(a < b ==> a * n + n <= b * n) by (nonlinear_arith)
                requires
                    n > 0,
            ;
            assert(b < a ==> b * n + n <= a * n) by (nonlinear_arith)
                requires
                    n > 0,
            ;
        }
        if !self.x.ranks_at_most(other.x) {
            false
        } else if !other.x.ranks_at_most(self.x) {
            true
        } else {
            self.i <= other.i
        }
    }
}

/// `order` lists the places of `s` by ascending number; places of equal numbers
/// ascend.
pub open spec fn is_order(s: Seq<Double>, order: Seq<usize>) -> bool {
    &&& order.len() == s.len()
    &&& forall|k: int| 0 <= k < order.len() ==> (#[trigger] order[k]) < s.len()
    &&& forall|k: int, l: int|
        0 <= k < l < order.len() ==> {
            let a = #[trigger] order[k];
            let b = #[trigger] order[l];
            s[a as int].rank() < s[b as int].rank() || (s[a as int].rank() == s[b as int].rank()
                && a < b)
        }
}

/// The places of a list in the order of its numbers, equal numbers as they stand.
pub fn order(s: &Vec<Double>) -> (res: Vec<usize>)
    ensures
        is_order(s@, res@),
{
    let total: usize = s.len();
    let mut keyed: Vec<Keyed> = Vec::new();
    let mut i: usize = 0;
    while i < total
        invariant
            i <= total,
            total == s@.len(),
            keyed@.len() == i,
            forall|j: int|
                0 <= j < i ==> (#[trigger] keyed@[j]).i == j && keyed@[j].x == s@[j],
        decreases total - i,
    {
        keyed.push(Keyed { x: s[i], i });
        i += 1;
    }
    let by_number = sort::sort(&keyed);
    proof {
        lemma_keyed(s@, keyed@, by_number@);
    }
    let mut out: Vec<usize> = Vec::new();
    let mut k: usize = 0;
    while k < total
        invariant
            k <= total,
            total == by_number@.len(),
            out@.len() == k,
            forall|j: int| 0 <= j < k ==> #[trigger] out@[j] == by_number@[j].i,
        decreases total - k,
    {
        out.push(by_number[k].i);
        k += 1;
    }
    proof {
        assert forall|a: int, b: int| 0 <= a < b < out@.len() implies {
            let x = #[trigger] out@[a];
            let y = #[trigger] out@[b];
            s@[x as int].rank() < s@[y as int].rank() || (s@[x as int].rank() == s@[y as int].rank()
                && x < y)
        } by {
            assert(by_number@[a].i == out@[a] && by_number@[b].i == out@[b]);
        }
    }
    out
}

proof fn lemma_keyed(s: Seq<Double>, keyed: Seq<Keyed>, out: Seq<Keyed>)
    requires
        keyed.len() == s.len(),
        forall|j: int|
            0 <= j < keyed.len() ==> (#[trigger] keyed[j]).i == j && keyed[j].x == s[j],
        sort::sorted(out),
        out.to_multiset() == keyed.to_multiset(),
        out.len() == keyed.len(),
    ensures
        forall|k: int|
            0 <= k < out.len() ==> (#[trigger] out[k]).i < s.len() && out[k].x == s[out[k].i as int],
        forall|k: int, l: int|
            0 <= k < l < out.len() ==> {
                let a = #[trigger] out[k];
                let b = #[trigger] out[l];
                a.x.rank() < b.x.rank() || (a.x.rank() == b.x.rank() && a.i < b.i)
            },
{
    assert forall|k: int| 0 <= k < out.len() implies (#[trigger] out[k]).i < s.len() && out[k].x
        == s[out[k].i as int] by {
        out.to_multiset_ensures();
        keyed.to_multiset_ensures();
        assert(out.contains(out[k]));
        assert(out.to_multiset().contains(out[k]));
        assert(keyed.contains(out[k]));
    }
    assert(keyed.no_duplicates()) by {
        assert forall|a: int, b: int|
            0 <= a < keyed.len() && 0 <= b < keyed.len() && a != b implies keyed[a] != keyed[b] by {
            assert(keyed[a].i == a && keyed[b].i == b);
        }
    }
    keyed.lemma_multiset_has_no_duplicates();
    out.lemma_multiset_has_no_duplicates_conv();
    assert forall|k: int, l: int| 0 <= k < l < out.len() implies {
        let a = #[trigger] out[k];
        let b = #[trigger] out[l];
        a.x.rank() < b.x.rank() || (a.x.rank() == b.x.rank() && a.i < b.i)
    } by {
        let a = out[k];
        let b = out[l];
        assert(a.place() <= b.place());
        assert(a != b);
        let n = usize::MAX as int + 1;
        let ra = a.x.rank();
        let rb = b.x.rank();
        assert(rb < ra ==> rb * n + n <= ra * n) by (nonlinear_arith)
            requires
                n > 0,
        ;
        if ra == rb {
            assert(a.i <= b.i);
            assert(a.x == s[a.i as int] && b.x == s[b.i as int]);
        }
    }
}

/// A list without what is not a number.
pub open spec fn numbers_of(s: Seq<Double>) -> Seq<Double>
    decreases s.len(),
{
    if s.len() == 0 {
        seq![]
    } else if !s.last().nan() {
        numbers_of(s.drop_last()).push(s.last())
    } else {
        numbers_of(s.drop_last())
    }
}

/// Sorted copy without NaNs.
pub fn sorted(s: &Vec<Double>) -> (res: Vec<Double>)
    ensures
        sort::sorted(res@),
        res@.to_multiset() == numbers_of(s@).to_multiset(),
        res@.len() == numbers_of(s@).len(),
{
    let mut out: Vec<Double> = Vec::new();
    let mut i: usize = 0;
    while i < s.len()
        invariant
            i <= s@.len(),
            out@ == numbers_of(s@.take(i as int)),
        decreases s.len() - i,
    {
        assert(s@.take(i + 1).drop_last() =~= s@.take(i as int));
        if !s[i].is_nan() {
            out.push(s[i]);
        }
        i += 1;
    }
    assert(s@.take(i as int) =~= s@);
    sort::sort(&out)
}

/// The middle one of some numbers in ascending order, the upper one of two; zero
/// if there are none.
pub fn median_of(s: &Vec<Double>) -> (res: Double)
    ensures
        s@.len() == 0 ==> res == Double::zero(),
        s@.len() > 0 ==> exists|sorted: Seq<Double>|
            #![trigger sort::sorted(sorted)]
            sort::sorted(sorted) && sorted.to_multiset() == s@.to_multiset() && sorted.len()
                == s@.len() && res == sorted[(s@.len() / 2) as int],
{
    if s.len() == 0 {
        return Double::zero();
    }
    let all = sort::sort(s);
    let res = all[all.len() / 2];
    assert(sort::sorted(all@));
    res
}

/// Different numbers of a list in ascending order.
pub open spec fn is_distinct(s: Seq<u32>, d: Seq<u32>) -> bool {
    &&& forall|i: int, j: int| 0 <= i < j < d.len() ==> d[i] < d[j]
    &&& forall|x: u32| #[trigger] d.contains(x) <==> s.contains(x)
}

/// The different numbers of a list in ascending order.
pub fn distinct(s: &Vec<u32>) -> (res: Vec<u32>)
    ensures
        is_distinct(s@, res@),
{
    let all = sort::sort(s);
    let total: usize = all.len();
    let mut out: Vec<u32> = Vec::new();
    let mut i: usize = 0;
    while i < total
        invariant
            i <= total,
            total == all@.len(),
            sort::sorted(all@),
            i == 0 <==> out@.len() == 0,
            i > 0 ==> out@.last() == all@[i - 1],
            forall|a: int, b: int| 0 <= a < b < out@.len() ==> out@[a] < out@[b],
            forall|a: int| 0 <= a < out@.len() ==> all@.contains(#[trigger] out@[a]),
            forall|a: int| 0 <= a < i ==> out@.contains(#[trigger] all@[a]),
        decreases total - i,
    {
        let x: u32 = all[i];
        let ghost before = out@;
        let fresh = if out.len() == 0 {
            true
        } else {
            out[out.len() - 1] != x
        };
        if fresh {
            proof {
                if i > 0 {
                    assert(all@[i - 1].place() <= all@[i as int].place());
                    assert forall|a: int| 0 <= a < before.len() implies before[a] < x by {
                        if a < before.len() - 1 {
                            assert(before[a] < before[before.len() - 1]);
                        }
                    }
                }
            }
            out.push(x);
            assert(out@[before.len() as int] == x);
            assert(all@.contains(x));
        }
        proof {
            assert forall|a: int| 0 <= a < i + 1 implies out@.contains(#[trigger] all@[a]) by {
                if a < i {
                    assert(before.contains(all@[a]));
                    let k = choose|k: int| 0 <= k < before.len() && before[k] == all@[a];
                    assert(out@[k] == all@[a]);
                } else {
                    assert(out@[out@.len() - 1] == x);
                }
            }
            assert forall|a: int| 0 <= a < out@.len() implies all@.contains(#[trigger] out@[a]) by {
                if a < before.len() {
                    assert(out@[a] == before[a]);
                }
            }
        }
        i += 1;
    }
    proof {
        s@.to_multiset_ensures();
        all@.to_multiset_ensures();
        assert forall|x: u32| #[trigger] out@.contains(x) <==> s@.contains(x) by {
            if out@.contains(x) {
                let a = choose|a: int| 0 <= a < out@.len() && out@[a] == x;
                assert(all@.contains(out@[a]));
                assert(all@.to_multiset().contains(x));
            }
            if s@.contains(x) {
                assert(s@.to_multiset().contains(x));
                assert(all@.contains(x));
                let a = choose|a: int| 0 <= a < all@.len() && all@[a] == x;
                assert(out@.contains(all@[a]));
            }
        }
    }
    out
}

/// The places to keep so that no number follows an equal one: each number that
/// equals the last one kept is dropped.
pub open spec fn dedup_of(s: Seq<Double>) -> Seq<usize>
    decreases s.len(),
{
    if s.len() == 0 {
        seq![]
    } else {
        let before = dedup_of(s.drop_last());
        if before.len() > 0 && s[before.last() as int].same(s.last()) {
            before
        } else {
            before.push((s.len() - 1) as usize)
        }
    }
}

/// The places to keep so that no number follows an equal one.
pub fn dedup(s: &Vec<Double>) -> (res: Vec<usize>)
    ensures
        res@ == dedup_of(s@),
{
    let mut out: Vec<usize> = Vec::new();
    let mut i: usize = 0;
    while i < s.len()
        invariant
            i <= s@.len(),
            out@ == dedup_of(s@.take(i as int)),
            forall|k: int| 0 <= k < out@.len() ==> (#[trigger] out@[k]) < i,
        decreases s.len() - i,
    {
        let ghost part = s@.take(i + 1);
        assert(part.drop_last() =~= s@.take(i as int));
        let repeated = if out.len() == 0 {
            false
        } else {
            assert(out@[out@.len() - 1] < i);
            s[out[out.len() - 1]].is_same(s[i])
        };
        if !repeated {
            out.push(i);
        }
        i += 1;
    }
    assert(s@.take(i as int) =~= s@);
    out
}

// ---------------------------------------------------------------- selecting

/// The places of the flags that are set.
pub open spec fn set_places(flags: Seq<bool>) -> Seq<usize>
    decreases flags.len(),
{
    if flags.len() == 0 {
        seq![]
    } else if flags.last() {
        set_places(flags.drop_last()).push((flags.len() - 1) as usize)
    } else {
        set_places(flags.drop_last())
    }
}

/// The places of the flags that are set.
pub fn places(flags: &Vec<bool>) -> (res: Vec<usize>)
    ensures
        res@ == set_places(flags@),
{
    let mut out: Vec<usize> = Vec::new();
    let mut i: usize = 0;
    while i < flags.len()
        invariant
            i <= flags@.len(),
            out@ == set_places(flags@.take(i as int)),
        decreases flags.len() - i,
    {
        assert(flags@.take(i + 1).drop_last() =~= flags@.take(i as int));
        if flags[i] {
            out.push(i);
        }
        i += 1;
    }
    assert(flags@.take(i as int) =~= flags@);
    out
}

/// Exactly the set flags are listed, in order.
pub proof fn law_places_are_the_set_flags(flags: Seq<bool>, i: int)
    requires
        0 <= i < flags.len() <= usize::MAX,
    ensures
        set_places(flags).contains(i as usize) <==> flags[i],
        forall|k: int|
            0 <= k < set_places(flags).len() ==> (#[trigger] set_places(flags)[k]) < flags.len(),
    decreases flags.len(),
{
    let rest = flags.drop_last();
    let p = set_places(flags);
    let q = set_places(rest);
    if rest.len() > 0 {
        law_places_are_the_set_flags(
            rest,
            if i < rest.len() {
                i
            } else {
                0
            },
        );
    }
    if flags.last() {
        assert(p[q.len() as int] == (flags.len() - 1) as usize);
    }
    if i < rest.len() {
        if flags[i] {
            let k = choose|k: int| 0 <= k < q.len() && q[k] == i as usize;
            assert(p[k] == i as usize);
        }
        if p.contains(i as usize) {
            let k = choose|k: int| 0 <= k < p.len() && p[k] == i as usize;
            if k < q.len() {
                assert(q[k] == i as usize);
            }
        }
    } else if p.contains(i as usize) {
        let k = choose|k: int| 0 <= k < p.len() && p[k] == i as usize;
        if k < q.len() {
            assert(q[k] < rest.len());
        }
    }
    assert forall|k: int| 0 <= k < p.len() implies (#[trigger] p[k]) < flags.len() by {
        if k < q.len() {
            assert(p[k] == q[k]);
        }
    }
}

// ---------------------------------------------------------------- counting

/// Whether a number is at least `lo` and below `hi`.
pub open spec fn in_range(x: Double, lo: Double, hi: Double) -> bool {
    lo.le(x) && x.lt(hi)
}

/// Counts per bin over `[lo, hi)`, and the numbers below and above it.
#[derive(Clone, Debug)]
pub struct Histogram {
    /// Numbers per bin.
    pub counts: Vec<usize>,
    /// Numbers below the range.
    pub below: usize,
    /// Numbers at its end or above.
    pub above: usize,
}

/// Counts of a histogram as a value.
#[verifier::ext_equal]
pub struct Tally {
    /// Numbers per bin.
    pub counts: Seq<int>,
    /// Numbers below the range.
    pub below: int,
    /// Numbers at its end or above.
    pub above: int,
}

/// A number with the bin that it falls into if it is in the range.
#[derive(Clone, Copy, Debug, PartialEq, Eq, Structural)]
pub struct Binned {
    /// The number.
    pub x: Double,
    /// Its bin.
    pub bin: usize,
}

/// The counts of some numbers. Numbers that are not finite do not count; a bin
/// past the last one counts as the last one.
pub open spec fn tally(s: Seq<Binned>, lo: Double, hi: Double, bins: int) -> Tally
    decreases s.len(),
{
    if s.len() == 0 {
        Tally { counts: Seq::new(bins as nat, |i: int| 0), below: 0, above: 0 }
    } else {
        let t = tally(s.drop_last(), lo, hi, bins);
        let b = s.last();
        if !b.x.finite() {
            t
        } else if b.x.lt(lo) {
            Tally { below: t.below + 1, ..t }
        } else if hi.le(b.x) {
            Tally { above: t.above + 1, ..t }
        } else {
            let k = if b.bin < bins {
                b.bin as int
            } else {
                bins - 1
            };
            Tally { counts: t.counts.update(k, t.counts[k] + 1), ..t }
        }
    }
}

impl Histogram {
    /// The counts as a value.
    pub open spec fn view(&self) -> Tally {
        Tally {
            counts: self.counts@.map_values(|c: usize| c as int),
            below: self.below as int,
            above: self.above as int,
        }
    }

    /// Count numbers in `bins` bins over `[lo, hi)`.
    pub fn new(v: &Vec<Binned>, lo: Double, hi: Double, bins: usize) -> (res: Self)
        requires
            bins > 0,
        ensures
            res@ == tally(v@, lo, hi, bins as int),
            res.counts@.len() == bins,
    {
        let total: usize = v.len();
        let ghost as_int = |c: usize| c as int;
        let mut counts: Vec<usize> = Vec::new();
        let mut k: usize = 0;
        while k < bins
            invariant
                k <= bins,
                counts@.len() == k,
                forall|i: int| 0 <= i < k ==> counts@[i] == 0,
            decreases bins - k,
        {
            counts.push(0);
            k += 1;
        }
        let mut below: usize = 0;
        let mut above: usize = 0;
        let mut i: usize = 0;
        assert(counts@.map_values(as_int) =~= tally(v@.take(0), lo, hi, bins as int).counts);
        while i < total
            invariant
                i <= total,
                total == v@.len(),
                bins > 0,
                as_int == (|c: usize| c as int),
                counts@.len() == bins,
                below <= i,
                above <= i,
                forall|j: int| 0 <= j < bins ==> (#[trigger] counts@[j]) <= i,
                (Tally {
                    counts: counts@.map_values(as_int),
                    below: below as int,
                    above: above as int,
                }) == tally(v@.take(i as int), lo, hi, bins as int),
            decreases total - i,
        {
            assert(v@.take(i + 1).drop_last() =~= v@.take(i as int));
            let b = v[i];
            if b.x.is_finite() {
                if b.x.is_less(lo) {
                    below += 1;
                } else if hi.is_at_most(b.x) {
                    above += 1;
                } else {
                    let k: usize = if b.bin < bins {
                        b.bin
                    } else {
                        bins - 1
                    };
                    let ghost before = counts@;
                    let c: usize = counts[k];
                    counts.set(k, c + 1);
                    assert(counts@.map_values(as_int) =~= before.map_values(as_int).update(
                        k as int,
                        c + 1,
                    ));
                }
            }
            i += 1;
        }
        assert(v@.take(i as int) =~= v@);
        Histogram { counts, below, above }
    }

    /// Length of the bar of each bin when the longest is `width`.
    pub fn bars(&self, width: usize) -> (res: Vec<usize>)
        requires
            forall|i: int|
                0 <= i < self.counts@.len() ==> (#[trigger] self.counts@[i]) * width <= usize::MAX,
        ensures
            res@.len() == self.counts@.len(),
            forall|i: int|
                0 <= i < res@.len() ==> #[trigger] res@[i] == self.counts@[i] * width / largest(
                    self.counts@,
                ),
    {
        let total: usize = self.counts.len();
        let mut max: usize = 1;
        let mut i: usize = 0;
        while i < total
            invariant
                i <= total,
                total == self.counts@.len(),
                max == largest(self.counts@.take(i as int)),
                max >= 1,
            decreases total - i,
        {
            assert(self.counts@.take(i + 1).drop_last() =~= self.counts@.take(i as int));
            if self.counts[i] > max {
                max = self.counts[i];
            }
            i += 1;
        }
        assert(self.counts@.take(i as int) =~= self.counts@);
        let mut out: Vec<usize> = Vec::new();
        let mut k: usize = 0;
        while k < total
            invariant
                k <= total,
                total == self.counts@.len(),
                max == largest(self.counts@),
                max >= 1,
                out@.len() == k,
                forall|i: int|
                    0 <= i < self.counts@.len() ==> (#[trigger] self.counts@[i]) * width
                        <= usize::MAX,
                forall|i: int|
                    0 <= i < k ==> #[trigger] out@[i] == self.counts@[i] * width / largest(
                        self.counts@,
                    ),
            decreases total - k,
        {
            assert(self.counts@[k as int] * width <= usize::MAX);
            out.push(self.counts[k] * width / max);
            k += 1;
        }
        out
    }
}

/// The largest count, but at least 1.
pub open spec fn largest(counts: Seq<usize>) -> int
    decreases counts.len(),
{
    if counts.len() == 0 {
        1
    } else {
        let before = largest(counts.drop_last());
        if counts.last() > before {
            counts.last() as int
        } else {
            before
        }
    }
}

proof fn lemma_sum_update(s: Seq<int>, k: int)
    requires
        0 <= k < s.len(),
    ensures
        total_of(s.update(k, s[k] + 1)) == total_of(s) + 1,
    decreases s.len(),
{
    let t = s.update(k, s[k] + 1);
    if k == s.len() - 1 {
        assert(t.drop_last() =~= s.drop_last());
    } else {
        assert(t.drop_last() =~= s.drop_last().update(k, s[k] + 1));
        lemma_sum_update(s.drop_last(), k);
    }
}

/// Sum of some counts.
pub open spec fn total_of(s: Seq<int>) -> int
    decreases s.len(),
{
    if s.len() == 0 {
        0
    } else {
        total_of(s.drop_last()) + s.last()
    }
}

proof fn lemma_zeros(n: nat)
    ensures
        total_of(Seq::new(n, |i: int| 0int)) == 0,
    decreases n,
{
    if n > 0 {
        assert(Seq::new(n, |i: int| 0int).drop_last() =~= Seq::new((n - 1) as nat, |i: int| 0int));
        lemma_zeros((n - 1) as nat);
    }
}

/// How many finite numbers there are.
pub open spec fn finite_count(s: Seq<Binned>) -> int
    decreases s.len(),
{
    if s.len() == 0 {
        0
    } else {
        finite_count(s.drop_last()) + if s.last().x.finite() {
            1int
        } else {
            0
        }
    }
}

/// Every finite number is counted once: in a bin, below or above.
pub proof fn law_histogram_counts_every_number(
    s: Seq<Binned>,
    lo: Double,
    hi: Double,
    bins: int,
)
    requires
        bins > 0,
    ensures
        ({
            let t = tally(s, lo, hi, bins);
            &&& t.counts.len() == bins
            &&& total_of(t.counts) + t.below + t.above == finite_count(s)
        }),
    decreases s.len(),
{
    if s.len() == 0 {
        lemma_zeros(bins as nat);
    } else {
        law_histogram_counts_every_number(s.drop_last(), lo, hi, bins);
        let t = tally(s.drop_last(), lo, hi, bins);
        let b = s.last();
        if b.x.finite() && !b.x.lt(lo) && !hi.le(b.x) {
            let k = if b.bin < bins {
                b.bin as int
            } else {
                bins - 1
            };
            lemma_sum_update(t.counts, k);
        }
    }
}

/// The places of the set flags ascend, so none is listed twice, and there are as many
/// as set flags.
pub proof fn law_places_ascend(flags: Seq<bool>)
    requires
        flags.len() <= usize::MAX,
    ensures
        forall|k: int, l: int|
            0 <= k < l < set_places(flags).len() ==> set_places(flags)[k] < set_places(flags)[l],
        forall|k: int|
            0 <= k < set_places(flags).len() ==> (#[trigger] set_places(flags)[k]) < flags.len()
                && flags[set_places(flags)[k] as int],
        set_places(flags).len() == flags.filter(|f: bool| f).len(),
    decreases flags.len(),
{
    reveal(Seq::filter);
    if flags.len() > 0 {
        let rest = flags.drop_last();
        law_places_ascend(rest);
        let p = set_places(flags);
        let q = set_places(rest);
        assert forall|k: int, l: int| 0 <= k < l < p.len() implies p[k] < p[l] by {
            assert(p[k] == q[k]);
            if l < q.len() {
                assert(p[l] == q[l]);
            }
        }
        assert forall|k: int| 0 <= k < p.len() implies (#[trigger] p[k]) < flags.len()
            && flags[p[k] as int] by {
            if k < q.len() {
                assert(p[k] == q[k]);
                assert(rest[q[k] as int] == flags[q[k] as int]);
            }
        }
    }
}

/// A place is listed exactly if its flag is set: of flags given by a condition, the
/// places where the condition holds.
pub proof fn law_listed_where_it_holds(flags: Seq<bool>)
    requires
        flags.len() <= usize::MAX,
    ensures
        forall|i: int|
            #![trigger flags[i]]
            0 <= i < flags.len() ==> (set_places(flags).contains(i as usize) <==> flags[i]),
{
    assert forall|i: int|
        #![trigger flags[i]]
        0 <= i < flags.len() implies (set_places(flags).contains(i as usize) <==> flags[i]) by {
        law_places_are_the_set_flags(flags, i);
    }
}

/// The near side of a bound is below it, with the bound itself where it is included;
/// a split puts exactly what is there in front.
pub proof fn law_near_side_is_below(s: Seq<Double>, bound: Double, inclusive: bool, n: int, i: int)
    requires
        splits(s, bound, inclusive, n),
        0 <= i < s.len(),
    ensures
        0 <= n <= s.len(),
        i < n ==> !bound.lt(s[i]) && !s[i].nan() && !bound.nan(),
        i < n && !inclusive ==> s[i].lt(bound),
        i >= n && !s[i].nan() && !bound.nan() ==> !s[i].lt(bound),
        i >= n && inclusive && !s[i].nan() && !bound.nan() ==> bound.lt(s[i]),
{
}

/// An order lists every place once, smaller numbers first, and of equal numbers the
/// earlier one.
pub proof fn law_order_ascends(s: Seq<Double>, order: Seq<usize>, k: int, l: int)
    requires
        is_order(s, order),
        0 <= k < l < order.len(),
    ensures
        order.len() == s.len(),
        order[k] < s.len(),
        order[k] != order[l],
        !s[order[l] as int].lt(s[order[k] as int]),
        s[order[k] as int].same(s[order[l] as int]) ==> order[k] < order[l],
{
    let a = order[k];
    let b = order[l];
}

/// Only what is not a number is left out, and the rest keeps its order.
pub proof fn law_numbers_are_kept(s: Seq<Double>)
    ensures
        numbers_of(s) == s.filter(|x: Double| !x.nan()),
    decreases s.len(),
{
    reveal(Seq::filter);
    if s.len() > 0 {
        law_numbers_are_kept(s.drop_last());
    }
}

/// The different numbers run from the least to the greatest.
pub proof fn law_distinct_numbers_ascend(s: Seq<u32>, d: Seq<u32>, i: int, k: int)
    requires
        is_distinct(s, d),
        0 <= i < s.len(),
        0 < k < d.len(),
    ensures
        d.contains(s[i]),
        d[0] <= s[i] <= d.last(),
        d[k - 1] < d[k],
        s.contains(d[k]),
{
    assert(s.contains(s[i]));
    assert(d.contains(s[i]));
    let j = choose|j: int| 0 <= j < d.len() && d[j] == s[i];
    assert(d.contains(d[k]));
}

/// A place is dropped exactly if its number equals that of the last place kept before
/// it.
pub proof fn law_repeats_are_dropped(s: Seq<Double>, i: int)
    requires
        0 <= i < s.len() <= usize::MAX,
    ensures
        forall|k: int| 0 <= k < dedup_of(s).len() ==> (#[trigger] dedup_of(s)[k]) < s.len(),
        forall|k: int, l: int| 0 <= k < l < dedup_of(s).len() ==> dedup_of(s)[k] < dedup_of(s)[l],
        forall|k: int, l: int|
            0 <= k < l < dedup_of(s).len() && l == k + 1 ==> !s[#[trigger] dedup_of(s)[k] as int].same(
                s[#[trigger] dedup_of(s)[l] as int],
            ),
        dedup_of(s).contains(i as usize) || exists|k: int| #[trigger] repeats(s, i, k),
    decreases s.len(),
{
    let rest = s.drop_last();
    let p = dedup_of(rest);
    let q = dedup_of(s);
    let n = rest.len() as int;
    lemma_dedup_in_order(s);
    lemma_dedup_in_order(rest);
    if n > 0 {
        law_repeats_are_dropped(
            rest,
            if i < n {
                i
            } else {
                0
            },
        );
    }
    assert forall|k: int, l: int| 0 <= k < l < q.len() && l == k + 1 implies !s[#[trigger] q[k] as int].same(
        s[#[trigger] q[l] as int],
    ) by {
        assert(q[k] == p[k]);
        assert(p[k] < n);
        assert(rest[p[k] as int] == s[p[k] as int]);
        if l < p.len() {
            assert(q[l] == p[l]);
            assert(rest[p[l] as int] == s[p[l] as int]);
        }
    }
    if i == n {
        if q.len() > p.len() {
            assert(q[p.len() as int] == i as usize);
        } else {
            assert(p[p.len() - 1] < n);
            assert(repeats(s, i, p.len() - 1));
        }
    } else if p.contains(i as usize) {
        let k = choose|k: int| 0 <= k < p.len() && p[k] == i as usize;
        assert(q[k] == i as usize);
    } else {
        let k = choose|k: int| #[trigger] repeats(rest, i, k);
        assert(q[k] == p[k]);
        assert forall|l: int| k < l < q.len() implies i < #[trigger] q[l] by {
            if l < p.len() {
                assert(q[l] == p[l]);
            }
        }
        assert(repeats(s, i, k));
    }
}

/// Place `i` repeats the number of the `k`-th place kept, the last one before it.
pub open spec fn repeats(s: Seq<Double>, i: int, k: int) -> bool {
    &&& 0 <= k < dedup_of(s).len()
    &&& dedup_of(s)[k] < i
    &&& s[dedup_of(s)[k] as int].same(s[i])
    &&& forall|l: int| k < l < dedup_of(s).len() ==> i < #[trigger] dedup_of(s)[l]
}

proof fn lemma_dedup_in_order(s: Seq<Double>)
    requires
        s.len() <= usize::MAX,
    ensures
        forall|k: int| 0 <= k < dedup_of(s).len() ==> (#[trigger] dedup_of(s)[k]) < s.len(),
        forall|k: int, l: int| 0 <= k < l < dedup_of(s).len() ==> dedup_of(s)[k] < dedup_of(s)[l],
    decreases s.len(),
{
    if s.len() > 0 {
        let rest = s.drop_last();
        lemma_dedup_in_order(rest);
        let p = dedup_of(rest);
        let q = dedup_of(s);
        assert forall|k: int| 0 <= k < q.len() implies (#[trigger] q[k]) < s.len() by {
            if k < p.len() {
                assert(q[k] == p[k]);
            }
        }
        assert forall|k: int, l: int| 0 <= k < l < q.len() implies q[k] < q[l] by {
            assert(q[k] == p[k]);
            if l < p.len() {
                assert(q[l] == p[l]);
            }
        }
    }
}

/// Below, above and in each bin are as many as there are finite numbers there; the
/// last bin also holds those whose bin is past it.
pub proof fn law_histogram_counts_by_place(
    s: Seq<Binned>,
    lo: Double,
    hi: Double,
    bins: int,
    k: int,
)
    requires
        0 <= k < bins,
    ensures
        tally(s, lo, hi, bins).counts.len() == bins,
        tally(s, lo, hi, bins).below == s.filter(|b: Binned| b.x.finite() && b.x.lt(lo)).len(),
        tally(s, lo, hi, bins).above == s.filter(
            |b: Binned| b.x.finite() && !b.x.lt(lo) && hi.le(b.x),
        ).len(),
        tally(s, lo, hi, bins).counts[k] == s.filter(
            |b: Binned|
                b.x.finite() && !b.x.lt(lo) && !hi.le(b.x) && (b.bin == k || (k == bins - 1 && b.bin
                    >= bins)),
        ).len(),
    decreases s.len(),
{
    reveal(Seq::filter);
    if s.len() > 0 {
        law_histogram_counts_by_place(s.drop_last(), lo, hi, bins, k);
    }
}

/// Bars are scaled by the largest count, or by 1 if there is none.
pub proof fn law_largest_bounds(counts: Seq<usize>)
    ensures
        largest(counts) >= 1,
        forall|i: int| 0 <= i < counts.len() ==> (#[trigger] counts[i]) <= largest(counts),
        largest(counts) == 1 || exists|i: int|
            0 <= i < counts.len() && (#[trigger] counts[i]) == largest(counts),
    decreases counts.len(),
{
    if counts.len() > 0 {
        let rest = counts.drop_last();
        law_largest_bounds(rest);
        assert forall|i: int| 0 <= i < counts.len() implies (#[trigger] counts[i]) <= largest(
            counts,
        ) by {
            if i < rest.len() {
                assert(rest[i] == counts[i]);
            }
        }
        if largest(counts) != 1 {
            if counts.last() > largest(rest) {
                assert(counts[counts.len() - 1] == largest(counts));
            } else {
                let i = choose|i: int| 0 <= i < rest.len() && (#[trigger] rest[i]) == largest(rest);
                assert(counts[i] == largest(counts));
            }
        }
    }
}

/// A range holds its lower end and not its upper one.
pub proof fn law_ranges_are_half_open(x: Double, lo: Double, hi: Double)
    ensures
        in_range(x, lo, hi) <==> (lo.lt(x) || lo.same(x)) && x.lt(hi),
        lo.lt(hi) ==> in_range(lo, lo, hi),
        !in_range(hi, lo, hi),
{
}

} // verus!
