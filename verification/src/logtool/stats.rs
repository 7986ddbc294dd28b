//! Small mergeable accumulators that count.
//!
//! Which bin a number falls into is computed outside and handed in as the
//! (rounded down) number of bins between the lower end and the number.
use vstd::prelude::*;

use crate::double::Double;
use crate::sort;

verus! {

// ---------------------------------------------------------------- rates

/// Success/trial counter.
#[derive(Clone, Copy, Debug, PartialEq, Eq, Structural)]
pub struct Rate {
    /// Numerator.
    pub hits: u64,
    /// Denominator.
    pub trials: u64,
}

/// How many of some trials were hits.
pub open spec fn hits_of(trials: Seq<bool>) -> nat
    decreases trials.len(),
{
    if trials.len() == 0 {
        0
    } else {
        hits_of(trials.drop_last()) + if trials.last() {
            1nat
        } else {
            0nat
        }
    }
}

impl Rate {
    /// No more hits than trials.
    pub open spec fn wf(self) -> bool {
        self.hits <= self.trials
    }

    /// This rate counts exactly these trials.
    pub open spec fn counts(self, trials: Seq<bool>) -> bool {
        self.trials == trials.len() && self.hits == hits_of(trials)
    }

    /// No trials.
    pub open spec fn spec_none() -> Rate {
        Rate { hits: 0, trials: 0 }
    }

    /// The rate after one more trial.
    pub open spec fn pushed(self, hit: bool) -> Rate {
        Rate {
            hits: if hit {
                (self.hits + 1) as u64
            } else {
                self.hits
            },
            trials: (self.trials + 1) as u64,
        }
    }

    /// The rate of the trials of both.
    pub open spec fn merged(self, o: Rate) -> Rate {
        Rate { hits: (self.hits + o.hits) as u64, trials: (self.trials + o.trials) as u64 }
    }

    /// No trials.
    pub fn none() -> (res: Rate)
        ensures
            res == Rate::spec_none(),
            res.counts(Seq::empty()),
    {
        Rate { hits: 0, trials: 0 }
    }

    /// Record one trial.
    pub fn push(&mut self, hit: bool)
        requires
            old(self).wf(),
            old(self).trials < u64::MAX,
        ensures
            final(self).wf(),
            *final(self) == old(self).pushed(hit),
            final(self).trials == old(self).trials + 1,
            final(self).hits == old(self).hits + (if hit {
                1int
            } else {
                0
            }),
    {
        self.trials = self.trials + 1;
        if hit {
            self.hits = self.hits + 1;
        }
    }

    /// Fold another counter in.
    pub fn merge(&mut self, o: &Self)
        requires
            old(self).wf(),
            o.wf(),
            old(self).trials + o.trials <= u64::MAX,
        ensures
            final(self).wf(),
            *final(self) == old(self).merged(*o),
            final(self).hits == old(self).hits + o.hits,
            final(self).trials == old(self).trials + o.trials,
    {
        self.hits = self.hits + o.hits;
        self.trials = self.trials + o.trials;
    }
}

proof fn lemma_hits_concat(a: Seq<bool>, b: Seq<bool>)
    ensures
        hits_of(a + b) == hits_of(a) + hits_of(b),
    decreases b.len(),
{
    if b.len() == 0 {
        assert(a + b =~= a);
    } else {
        assert((a + b).drop_last() =~= a + b.drop_last());
        lemma_hits_concat(a, b.drop_last());
    }
}

/// A counter counts what was pushed into it: pushing extends the trials by one,
/// and the merge of two counters counts the trials of both.
pub proof fn law_rates_count_their_trials(
    a: Rate,
    b: Rate,
    m: Rate,
    of_a: Seq<bool>,
    of_b: Seq<bool>,
    hit: bool,
)
    requires
        a.counts(of_a),
        b.counts(of_b),
        a.trials < u64::MAX,
        m.hits == a.hits + b.hits,
        m.trials == a.trials + b.trials,
    ensures
        a.wf(),
        a.pushed(hit).counts(of_a.push(hit)),
        m.counts(of_a + of_b),
        m.counts(of_b + of_a),
{
    lemma_hits_bound(of_a);
    lemma_hits_concat(of_a, of_b);
    lemma_hits_concat(of_b, of_a);
    assert(of_a.push(hit).drop_last() =~= of_a);
}

proof fn lemma_hits_bound(t: Seq<bool>)
    ensures
        hits_of(t) <= t.len(),
    decreases t.len(),
{
    if t.len() > 0 {
        lemma_hits_bound(t.drop_last());
    }
}

// ---------------------------------------------------------------- reservoir

/// Seed of the reservoir's random numbers.
pub const RESERVOIR_SEED: u64 = 0x2545_F491_4F6C_DD1D;

/// The random number after `x` (xorshift with 13, 7 and 17).
pub open spec fn xorshift(x: u64) -> u64 {
    let a = x ^ (x << 13u64);
    let b = a ^ (a >> 7u64);
    b ^ (b << 17u64)
}

/// What a reservoir holds: its samples, how many it can hold and has seen, and its
/// last random number.
pub struct Reservoir {
    /// Samples.
    pub samples: Seq<Double>,
    /// How many samples fit.
    pub cap: int,
    /// How many were pushed.
    pub seen: int,
    /// Last random number.
    pub rng: u64,
}

/// A reservoir after one more number `x`, which is kept as `kept`. A number that is not finite is ignored. While there is room the
/// sample is added; after that it replaces a random one with the chance that
/// gives every number seen so far the same chance to be held.
pub open spec fn sampled(r: Reservoir, x: Double, kept: Double) -> Reservoir {
    if !x.finite() {
        r
    } else if r.samples.len() < r.cap {
        Reservoir { samples: r.samples.push(kept), seen: r.seen + 1, ..r }
    } else {
        let next = xorshift(r.rng);
        let j = next as int % (r.seen + 1);
        Reservoir {
            samples: if j < r.cap {
                r.samples.update(j, kept)
            } else {
                r.samples
            },
            seen: r.seen + 1,
            rng: next,
            ..r
        }
    }
}

/// A reservoir after some more samples, each kept as it is.
pub open spec fn sampled_all(r: Reservoir, more: Seq<Double>) -> Reservoir
    decreases more.len(),
{
    if more.len() == 0 {
        r
    } else {
        sampled(sampled_all(r, more.drop_last()), more.last(), more.last())
    }
}

/// Reservoir sampler for quantiles. Deterministic (fixed seed).
#[derive(Clone, Debug)]
pub struct Quantiles {
    samples: Vec<Double>,
    cap: usize,
    seen: u64,
    rng: u64,
}

impl Quantiles {
    /// What the reservoir holds.
    pub closed spec fn view(&self) -> Reservoir {
        Reservoir {
            samples: self.samples@,
            cap: self.cap as int,
            seen: self.seen as int,
            rng: self.rng,
        }
    }

    /// There are no more samples than fit, nor more than were seen.
    pub closed spec fn wf(&self) -> bool {
        &&& self.samples@.len() <= self.cap
        &&& self.samples@.len() <= self.seen
    }

    /// New sampler holding at most `cap` samples.
    pub fn new(cap: usize) -> (res: Self)
        ensures
            res.wf(),
            res@ == (Reservoir {
                samples: Seq::empty(),
                cap: cap as int,
                seen: 0,
                rng: RESERVOIR_SEED,
            }),
    {
        Quantiles { samples: Vec::new(), cap, seen: 0, rng: RESERVOIR_SEED }
    }

    fn next_u64(&mut self) -> (res: u64)
        ensures
            res == xorshift(old(self).rng),
            final(self).rng == res,
            final(self).samples == old(self).samples,
            final(self).cap == old(self).cap,
            final(self).seen == old(self).seen,
    {
        let x: u64 = self.rng;
        let a: u64 = x ^ (x << 13u64);
        let b: u64 = a ^ (a >> 7u64);
        let c: u64 = b ^ (b << 17u64);
        self.rng = c;
        c
    }

    /// Add one number `x`, kept (in lower precision) as `kept`.
    pub fn push(&mut self, x: Double, kept: Double)
        requires
            old(self).wf(),
            old(self)@.seen < u64::MAX,
        ensures
            final(self).wf(),
            final(self)@ == sampled(old(self)@, x, kept),
    {
        if !x.is_finite() {
            return;
        }
        self.seen = self.seen + 1;
        if self.samples.len() < self.cap {
            self.samples.push(kept);
            return;
        }
        let j: u64 = self.next_u64() % self.seen;
        if j < self.cap as u64 {
            self.samples.set(j as usize, kept);
        }
    }

    /// Fold another sampler in (approximate: both reservoirs are concatenated
    /// and thinned, so the merged set is only weighted by the reservoir sizes).
    /// Afterwards it has seen what both had seen, less the samples of the other
    /// that were not finite.
    pub fn merge(&mut self, o: &Self)
        requires
            old(self).wf(),
            o.wf(),
            old(self)@.seen + o@.seen <= u64::MAX,
        ensures
            final(self).wf(),
            ({
                let all = sampled_all(old(self)@, o@.samples);
                final(self)@ == (Reservoir { seen: all.seen + o@.seen - o@.samples.len(), ..all })
            }),
            (forall|i: int| 0 <= i < o@.samples.len() ==> (#[trigger] o@.samples[i]).finite())
                ==> final(self)@.seen == old(self)@.seen + o@.seen,
    {
        let ghost start = self@;
        let mut i: usize = 0;
        while i < o.samples.len()
            invariant
                self.wf(),
                o.wf(),
                i <= o.samples@.len(),
                start.seen + o.seen <= u64::MAX,
                self@ == sampled_all(start, o.samples@.take(i as int)),
                start.seen <= self.seen <= start.seen + i,
                (forall|k: int| 0 <= k < i ==> (#[trigger] o.samples@[k]).finite()) ==> self.seen
                    == start.seen + i,
            decreases o.samples.len() - i,
        {
            let s = o.samples[i];
            assert(o.samples@.take(i + 1).drop_last() =~= o.samples@.take(i as int));
            self.push(s, s);
            i += 1;
        }
        proof {
            assert(o.samples@.take(i as int) =~= o.samples@);
            if forall|k: int| 0 <= k < o@.samples.len() ==> (#[trigger] o@.samples[k]).finite() {
                assert forall|k: int| 0 <= k < i implies (#[trigger] o.samples@[k]).finite() by {
                    assert(o@.samples[k].finite());
                }
            }
        }
        let pushed: u64 = o.samples.len() as u64;
        self.seen = self.seen + (o.seen - pushed);
    }

    /// How many numbers were seen.
    pub fn seen(&self) -> (res: u64)
        ensures
            res == self@.seen,
    {
        self.seen
    }

    /// The samples in ascending order. They are held in that order from now on, so
    /// it also decides which of them later numbers replace.
    pub fn sorted(&mut self) -> (res: &Vec<Double>)
        requires
            old(self).wf(),
        ensures
            final(self).wf(),
            final(self)@ == (Reservoir { samples: res@, ..old(self)@ }),
            sort::sorted(res@),
            res@.to_multiset() == old(self)@.samples.to_multiset(),
            res@.len() == old(self)@.samples.len(),
    {
        self.samples = sort::sort(&self.samples);
        &self.samples
    }
}

/// A reservoir that is not full holds every finite number that was pushed, in
/// order, as it was kept.
pub proof fn law_reservoir_keeps_all_while_it_has_room(r: Reservoir, more: Seq<Double>)
    requires
        forall|i: int| 0 <= i < more.len() ==> (#[trigger] more[i]).finite(),
        r.samples.len() + more.len() <= r.cap,
    ensures
        sampled_all(r, more).samples == r.samples + more,
        sampled_all(r, more).seen == r.seen + more.len(),
        sampled_all(r, more).cap == r.cap,
    decreases more.len(),
{
    if more.len() == 0 {
        assert(r.samples + more =~= r.samples);
    } else {
        let rest = more.drop_last();
        assert forall|i: int| 0 <= i < rest.len() implies (#[trigger] rest[i]).finite() by {
            assert(rest[i] == more[i]);
        }
        law_reservoir_keeps_all_while_it_has_room(r, rest);
        assert(more[more.len() - 1].finite());
        assert((r.samples + rest).push(more.last()) =~= r.samples + more);
    }
}

/// A reservoir never holds more than its capacity, and what it holds was there
/// before or is the new sample.
pub proof fn law_reservoir_is_bounded(r: Reservoir, x: Double, kept: Double, i: int)
    requires
        r.samples.len() <= r.cap,
        r.samples.len() <= r.seen,
        0 <= i < sampled(r, x, kept).samples.len(),
    ensures
        sampled(r, x, kept).samples.len() <= r.cap,
        sampled(r, x, kept).samples[i] == kept || (i < r.samples.len() && sampled(
            r,
            x,
            kept,
        ).samples[i] == r.samples[i]),
{
}

// ---------------------------------------------------------------- histograms

/// Sum of a list of counts.
pub open spec fn sum(s: Seq<u64>) -> nat
    decreases s.len(),
{
    if s.len() == 0 {
        0
    } else {
        sum(s.drop_last()) + s.last() as nat
    }
}

proof fn lemma_sum_update(s: Seq<u64>, i: int, v: u64)
    requires
        0 <= i < s.len(),
    ensures
        sum(s.update(i, v)) == sum(s) - s[i] + v,
        sum(s) >= s[i],
    decreases s.len(),
{
    if i == s.len() - 1 {
        assert(s.update(i, v).drop_last() =~= s.drop_last());
    } else {
        assert(s.update(i, v).drop_last() =~= s.drop_last().update(i, v));
        lemma_sum_update(s.drop_last(), i, v);
    }
}

proof fn lemma_sum_grows(s: Seq<u64>, i: int)
    requires
        0 <= i <= s.len(),
    ensures
        sum(s.take(i)) <= sum(s),
    decreases s.len(),
{
    if i == s.len() {
        assert(s.take(i) =~= s);
    } else {
        lemma_sum_grows(s.drop_last(), i);
        assert(s.drop_last().take(i) =~= s.take(i));
    }
}

/// The counts of a histogram.
pub struct Counts {
    /// Counts per bin.
    pub bins: Seq<u64>,
    /// Numbers below the range.
    pub under: u64,
    /// Numbers above the range.
    pub over: u64,
}

/// The counts of a histogram with `n` bins before the first number.
pub open spec fn no_counts(n: nat) -> Counts {
    Counts { bins: Seq::new(n, |i: int| 0u64), under: 0, over: 0 }
}

/// How many numbers were counted.
pub open spec fn counted_total(c: Counts) -> nat {
    sum(c.bins) + c.under as nat + c.over as nat
}

/// The counts after one more number in bin `bin`: below the range when it is
/// negative, above it when there is no such bin.
pub open spec fn counted(c: Counts, bin: int) -> Counts {
    if bin < 0 {
        Counts { under: (c.under + 1) as u64, ..c }
    } else if bin >= c.bins.len() {
        Counts { over: (c.over + 1) as u64, ..c }
    } else {
        Counts { bins: c.bins.update(bin, (c.bins[bin] + 1) as u64), ..c }
    }
}

/// The counts of both of two histograms with the same layout.
pub open spec fn merged_counts(a: Counts, b: Counts) -> Counts {
    Counts {
        bins: Seq::new(a.bins.len(), |i: int| (a.bins[i] + b.bins[i]) as u64),
        under: (a.under + b.under) as u64,
        over: (a.over + b.over) as u64,
    }
}

/// Counting a number raises the total by one and keeps the layout.
pub proof fn law_counting_adds_one(c: Counts, bin: int)
    requires
        counted_total(c) < u64::MAX,
    ensures
        counted_total(counted(c, bin)) == counted_total(c) + 1,
        counted(c, bin).bins.len() == c.bins.len(),
{
    if 0 <= bin < c.bins.len() {
        lemma_sum_update(c.bins, bin, (c.bins[bin] + 1) as u64);
    }
}

/// Fixed-width histogram with under/overflow.
#[derive(Clone, Debug, PartialEq, Eq)]
pub struct Hist {
    /// Counts per bin.
    pub bins: Vec<u64>,
    /// Numbers below the range.
    pub under: u64,
    /// Numbers above the range.
    pub over: u64,
}

impl Hist {
    /// The counts.
    pub open spec fn view(&self) -> Counts {
        Counts { bins: self.bins@, under: self.under, over: self.over }
    }

    /// How many numbers were counted.
    pub open spec fn total(&self) -> nat {
        counted_total(self@)
    }

    /// New histogram with `n` bins.
    pub fn new(n: usize) -> (res: Self)
        ensures
            res@ == no_counts(n as nat),
            res.total() == 0,
    {
        let mut bins: Vec<u64> = Vec::new();
        let mut i: usize = 0;
        while i < n
            invariant
                i <= n,
                bins@.len() == i,
                forall|j: int| 0 <= j < i ==> bins@[j] == 0,
                sum(bins@) == 0,
            decreases n - i,
        {
            let ghost before = bins@;
            bins.push(0);
            assert(bins@.drop_last() =~= before);
            i += 1;
        }
        assert(bins@ =~= Seq::new(n as nat, |i: int| 0u64));
        Hist { bins, under: 0, over: 0 }
    }

    /// Count a number in bin `bin`: below the range when it is negative, above it
    /// when there is no such bin.
    pub fn push(&mut self, bin: i64)
        requires
            old(self).total() < u64::MAX,
        ensures
            final(self)@ == counted(old(self)@, bin as int),
            final(self).total() == old(self).total() + 1,
    {
        if bin < 0 {
            self.under = self.under + 1;
        } else if bin as u64 >= self.bins.len() as u64 {
            self.over = self.over + 1;
        } else {
            let i: usize = bin as usize;
            let n: u64 = self.bins[i];
            proof {
                lemma_sum_update(self.bins@, i as int, (n + 1) as u64);
            }
            self.bins.set(i, n + 1);
        }
        proof {
            law_counting_adds_one(old(self)@, bin as int);
        }
    }

    /// Whether fewer than `limit` numbers were counted.
    pub fn is_below(&self, limit: u64) -> (res: bool)
        ensures
            res == (self.total() < limit),
    {
        let under: u64 = self.under;
        let over: u64 = self.over;
        if under >= limit || over >= limit - under {
            return false;
        }
        let mut n: u64 = under + over;
        let mut i: usize = 0;
        while i < self.bins.len()
            invariant
                i <= self.bins@.len(),
                under == self.under,
                over == self.over,
                n < limit,
                n == sum(self.bins@.take(i as int)) + under + over,
            decreases self.bins.len() - i,
        {
            proof {
                assert(self.bins@.take(i + 1).drop_last() =~= self.bins@.take(i as int));
                lemma_sum_grows(self.bins@, i + 1);
            }
            if self.bins[i] >= limit - n {
                return false;
            }
            n = n + self.bins[i];
            i += 1;
        }
        assert(self.bins@.take(i as int) =~= self.bins@);
        true
    }

    /// Fold another histogram in (must have the same layout).
    pub fn merge(&mut self, o: &Self)
        requires
            old(self).bins@.len() == o.bins@.len(),
            old(self).total() + o.total() <= u64::MAX,
        ensures
            final(self)@ == merged_counts(old(self)@, o@),
            forall|i: int|
                0 <= i < o.bins@.len() ==> #[trigger] final(self).bins@[i] == old(self).bins@[i]
                    + o.bins@[i],
            final(self).under == old(self).under + o.under,
            final(self).over == old(self).over + o.over,
            final(self).total() == old(self).total() + o.total(),
    {
        let ghost start = self.bins@;
        let mut i: usize = 0;
        while i < o.bins.len()
            invariant
                i <= o.bins@.len(),
                start.len() == o.bins@.len(),
                self.bins@.len() == start.len(),
                sum(start) + sum(o.bins@) <= u64::MAX,
                self.under == old(self).under,
                self.over == old(self).over,
                forall|j: int| 0 <= j < i ==> #[trigger] self.bins@[j] == start[j] + o.bins@[j],
                forall|j: int| i <= j < start.len() ==> #[trigger] self.bins@[j] == start[j],
                sum(self.bins@) == sum(start) + sum(o.bins@.take(i as int)),
            decreases o.bins.len() - i,
        {
            proof {
                lemma_sum_update(start, i as int, 0);
                lemma_sum_update(o.bins@, i as int, 0);
                assert(self.bins@[i as int] == start[i as int]);
            }
            let n: u64 = self.bins[i] + o.bins[i];
            proof {
                lemma_sum_update(self.bins@, i as int, n);
                assert(o.bins@.take(i + 1).drop_last() =~= o.bins@.take(i as int));
            }
            self.bins.set(i, n);
            i += 1;
        }
        assert(o.bins@.take(i as int) =~= o.bins@);
        self.under = self.under + o.under;
        self.over = self.over + o.over;
        assert(self@.bins =~= merged_counts(old(self)@, o@).bins);
    }
}

/// The bin that a coordinate falls into when it is clamped into the range.
pub open spec fn clamped_bin(bin: i64, n: int) -> int {
    if bin < 0 {
        0
    } else if bin >= n {
        n - 1
    } else {
        bin as int
    }
}

/// The bin that a coordinate falls into when it is clamped into `n` bins.
pub fn clamp_bin(bin: i64, n: usize) -> (res: usize)
    requires
        n > 0,
    ensures
        res == clamped_bin(bin, n as int),
        res < n,
{
    if bin < 0 {
        0
    } else if bin as u64 >= n as u64 {
        n - 1
    } else {
        bin as usize
    }
}

/// The rates of `n` bins before the first trial.
pub open spec fn no_rates(n: nat) -> Seq<Rate> {
    Seq::new(n, |i: int| Rate::spec_none())
}

/// Per-bin [`Rate`] over an independent variable.
#[derive(Clone, Debug, PartialEq, Eq)]
pub struct BinnedRate {
    /// One rate per bin.
    pub bins: Vec<Rate>,
}

impl BinnedRate {
    /// Every bin has no more hits than trials.
    pub open spec fn wf(&self) -> bool {
        forall|i: int| 0 <= i < self.bins@.len() ==> (#[trigger] self.bins@[i]).wf()
    }

    /// New binned rate with `n` bins.
    pub fn new(n: usize) -> (res: Self)
        ensures
            res.wf(),
            res.bins@ == no_rates(n as nat),
    {
        let mut bins: Vec<Rate> = Vec::new();
        let mut i: usize = 0;
        while i < n
            invariant
                i <= n,
                bins@.len() == i,
                forall|j: int| 0 <= j < i ==> bins@[j] == Rate::spec_none(),
            decreases n - i,
        {
            bins.push(Rate::none());
            i += 1;
        }
        assert(bins@ =~= no_rates(n as nat));
        BinnedRate { bins }
    }

    /// Record one trial in bin `bin` (clamped into the range).
    pub fn push(&mut self, bin: i64, hit: bool)
        requires
            old(self).wf(),
            old(self).bins@.len() > 0,
            old(self).bins@[clamped_bin(bin, old(self).bins@.len() as int)].trials < u64::MAX,
        ensures
            final(self).wf(),
            ({
                let i = clamped_bin(bin, old(self).bins@.len() as int);
                final(self).bins@ == old(self).bins@.update(i, old(self).bins@[i].pushed(hit))
            }),
    {
        let i: usize = clamp_bin(bin, self.bins.len());
        let mut r = self.bins[i];
        r.push(hit);
        self.bins.set(i, r);
    }

    /// Fold another accumulator in (must have the same layout).
    pub fn merge(&mut self, o: &Self)
        requires
            old(self).wf(),
            o.wf(),
            old(self).bins@.len() == o.bins@.len(),
            forall|i: int|
                0 <= i < o.bins@.len() ==> (#[trigger] old(self).bins@[i]).trials
                    + o.bins@[i].trials <= u64::MAX,
        ensures
            final(self).wf(),
            final(self).bins@.len() == old(self).bins@.len(),
            forall|i: int|
                0 <= i < o.bins@.len() ==> {
                    &&& (#[trigger] final(self).bins@[i]).hits == old(self).bins@[i].hits
                        + o.bins@[i].hits
                    &&& final(self).bins@[i].trials == old(self).bins@[i].trials
                        + o.bins@[i].trials
                },
    {
        let ghost start = self.bins@;
        let mut i: usize = 0;
        while i < o.bins.len()
            invariant
                i <= o.bins@.len(),
                start.len() == o.bins@.len(),
                self.bins@.len() == start.len(),
                self.wf(),
                o.wf(),
                forall|j: int|
                    0 <= j < o.bins@.len() ==> (#[trigger] start[j]).trials + o.bins@[j].trials
                        <= u64::MAX,
                forall|j: int|
                    0 <= j < i ==> {
                        &&& (#[trigger] self.bins@[j]).hits == start[j].hits + o.bins@[j].hits
                        &&& self.bins@[j].trials == start[j].trials + o.bins@[j].trials
                    },
                forall|j: int| i <= j < start.len() ==> #[trigger] self.bins@[j] == start[j],
            decreases o.bins.len() - i,
        {
            let mut r = self.bins[i];
            assert(self.bins@[i as int] == start[i as int]);
            assert(o.bins@[i as int].wf());
            r.merge(&o.bins[i]);
            self.bins.set(i, r);
            i += 1;
        }
    }
}

// ---------------------------------------------------------------- coverage

/// Coverage grid over the field: per-cell detection counts for one camera.
#[derive(Clone, Debug, PartialEq, Eq)]
pub struct Grid {
    /// Cells along x.
    pub nx: usize,
    /// Cells along y.
    pub ny: usize,
    /// Counts, row-major in y.
    pub cells: Vec<u32>,
}

/// Index of a cell.
pub open spec fn cell(nx: int, ix: int, iy: int) -> int {
    iy * nx + ix
}

proof fn lemma_cell(nx: int, ny: int, ix: int, iy: int)
    requires
        0 <= ix < nx,
        0 <= iy < ny,
    ensures
        0 <= cell(nx, ix, iy) < nx * ny,
        0 <= iy * nx,
{
    assert(0 <= iy * nx + ix < nx * ny && 0 <= iy * nx) by (nonlinear_arith)
        requires
            0 <= ix < nx,
            0 <= iy < ny,
    ;
}

impl Grid {
    /// There is one count per cell.
    pub open spec fn wf(&self) -> bool {
        self.cells@.len() == self.nx * self.ny
    }

    /// New grid of `nx` by `ny` cells.
    pub fn new(nx: usize, ny: usize) -> (res: Self)
        requires
            nx * ny <= usize::MAX,
        ensures
            res.wf(),
            res.nx == nx,
            res.ny == ny,
            forall|i: int| 0 <= i < res.cells@.len() ==> res.cells@[i] == 0,
    {
        let n: usize = nx * ny;
        let mut cells: Vec<u32> = Vec::new();
        let mut i: usize = 0;
        while i < n
            invariant
                i <= n,
                cells@.len() == i,
                forall|j: int| 0 <= j < i ==> cells@[j] == 0,
            decreases n - i,
        {
            cells.push(0);
            i += 1;
        }
        Grid { nx, ny, cells }
    }

    /// Increment the cell at `(ix, iy)`; out-of-range points are ignored.
    pub fn push(&mut self, ix: i64, iy: i64)
        requires
            old(self).wf(),
            0 <= ix < old(self).nx && 0 <= iy < old(self).ny ==> old(self).cells@[cell(
                old(self).nx as int,
                ix as int,
                iy as int,
            )] < u32::MAX,
        ensures
            final(self).wf(),
            final(self).nx == old(self).nx,
            final(self).ny == old(self).ny,
            final(self).cells@ == if 0 <= ix < old(self).nx && 0 <= iy < old(self).ny {
                let k = cell(old(self).nx as int, ix as int, iy as int);
                old(self).cells@.update(k, (old(self).cells@[k] + 1) as u32)
            } else {
                old(self).cells@
            },
    {
        if ix < 0 || iy < 0 || ix as u64 >= self.nx as u64 || iy as u64 >= self.ny as u64 {
            return;
        }
        proof {
            lemma_cell(self.nx as int, self.ny as int, ix as int, iy as int);
        }
        let total: usize = self.cells.len();
        let k: usize = iy as usize * self.nx + ix as usize;
        let n: u32 = self.cells[k];
        self.cells.set(k, n + 1);
    }

    /// The counts of the cells that were hit at all, in ascending order.
    pub fn hit_counts(&self) -> (res: Vec<u32>)
        ensures
            sort::sorted(res@),
            res@.to_multiset() == hit_cells(self.cells@).to_multiset(),
    {
        let mut hit: Vec<u32> = Vec::new();
        let mut i: usize = 0;
        while i < self.cells.len()
            invariant
                i <= self.cells@.len(),
                hit@ == hit_cells(self.cells@.take(i as int)),
            decreases self.cells.len() - i,
        {
            assert(self.cells@.take(i + 1).drop_last() =~= self.cells@.take(i as int));
            if self.cells[i] > 0 {
                hit.push(self.cells[i]);
            }
            i += 1;
        }
        assert(self.cells@.take(i as int) =~= self.cells@);
        sort::sort(&hit)
    }

    /// Boolean coverage mask: cells whose count is at least `threshold`.
    pub fn mask(&self, threshold: u64) -> (res: Vec<bool>)
        ensures
            res@ == self.cells@.map_values(|c: u32| c >= threshold),
    {
        let mut out: Vec<bool> = Vec::new();
        let mut i: usize = 0;
        while i < self.cells.len()
            invariant
                i <= self.cells@.len(),
                out@.len() == i,
                forall|j: int| 0 <= j < i ==> out@[j] == (self.cells@[j] >= threshold),
            decreases self.cells.len() - i,
        {
            out.push(self.cells[i] as u64 >= threshold);
            i += 1;
        }
        assert(out@ =~= self.cells@.map_values(|c: u32| c >= threshold));
        out
    }
}

/// The counts that are not zero, in order.
pub open spec fn hit_cells(cells: Seq<u32>) -> Seq<u32>
    decreases cells.len(),
{
    if cells.len() == 0 {
        seq![]
    } else if cells.last() > 0 {
        hit_cells(cells.drop_last()).push(cells.last())
    } else {
        hit_cells(cells.drop_last())
    }
}

/// As many trials are hits as are set.
pub proof fn law_hits_are_counted(trials: Seq<bool>)
    ensures
        hits_of(trials) == trials.filter(|h: bool| h).len(),
    decreases trials.len(),
{
    reveal(Seq::filter);
    if trials.len() > 0 {
        law_hits_are_counted(trials.drop_last());
    }
}

/// A trial adds one trial, and one hit if it is one; merging adds both counts; no
/// trials are no hits.
pub proof fn law_rates_add_up(a: Rate, b: Rate, hit: bool)
    ensures
        a.hits < u64::MAX && a.trials < u64::MAX ==> a.pushed(hit).trials == a.trials + 1 && a.pushed(
            hit,
        ).hits - a.hits == (if hit {
            1int
        } else {
            0int
        }),
        a.hits + b.hits <= u64::MAX && a.trials + b.trials <= u64::MAX ==> a.merged(b).hits == a.hits
            + b.hits && a.merged(b).trials == a.trials + b.trials,
        Rate::spec_none().hits == 0 && Rate::spec_none().trials == 0,
{
}

/// The next random number is the last one shifted left by 13, right by 7 and left by
/// 17, each time combined with what it came from; only zero leads to zero.
pub proof fn law_random_numbers_are_shifted(x: u64)
    ensures
        exists|a: u64, b: u64|
            a == (x ^ (x << 13u64)) && b == (a ^ (a >> 7u64)) && #[trigger] (b ^ (b << 17u64)) == xorshift(
                x,
            ) && #[trigger] (a ^ b) == (a >> 7u64),
        xorshift(x) == 0 <==> x == 0,
{
    let a = x ^ (x << 13u64);
    let b = a ^ (a >> 7u64);
    assert(a ^ (a ^ (a >> 7u64)) == a >> 7u64) by (bit_vector);
    assert((b ^ (b << 17u64)) == xorshift(x));
    assert(x ^ (x << 13u64) == 0 <==> x == 0) by (bit_vector);
    assert(a ^ (a >> 7u64) == 0 <==> a == 0) by (bit_vector);
    assert(b ^ (b << 17u64) == 0 <==> b == 0) by (bit_vector);
}

/// What is not finite leaves a reservoir as it was. Anything else is seen: it is put
/// behind the others while there is room, and then the random numbers stay as they
/// are; after that the next random number, taken modulo the count with the new one,
/// says which sample it replaces, if any.
pub proof fn law_reservoirs_take_turns(r: Reservoir, x: Double, kept: Double)
    requires
        0 <= r.seen,
        r.samples.len() <= r.cap,
    ensures
        ({
            let s = sampled(r, x, kept);
            let j = xorshift(r.rng) as int % (r.seen + 1);
            &&& s.cap == r.cap
            &&& !x.finite() ==> s == r
            &&& x.finite() ==> s.seen == r.seen + 1
            &&& x.finite() && r.samples.len() < r.cap ==> s.samples == r.samples.push(kept) && s.rng
                == r.rng
            &&& x.finite() && r.samples.len() == r.cap ==> s.rng == xorshift(r.rng) && s.samples.len()
                == r.samples.len() && forall|i: int|
                0 <= i < s.samples.len() ==> #[trigger] s.samples[i] == if i == j {
                    kept
                } else {
                    r.samples[i]
                }
        }),
{
}

/// The reservoir starts from the fixed seed.
pub proof fn law_reservoirs_start_from_the_seed()
    ensures
        RESERVOIR_SEED == 0x2545_F491_4F6C_DD1D,
{
}

/// Counting puts a number into its own bin, below or above, and changes no other count.
pub proof fn law_counting_changes_one_count(c: Counts, bin: int, i: int)
    requires
        counted_total(c) < u64::MAX,
        0 <= i < c.bins.len(),
    ensures
        ({
            let d = counted(c, bin);
            &&& d.under == c.under + (if bin < 0 {
                1int
            } else {
                0
            })
            &&& d.over == c.over + (if bin >= c.bins.len() {
                1int
            } else {
                0
            })
            &&& d.bins[i] == c.bins[i] + (if bin == i {
                1int
            } else {
                0
            })
        }),
{
    lemma_sum_update(c.bins, i, 0);
}

/// Histograms start empty, and merging adds bin by bin.
pub proof fn law_merged_histograms_add_up(a: Counts, b: Counts, n: nat, i: int)
    requires
        a.bins.len() == b.bins.len(),
        0 <= i < a.bins.len(),
        a.bins[i] + b.bins[i] <= u64::MAX,
        a.under + b.under <= u64::MAX,
        a.over + b.over <= u64::MAX,
    ensures
        merged_counts(a, b).bins.len() == a.bins.len(),
        merged_counts(a, b).bins[i] == a.bins[i] + b.bins[i],
        merged_counts(a, b).under == a.under + b.under,
        merged_counts(a, b).over == a.over + b.over,
        no_counts(n).bins.len() == n,
        no_counts(n).under == 0 && no_counts(n).over == 0,
        0 <= i < n ==> no_counts(n).bins[i] == 0,
        0 <= i < n ==> no_rates(n).len() == n && no_rates(n)[i].trials == 0 && no_rates(n)[i].hits == 0,
{
}

/// The total adds up all counts: one more in a bin is one more in all.
pub proof fn law_totals_add_up(c: Counts, i: int, v: u64)
    requires
        0 <= i < c.bins.len(),
    ensures
        counted_total(Counts { bins: c.bins.update(i, v), ..c }) - counted_total(c) == v - c.bins[i],
        counted_total(c) >= c.bins[i] + c.under + c.over,
        c.bins.len() == 1 ==> counted_total(c) == c.bins[0] + c.under + c.over,
{
    lemma_sum_update(c.bins, i, v);
    if c.bins.len() == 1 {
        assert(sum(c.bins.drop_last()) == 0);
    }
}

/// A bin inside the range is itself; below and above, the first and the last one stand
/// for it.
pub proof fn law_bins_are_clamped(bin: i64, n: int)
    requires
        n > 0,
    ensures
        0 <= clamped_bin(bin, n) < n,
        0 <= bin < n ==> clamped_bin(bin, n) == bin,
        bin < 0 ==> clamped_bin(bin, n) == 0,
        bin >= n ==> clamped_bin(bin, n) == n - 1,
{
}

/// Cells are numbered row by row: the column is the rest of the number divided by the
/// columns, the row the quotient.
pub proof fn law_cells_are_numbered_by_rows(nx: int, ix: int, iy: int)
    requires
        0 <= ix < nx,
        0 <= iy,
    ensures
        cell(nx, ix, iy) % nx == ix,
        cell(nx, ix, iy) / nx == iy,
        ix + 1 < nx ==> cell(nx, ix + 1, iy) == cell(nx, ix, iy) + 1,
        cell(nx, 0, iy + 1) == cell(nx, nx - 1, iy) + 1,
{
    vstd::arithmetic::div_mod::lemma_fundamental_div_mod_converse(iy * nx + ix, nx, iy, ix);
    assert((iy + 1) * nx == iy * nx + nx) by (nonlinear_arith);
}

/// The cells that were hit are those with a count, in their order.
pub proof fn law_hit_cells_have_a_count(cells: Seq<u32>)
    ensures
        hit_cells(cells) == cells.filter(|c: u32| c != 0),
    decreases cells.len(),
{
    reveal(Seq::filter);
    if cells.len() > 0 {
        law_hit_cells_have_a_count(cells.drop_last());
    }
}

/// Several samples are taken one after the other.
pub proof fn law_samples_are_taken_in_order(r: Reservoir, more: Seq<Double>, x: Double)
    ensures
        sampled_all(r, Seq::empty()) == r,
        sampled_all(r, more.push(x)) == sampled(sampled_all(r, more), x, x),
{
    assert(more.push(x).drop_last() =~= more);
}

} // verus!
