//! Chips: airborne flights from the tracked height, their bounces and hops.
use vstd::prelude::*;

use crate::double::{Double, lemma_powers};
use crate::logtool::dynamics::stats::{in_range, places, set_places};

verus! {

/// Height above which the ball is airborne: 0.03 m.
pub const AIR_Z: u64 = 0x3F9E_B851_EB85_1EB8;

/// Height below which a bounce is: 0.06 m.
pub const BOUNCE_Z: u64 = 0x3FAE_B851_EB85_1EB8;

/// Airborne runs closer than this are one flight: 0.25 s.
pub const FLIGHT_GAP: u64 = 0x3FD0_0000_0000_0000;

/// A flight spans at least this many frames after its first.
pub const FLIGHT_FRAMES: usize = 3;

/// Least number of samples for a hop.
pub const MIN_HOP_SAMPLES: usize = 6;

/// Largest residual of an accepted fit: 0.012 m.
pub const MAX_HOP_RMS: u64 = 0x3F88_9374_BC6A_7EFA;

/// Least flight time of an accepted hop: 0.1 s.
pub const MIN_HOP_T: u64 = 0x3FB9_9999_9999_999A;

/// Least tracked apex of a real hop: 0.04 m.
pub const MIN_TRACKER_APEX: u64 = 0x3FA4_7AE1_47AE_147B;

/// Largest gap between landing and takeoff at one bounce: 0.12 m.
pub const MAX_BOUNCE_POS_GAP: u64 = 0x3FBE_B851_EB85_1EB8;

/// Largest gap between landing and takeoff at one bounce: 0.06 s.
pub const MAX_BOUNCE_T_GAP: u64 = 0x3FAE_B851_EB85_1EB8;

/// Speeds below this give no ratio: 0.3 m/s.
pub const MIN_RATIO_SPEED: u64 = 0x3FD3_3333_3333_3333;

/// A kick within this time of the first airborne frame is the takeoff: 0.25 s.
pub const TAKEOFF_TIME: u64 = 0x3FD0_0000_0000_0000;

// ---------------------------------------------------------------- flights

/// A run of frames, first and last.
#[derive(Clone, Copy, Debug, PartialEq, Eq, Structural)]
pub struct Run {
    /// First frame.
    pub first: usize,
    /// Last frame.
    pub last: usize,
}

/// The runs of airborne frames.
pub open spec fn runs_of(air: Seq<bool>) -> Seq<(int, int)>
    decreases air.len(),
{
    if air.len() == 0 {
        seq![]
    } else {
        let before = runs_of(air.drop_last());
        let i = air.len() - 1;
        if !air[i] {
            before
        } else if i > 0 && air[i - 1] && before.len() > 0 {
            before.update(before.len() - 1, (before.last().0, i))
        } else {
            before.push((i, i))
        }
    }
}

/// A run as a pair.
pub open spec fn run_view(r: Run) -> (int, int) {
    (r.first as int, r.last as int)
}

/// The airborne runs of a track; a frame without a ball is not airborne.
pub fn airborne_runs(heights: &Vec<Option<Double>>) -> (res: Vec<Run>)
    ensures
        res@.map_values(|r: Run| run_view(r)) == runs_of(
            Seq::new(heights@.len(), |i: int| is_air(heights@[i])),
        ),
        forall|k: int|
            0 <= k < res@.len() ==> (#[trigger] res@[k]).first <= res@[k].last
                && res@[k].last < heights@.len(),
{
    let total: usize = heights.len();
    let ghost view = |r: Run| run_view(r);
    let ghost air = Seq::new(heights@.len(), |i: int| is_air(heights@[i]));
    let mut out: Vec<Run> = Vec::new();
    let mut i: usize = 0;
    assert(out@.map_values(view) =~= runs_of(air.take(0)));
    while i < total
        invariant
            i <= total,
            total == heights@.len(),
            view == (|r: Run| run_view(r)),
            air == Seq::new(heights@.len(), |i: int| is_air(heights@[i])),
            out@.map_values(view) == runs_of(air.take(i as int)),
            i > 0 && air[i - 1] ==> out@.len() > 0,
            forall|k: int|
                0 <= k < out@.len() ==> (#[trigger] out@[k]).first <= out@[k].last && out@[k].last
                    < i,
        decreases total - i,
    {
        assert(air.take(i + 1).drop_last() =~= air.take(i as int));
        let ghost before = out@;
        assert(before.map_values(view).len() == before.len());
        if frame_is_air(heights[i]) {
            assert(air[i as int]);
            if i > 0 && frame_is_air(heights[i - 1]) {
                assert(air[i - 1]);
                let n: usize = out.len() - 1;
                let first: usize = out[n].first;
                assert(before.map_values(view)[n as int] == run_view(before[n as int]));
                out.set(n, Run { first, last: i });
                assert(out@.map_values(view) =~= before.map_values(view).update(
                    n as int,
                    (first as int, i as int),
                ));
            } else {
                out.push(Run { first: i, last: i });
                assert(out@.map_values(view) =~= before.map_values(view).push(
                    (i as int, i as int),
                ));
            }
        }
        i += 1;
    }
    assert(air.take(i as int) =~= air);
    out
}

/// Whether a height is airborne.
pub open spec fn is_air(z: Option<Double>) -> bool {
    z is Some && (Double { bits: AIR_Z }).lt(z->0)
}

fn frame_is_air(z: Option<Double>) -> (res: bool)
    ensures
        res == is_air(z),
{
    match z {
        Some(h) => Double::from_bits(AIR_Z).is_less(h),
        None => false,
    }
}

/// The flights that runs make up: a run that starts soon after the one before it
/// ended continues that flight. `gaps[k]` is the time between run `k` and the one
/// before it.
pub open spec fn flights_of(runs: Seq<Run>, gaps: Seq<Double>) -> Seq<Run>
    decreases runs.len(),
{
    if runs.len() == 0 {
        seq![]
    } else {
        let before = flights_of(runs.drop_last(), gaps);
        let r = runs.last();
        if before.len() > 0 && gaps[runs.len() - 1].lt(Double { bits: FLIGHT_GAP }) {
            before.update(before.len() - 1, Run { first: before.last().first, last: r.last })
        } else {
            before.push(r)
        }
    }
}

/// Whether a flight is long enough to be one.
pub open spec fn is_flight(r: Run) -> bool {
    r.last >= r.first + FLIGHT_FRAMES
}

/// The flights that runs make up.
pub fn merge_runs(runs: &Vec<Run>, gaps: &Vec<Double>) -> (res: Vec<Run>)
    requires
        runs@.len() == gaps@.len(),
    ensures
        res@ == flights_of(runs@, gaps@),
{
    let mut out: Vec<Run> = Vec::new();
    let mut i: usize = 0;
    while i < runs.len()
        invariant
            i <= runs@.len(),
            runs@.len() == gaps@.len(),
            out@ == flights_of(runs@.take(i as int), gaps@),
        decreases runs.len() - i,
    {
        assert(runs@.take(i + 1).drop_last() =~= runs@.take(i as int));
        let r = runs[i];
        if out.len() > 0 && gaps[i].is_less(Double::from_bits(FLIGHT_GAP)) {
            let n: usize = out.len() - 1;
            let first: usize = out[n].first;
            out.set(n, Run { first, last: r.last });
        } else {
            out.push(r);
        }
        i += 1;
    }
    assert(runs@.take(i as int) =~= runs@);
    out
}

/// The flights of a game: airborne runs that follow each other closely, if they are
/// long enough.
pub fn find_flights(runs: &Vec<Run>, gaps: &Vec<Double>) -> (res: Vec<Run>)
    requires
        runs@.len() == gaps@.len(),
        forall|k: int| 0 <= k < runs@.len() ==> (#[trigger] runs@[k]).first <= runs@[k].last,
    ensures
        res@ == flights_of(runs@, gaps@).filter(|r: Run| is_flight(r)),
{
    let all = merge_runs(runs, gaps);
    let ghost keep = |r: Run| is_flight(r);
    let mut out: Vec<Run> = Vec::new();
    let mut i: usize = 0;
    while i < all.len()
        invariant
            i <= all@.len(),
            keep == (|r: Run| is_flight(r)),
            out@ == all@.take(i as int).filter(keep),
        decreases all.len() - i,
    {
        assert(all@.take(i + 1).drop_last() =~= all@.take(i as int));
        reveal(Seq::filter);
        let r = all[i];
        if r.last > r.first && r.last - r.first >= FLIGHT_FRAMES {
            out.push(r);
        }
        i += 1;
    }
    assert(all@.take(i as int) =~= all@);
    out
}

/// Runs are in order and apart.
pub open spec fn in_order(runs: Seq<Run>) -> bool {
    &&& forall|k: int| 0 <= k < runs.len() ==> (#[trigger] runs[k]).first <= runs[k].last
    &&& forall|k: int, l: int| 0 <= k < l < runs.len() ==> runs[k].last < runs[l].first
}

/// Merging keeps runs in order and apart, and every flight starts and ends with an
/// airborne run.
pub proof fn law_flights_are_in_order(runs: Seq<Run>, gaps: Seq<Double>)
    requires
        in_order(runs),
        runs.len() == gaps.len(),
    ensures
        in_order(flights_of(runs, gaps)),
        runs.len() > 0 ==> flights_of(runs, gaps).len() > 0 && flights_of(runs, gaps).last().last
            == runs.last().last,
    decreases runs.len(),
{
    if runs.len() > 0 {
        let rest = runs.drop_last();
        lemma_flights_prefix(rest, gaps, gaps.drop_last());
        law_flights_are_in_order(rest, gaps.drop_last());
        let before = flights_of(rest, gaps);
        let all = flights_of(runs, gaps);
        let n = before.len();
        if rest.len() > 0 {
            assert(runs[rest.len() - 1].last < runs[rest.len() as int].first);
            assert(before.last().last == rest.last().last);
        }
        assert forall|k: int| 0 <= k < all.len() implies (#[trigger] all[k]).first <= all[k].last by {
            if k < n {
                assert(before[k].first <= before[k].last);
            }
        }
        assert forall|k: int, l: int| 0 <= k < l < all.len() implies all[k].last < all[l].first by {
            if l < n {
                assert(before[k].last < before[l].first);
            } else {
                assert(k < n);
                if k < n - 1 {
                    assert(before[k].last < before[n - 1].first);
                    assert(before[n - 1].first <= before[n - 1].last);
                }
            }
        }
    }
}

proof fn lemma_flights_prefix(runs: Seq<Run>, a: Seq<Double>, b: Seq<Double>)
    requires
        a.len() >= runs.len(),
        b.len() >= runs.len(),
        forall|i: int| 0 <= i < runs.len() ==> a[i] == b[i],
    ensures
        flights_of(runs, a) == flights_of(runs, b),
    decreases runs.len(),
{
    if runs.len() > 0 {
        lemma_flights_prefix(runs.drop_last(), a, b);
    }
}

// ---------------------------------------------------------------- bounces

/// The state of looking for bounces up to frame `i`: those found, and whether the
/// ball has been airborne since the last one.
#[verifier::ext_equal]
pub struct BounceScan {
    /// The frames of the bounces.
    pub bounces: Seq<usize>,
    /// Whether the ball has been airborne since.
    pub armed: bool,
}

/// Some frame in the next five, up to the end of the flight, is higher than
/// `level`.
pub open spec fn rises(z: Seq<Double>, level: Double, i: int, last: int) -> bool {
    exists|j: int| i < j < i + 6 && j <= last && level.lt(#[trigger] z[j])
}

/// A local minimum of the height near the ground that a rise follows.
pub open spec fn is_dip(z: Seq<Double>, raised: Seq<Double>, i: int, last: int) -> bool {
    &&& z[i].lt(Double { bits: BOUNCE_Z })
    &&& z[i].le(z[i - 1])
    &&& z[i].lt(z[i + 1])
    &&& rises(z, raised[i], i, last)
}

/// The bounces found in the frames after `first` and before `i` of a flight that
/// ends at `last`. `raised[i]` is the height that a rise after frame `i` must pass.
pub open spec fn scan_bounces(
    z: Seq<Double>,
    raised: Seq<Double>,
    first: int,
    i: int,
    last: int,
) -> BounceScan
    decreases i - first,
{
    if i <= first + 1 {
        BounceScan { bounces: seq![], armed: true }
    } else {
        let before = scan_bounces(z, raised, first, i - 1, last);
        let k = i - 1;
        let armed = before.armed || (Double { bits: AIR_Z }).lt(z[k]);
        if armed && is_dip(z, raised, k, last) {
            BounceScan { bounces: before.bounces.push(k as usize), armed: false }
        } else {
            BounceScan { bounces: before.bounces, armed }
        }
    }
}

fn has_rise(z: &Vec<Double>, level: Double, i: usize, last: usize) -> (res: bool)
    requires
        i < last < z@.len(),
    ensures
        res == rises(z@, level, i as int, last as int),
{
    let mut j: usize = i;
    let mut left: usize = 5;
    while left > 0 && j < last
        invariant
            i <= j <= last < z@.len(),
            left + (j - i) == 5,
            forall|k: int| i < k <= j ==> !level.lt(#[trigger] z@[k]),
        decreases left,
    {
        j = j + 1;
        left = left - 1;
        if level.is_less(z[j]) {
            assert(level.lt(z@[j as int]));
            return true;
        }
    }
    false
}

/// The bounces inside a flight: local minima of the height near the ground that a
/// rise follows, each only after the ball has been airborne since the one before.
/// `z` holds the heights, zero where there is no ball.
pub fn find_bounces(z: &Vec<Double>, raised: &Vec<Double>, flight: Run) -> (res: Vec<usize>)
    requires
        z@.len() == raised@.len(),
        flight.first <= flight.last < z@.len(),
    ensures
        res@ == scan_bounces(
            z@,
            raised@,
            flight.first as int,
            flight.last as int,
            flight.last as int,
        ).bounces,
{
    let mut out: Vec<usize> = Vec::new();
    let mut armed = true;
    let total: usize = z.len();
    let mut i: usize = flight.first + 1;
    while i < flight.last
        invariant
            z@.len() == raised@.len(),
            total == z@.len(),
            flight.first < i,
            i <= flight.last || i == flight.first + 1,
            flight.last < z@.len(),
            (BounceScan { bounces: out@, armed }) == scan_bounces(
                z@,
                raised@,
                flight.first as int,
                i as int,
                flight.last as int,
            ),
        decreases flight.last - i,
    {
        if Double::from_bits(AIR_Z).is_less(z[i]) {
            armed = true;
        }
        if z[i].is_less(Double::from_bits(BOUNCE_Z)) && z[i].is_at_most(z[i - 1]) && z[i].is_less(
            z[i + 1],
        ) && armed {
            if has_rise(z, raised[i], i, flight.last) {
                out.push(i);
                armed = false;
            }
        }
        i += 1;
    }
    out
}

/// Bounces are inside their flight, in order.
pub proof fn law_bounces_are_inside(
    z: Seq<Double>,
    raised: Seq<Double>,
    first: int,
    i: int,
    last: int,
)
    requires
        0 <= first,
        i <= last <= usize::MAX,
    ensures
        ({
            let b = scan_bounces(z, raised, first, i, last).bounces;
            &&& forall|k: int| 0 <= k < b.len() ==> first < (#[trigger] b[k]) < i
            &&& forall|k: int, l: int| 0 <= k < l < b.len() ==> b[k] < b[l]
        }),
    decreases i - first,
{
    if i > first + 1 {
        law_bounces_are_inside(z, raised, first, i - 1, last);
        let a = scan_bounces(z, raised, first, i - 1, last).bounces;
        let b = scan_bounces(z, raised, first, i, last).bounces;
        assert forall|k: int| 0 <= k < b.len() implies first < (#[trigger] b[k]) < i by {
            if k < a.len() {
                assert(b[k] == a[k]);
            }
        }
        assert forall|k: int, l: int| 0 <= k < l < b.len() implies b[k] < b[l] by {
            assert(b[k] == a[k]);
            if l < a.len() {
                assert(b[l] == a[l]);
            }
        }
    }
}

// ---------------------------------------------------------------- hops

/// A kick that may be the takeoff of a flight.
#[derive(Clone, Copy, Debug, PartialEq, Eq, Structural)]
pub struct Takeoff {
    /// Whether it can be one at all.
    pub eligible: bool,
    /// Its distance in time from the first airborne frame.
    pub apart: Double,
}

/// The nearest eligible kick, the first of equally near ones.
pub open spec fn is_takeoff(k: Seq<Takeoff>, i: int) -> bool {
    &&& 0 <= i < k.len()
    &&& k[i].eligible
    &&& forall|j: int|
        0 <= j < k.len() && (#[trigger] k[j]).eligible ==> !k[j].apart.lt(k[i].apart)
    &&& forall|j: int| 0 <= j < i && (#[trigger] k[j]).eligible ==> k[i].apart.lt(k[j].apart)
}

/// The kick a flight took off with: the nearest eligible one.
pub fn nearest_takeoff(k: &Vec<Takeoff>) -> (res: Option<usize>)
    requires
        forall|j: int| 0 <= j < k@.len() && (#[trigger] k@[j]).eligible ==> !k@[j].apart.nan(),
    ensures
        match res {
            Some(i) => is_takeoff(k@, i as int),
            None => forall|j: int| 0 <= j < k@.len() ==> !(#[trigger] k@[j]).eligible,
        },
{
    let mut best: Option<usize> = None;
    let mut i: usize = 0;
    while i < k.len()
        invariant
            i <= k@.len(),
            forall|j: int| 0 <= j < k@.len() && (#[trigger] k@[j]).eligible ==> !k@[j].apart.nan(),
            match best {
                Some(b) => b < i && k@[b as int].eligible && (forall|j: int|
                    0 <= j < i && (#[trigger] k@[j]).eligible ==> !k@[j].apart.lt(
                        k@[b as int].apart,
                    )) && (forall|j: int|
                    0 <= j < b && (#[trigger] k@[j]).eligible ==> k@[b as int].apart.lt(
                        k@[j].apart,
                    )),
                None => forall|j: int| 0 <= j < i ==> !(#[trigger] k@[j]).eligible,
            },
        decreases k.len() - i,
    {
        if k[i].eligible {
            assert(!k@[i as int].apart.nan());
            best = match best {
                Some(b) => if k[i].apart.is_less(k[b].apart) {
                    Some(i)
                } else {
                    Some(b)
                },
                None => Some(i),
            };
        }
        i += 1;
    }
    best
}

/// Whether a tracked kick can be a takeoff: it rises and is near enough.
pub fn kick_takes_off(vz: Double, apart: Double) -> (res: Takeoff)
    ensures
        res.apart == apart,
        res.eligible == ((Double { bits: MIN_RATIO_SPEED }).lt(vz) && apart.lt(
            Double { bits: TAKEOFF_TIME },
        )),
{
    Takeoff {
        eligible: Double::from_bits(MIN_RATIO_SPEED).is_less(vz) && apart.is_less(
            Double::from_bits(TAKEOFF_TIME),
        ),
        apart,
    }
}

/// Whether an own kick event at `t` can be a takeoff: it is not later than `latest`
/// and not too long `before` the first airborne frame.
pub fn event_takes_off(t: Double, latest: Double, before: Double, apart: Double) -> (res: Takeoff)
    ensures
        res.apart == apart,
        res.eligible == (t.le(latest) && before.lt(Double { bits: TAKEOFF_TIME })),
{
    Takeoff {
        eligible: t.is_at_most(latest) && before.is_less(Double::from_bits(TAKEOFF_TIME)),
        apart,
    }
}

/// Whether both ends of hop `h` of `n` are real bounce or kick instants.
pub fn ends_known(h: usize, n: usize, takeoff_known: bool) -> (res: bool)
    ensures
        res == ((h > 0 || takeoff_known) && h + 1 < n),
{
    (h > 0 || takeoff_known) && h < n && n - h > 1
}

/// What is known of a hop.
#[derive(Clone, Copy, Debug, PartialEq, Eq, Structural)]
pub struct HopFact {
    /// Which hop of the flight it is.
    pub idx: usize,
    /// Its flight time.
    pub tf: Double,
    /// Its tracked apex.
    pub tracker_apex: Double,
    /// Its apex by timing over its tracked apex.
    pub apex_ratio: Double,
}

/// A hop that the tracker saw and whose apex agrees within a factor of 2.
pub open spec fn is_real(h: HopFact) -> bool {
    (Double { bits: MIN_TRACKER_APEX }).le(h.tracker_apex) && in_range(
        h.apex_ratio,
        Double { bits: 0x3FE0_0000_0000_0000 },
        Double { bits: 0x4000_0000_0000_0000 },
    )
}

fn hop_is_real(h: HopFact) -> (res: bool)
    ensures
        res == is_real(h),
{
    Double::from_bits(MIN_TRACKER_APEX).is_at_most(h.tracker_apex) && Double::from_bits(
        0x3FE0_0000_0000_0000,
    ).is_at_most(h.apex_ratio) && h.apex_ratio.is_less(Double::from_bits(0x4000_0000_0000_0000))
}

/// Two hops have a bounce between them that both sides time: the first starts at a
/// known takeoff, the second ends at a real bounce, and both are long and real.
pub open spec fn is_timed(a: HopFact, b: HopFact, n: int, takeoff_known: bool) -> bool {
    &&& a.idx > 0 || takeoff_known
    &&& b.idx + 1 < n
    &&& (Double { bits: MIN_HOP_T }).le(a.tf)
    &&& (Double { bits: MIN_HOP_T }).le(b.tf)
    &&& is_real(a)
    &&& is_real(b)
}

/// Whether the bounce between two consecutive hops of `n` is timed; none if the
/// hops do not follow each other.
pub fn bounce_is_timed(a: HopFact, b: HopFact, n: usize, takeoff_known: bool) -> (res: Option<bool>)
    requires
        b.idx < n,
        a.idx < usize::MAX,
    ensures
        res == if b.idx != a.idx + 1 {
            None
        } else {
            Some(is_timed(a, b, n as int, takeoff_known))
        },
{
    if b.idx != a.idx + 1 {
        return None;
    }
    Some(
        (a.idx > 0 || takeoff_known) && n - b.idx > 1 && Double::from_bits(MIN_HOP_T).is_at_most(
            a.tf,
        ) && Double::from_bits(MIN_HOP_T).is_at_most(b.tf) && hop_is_real(a) && hop_is_real(b),
    )
}

/// Whether the fits of two hops meet at one bounce: landing and takeoff are near
/// each other, and the ball is fast enough for a ratio.
pub fn fits_meet(pos_gap: Double, t_gap: Double, speed: Double) -> (res: bool)
    ensures
        res == (pos_gap.le(Double { bits: MAX_BOUNCE_POS_GAP }) && t_gap.le(
            Double { bits: MAX_BOUNCE_T_GAP },
        ) && (Double { bits: MIN_RATIO_SPEED }).lt(speed)),
{
    pos_gap.is_at_most(Double::from_bits(MAX_BOUNCE_POS_GAP)) && t_gap.is_at_most(
        Double::from_bits(MAX_BOUNCE_T_GAP),
    ) && Double::from_bits(MIN_RATIO_SPEED).is_less(speed)
}

/// The tracked frames three before and three after a bounce, if there are both.
pub fn frames_around(bounce: usize, count: usize) -> (res: Option<(usize, usize)>)
    ensures
        res == if bounce >= 3 && bounce + 3 < count {
            Some(((bounce - 3) as usize, (bounce + 3) as usize))
        } else {
            None
        },
{
    if bounce >= 3 && bounce < count && count - bounce > 3 {
        Some((bounce - 3, bounce + 3))
    } else {
        None
    }
}

// ---------------------------------------------------------------- one hop's fit

/// A sample of a hop's fit.
#[derive(Clone, Copy, Debug, PartialEq, Eq, Structural)]
pub struct FitSample {
    /// Its time.
    pub t: Double,
    /// Its distance from the fit.
    pub dist: Double,
}

/// A sample stays if it is inside the flight and not an outlier.
pub open spec fn stays(s: FitSample, from: Double, to: Double, limit: Double) -> bool {
    from.le(s.t) && s.t.le(to) && s.dist.lt(limit)
}

/// The samples that stay after a round of the fit; none if they are too few.
pub fn keep_samples(s: &Vec<FitSample>, from: Double, to: Double, limit: Double) -> (res: Option<
    Vec<usize>,
>)
    ensures
        ({
            let all = set_places(Seq::new(s@.len(), |i: int| stays(s@[i], from, to, limit)));
            match res {
                Some(p) => p@ == all && all.len() >= MIN_HOP_SAMPLES,
                None => all.len() < MIN_HOP_SAMPLES,
            }
        }),
{
    let mut flags: Vec<bool> = Vec::new();
    let mut i: usize = 0;
    while i < s.len()
        invariant
            i <= s@.len(),
            flags@.len() == i,
            forall|j: int| 0 <= j < i ==> #[trigger] flags@[j] == stays(s@[j], from, to, limit),
        decreases s.len() - i,
    {
        flags.push(
            from.is_at_most(s[i].t) && s[i].t.is_at_most(to) && s[i].dist.is_less(limit),
        );
        i += 1;
    }
    assert(flags@ =~= Seq::new(s@.len(), |i: int| stays(s@[i], from, to, limit)));
    let p = places(&flags);
    if p.len() >= MIN_HOP_SAMPLES {
        Some(p)
    } else {
        None
    }
}

/// Which samples carry the offset of a second camera: with several cameras, those
/// not of the first one. `cams` holds the different cameras in ascending order.
pub fn offset_column(cams: &Vec<u32>, cam: u32) -> (res: bool)
    ensures
        res == (cams@.len() >= 2 && cam != cams@[0]),
{
    cams.len() >= 2 && cam != cams[0]
}

/// Whether a fit has enough samples to begin.
pub fn enough_samples(n: usize) -> (res: bool)
    ensures
        res == (n >= MIN_HOP_SAMPLES),
{
    n >= MIN_HOP_SAMPLES
}

/// Whether a fitted vertical speed makes a flight.
pub fn rises_at_all(vz: Double) -> (res: bool)
    ensures
        res == (vz.finite() && Double::zero().lt(vz)),
{
    vz.is_finite() && vz.is_positive()
}

/// Whether a fit is accepted: its flight is long enough and its residual small.
pub fn accepts_fit(tf: Double, rms: Double) -> (res: bool)
    ensures
        res == (!tf.lt(Double { bits: MIN_HOP_T }) && !(Double { bits: MAX_HOP_RMS }).lt(rms)),
{
    !tf.is_less(Double::from_bits(MIN_HOP_T)) && !Double::from_bits(MAX_HOP_RMS).is_less(rms)
}

// ---------------------------------------------------------------- many bounces

/// Whether a bounce is the first of its flight or a later one.
pub fn bounce_class(idx: usize) -> (res: Option<bool>)
    ensures
        res == if idx == 1 {
            Some(true)
        } else if idx >= 2 {
            Some(false)
        } else {
            None
        },
{
    if idx == 1 {
        Some(true)
    } else if idx >= 2 {
        Some(false)
    } else {
        None
    }
}

/// What a bounce is selected by: its incoming vertical speed and whether its
/// damping is known.
#[derive(Clone, Copy, Debug, PartialEq, Eq, Structural)]
pub struct BounceFact {
    /// Incoming vertical speed.
    pub vz_in: Double,
    /// Vertical damping.
    pub damping_z: Double,
}

/// A bounce whose damping is known and whose incoming speed is within `[lo, hi)`.
pub open spec fn hits_at(b: BounceFact, lo: Double, hi: Double) -> bool {
    in_range(b.vz_in, lo, hi) && b.damping_z.finite()
}

/// The bounces with an incoming speed within `[lo, hi)`; none if there are fewer
/// than four.
pub fn select_bounces(b: &Vec<BounceFact>, lo: Double, hi: Double) -> (res: Option<Vec<usize>>)
    ensures
        ({
            let all = set_places(Seq::new(b@.len(), |i: int| hits_at(b@[i], lo, hi)));
            match res {
                Some(p) => p@ == all && all.len() >= 4,
                None => all.len() < 4,
            }
        }),
{
    let mut flags: Vec<bool> = Vec::new();
    let mut i: usize = 0;
    while i < b.len()
        invariant
            i <= b@.len(),
            flags@.len() == i,
            forall|j: int| 0 <= j < i ==> #[trigger] flags@[j] == hits_at(b@[j], lo, hi),
        decreases b.len() - i,
    {
        flags.push(
            lo.is_at_most(b[i].vz_in) && b[i].vz_in.is_less(hi) && b[i].damping_z.is_finite(),
        );
        i += 1;
    }
    assert(flags@ =~= Seq::new(b@.len(), |i: int| hits_at(b@[i], lo, hi)));
    let p = places(&flags);
    if p.len() >= 4 {
        Some(p)
    } else {
        None
    }
}

/// The limits are the decimal numbers that they are said to be.
pub proof fn law_limits_in_decimals()
    ensures
        (Double { bits: AIR_Z }).reads(3, 100),
        !(Double { bits: AIR_Z }).negative(),
        (Double { bits: BOUNCE_Z }).reads(6, 100),
        !(Double { bits: BOUNCE_Z }).negative(),
        (Double { bits: FLIGHT_GAP }).reads(25, 100),
        !(Double { bits: FLIGHT_GAP }).negative(),
        (Double { bits: MAX_HOP_RMS }).reads(12, 1000),
        !(Double { bits: MAX_HOP_RMS }).negative(),
        (Double { bits: MIN_HOP_T }).reads(1, 10),
        !(Double { bits: MIN_HOP_T }).negative(),
        (Double { bits: MIN_TRACKER_APEX }).reads(4, 100),
        !(Double { bits: MIN_TRACKER_APEX }).negative(),
        (Double { bits: MAX_BOUNCE_POS_GAP }).reads(12, 100),
        !(Double { bits: MAX_BOUNCE_POS_GAP }).negative(),
        (Double { bits: MAX_BOUNCE_T_GAP }).reads(6, 100),
        !(Double { bits: MAX_BOUNCE_T_GAP }).negative(),
        (Double { bits: MIN_RATIO_SPEED }).reads(3, 10),
        !(Double { bits: MIN_RATIO_SPEED }).negative(),
        (Double { bits: TAKEOFF_TIME }).reads(25, 100),
        !(Double { bits: TAKEOFF_TIME }).negative(),
{
    lemma_powers();
}

/// Airborne is what is known to be higher than 0.03 m.
pub proof fn law_airborne_is_high(z: Option<Double>)
    ensures
        is_air(z) <==> (z matches Some(h) && (Double { bits: AIR_Z }).lt(h)),
{
}

/// Runs are the longest stretches of airborne frames, in order: all frames of a run
/// are airborne, those next to it are not, and every airborne frame is in a run.
pub proof fn law_runs_are_the_airborne_stretches(air: Seq<bool>)
    ensures
        forall|k: int|
            0 <= k < runs_of(air).len() ==> {
                let r = #[trigger] runs_of(air)[k];
                &&& 0 <= r.0 <= r.1 < air.len()
                &&& r.0 > 0 ==> !air[r.0 - 1]
                &&& r.1 + 1 < air.len() ==> !air[r.1 + 1]
            },
        forall|k: int, i: int|
            0 <= k < runs_of(air).len() && (#[trigger] runs_of(air)[k]).0 <= i <= runs_of(air)[k].1
                ==> #[trigger] air[i],
        forall|k: int, l: int|
            0 <= k < l < runs_of(air).len() ==> runs_of(air)[k].1 < runs_of(air)[l].0,
        forall|i: int|
            0 <= i < air.len() && #[trigger] air[i] ==> exists|k: int|
                0 <= k < runs_of(air).len() && (#[trigger] runs_of(air)[k]).0 <= i <= runs_of(
                    air,
                )[k].1,
    decreases air.len(),
{
    lemma_runs_in_order(air);
    lemma_runs_are_airborne(air);
    lemma_runs_cover(air);
    assert forall|k: int| 0 <= k < runs_of(air).len() implies {
        let r = #[trigger] runs_of(air)[k];
        &&& 0 <= r.0 <= r.1 < air.len()
        &&& r.0 > 0 ==> !air[r.0 - 1]
        &&& r.1 + 1 < air.len() ==> !air[r.1 + 1]
    } by {
        lemma_runs_end(air, k);
    }
}

proof fn lemma_runs_in_order(air: Seq<bool>)
    ensures
        forall|k: int|
            0 <= k < runs_of(air).len() ==> 0 <= (#[trigger] runs_of(air)[k]).0 <= runs_of(air)[k].1
                < air.len(),
        forall|k: int, l: int|
            0 <= k < l < runs_of(air).len() ==> runs_of(air)[k].1 < runs_of(air)[l].0,
        air.len() > 0 && air.last() ==> runs_of(air).len() > 0 && runs_of(air).last().1 == air.len() - 1,
    decreases air.len(),
{
    if air.len() > 0 {
        let rest = air.drop_last();
        lemma_runs_in_order(rest);
        let p = runs_of(rest);
        let q = runs_of(air);
        let m = p.len() as int;
        let n = rest.len() as int;
        if n > 0 {
            assert(rest.last() == air[n - 1]);
        }
        assert forall|k: int| 0 <= k < q.len() implies 0 <= (#[trigger] q[k]).0 <= q[k].1 < air.len() by {
            if k < m {
                assert(0 <= p[k].0 <= p[k].1 < n);
            }
        }
        assert forall|k: int, l: int| 0 <= k < l < q.len() implies q[k].1 < q[l].0 by {
            assert(q[k] == p[k]);
            assert(0 <= p[k].0 <= p[k].1 < n);
            if l < m {
                assert(p[k].1 < p[l].0);
            }
        }
    }
}

proof fn lemma_runs_are_airborne(air: Seq<bool>)
    ensures
        forall|k: int, i: int|
            0 <= k < runs_of(air).len() && (#[trigger] runs_of(air)[k]).0 <= i <= runs_of(air)[k].1
                ==> #[trigger] air[i],
    decreases air.len(),
{
    if air.len() > 0 {
        let rest = air.drop_last();
        lemma_runs_are_airborne(rest);
        lemma_runs_in_order(rest);
        let p = runs_of(rest);
        let q = runs_of(air);
        let n = rest.len() as int;
        if n > 0 {
            assert(rest.last() == air[n - 1]);
        }
        assert forall|k: int, i: int|
            0 <= k < q.len() && (#[trigger] q[k]).0 <= i <= q[k].1 implies #[trigger] air[i] by {
            if k < p.len() {
                assert(0 <= p[k].0 <= p[k].1 < n);
                if i < n {
                    assert(rest[i]);
                }
            }
        }
    }
}

proof fn lemma_runs_cover(air: Seq<bool>)
    ensures
        forall|i: int|
            0 <= i < air.len() && #[trigger] air[i] ==> exists|k: int|
                0 <= k < runs_of(air).len() && (#[trigger] runs_of(air)[k]).0 <= i <= runs_of(
                    air,
                )[k].1,
    decreases air.len(),
{
    if air.len() > 0 {
        let rest = air.drop_last();
        lemma_runs_cover(rest);
        lemma_runs_in_order(air);
        lemma_runs_in_order(rest);
        let p = runs_of(rest);
        let q = runs_of(air);
        assert forall|i: int| 0 <= i < air.len() && #[trigger] air[i] implies exists|k: int|
            0 <= k < q.len() && (#[trigger] q[k]).0 <= i <= q[k].1 by {
            if i == rest.len() {
                assert(q[q.len() - 1].0 <= i <= q[q.len() - 1].1);
            } else {
                assert(rest[i]);
                let k = choose|k: int| 0 <= k < p.len() && (#[trigger] p[k]).0 <= i <= p[k].1;
                assert(q[k].0 <= i <= q[k].1);
            }
        }
    }
}

proof fn lemma_runs_end(air: Seq<bool>, k: int)
    requires
        0 <= k < runs_of(air).len(),
    ensures
        ({
            let r = runs_of(air)[k];
            &&& 0 <= r.0 <= r.1 < air.len()
            &&& r.0 > 0 ==> !air[r.0 - 1]
            &&& r.1 + 1 < air.len() ==> !air[r.1 + 1]
        }),
    decreases air.len(),
{
    let rest = air.drop_last();
    let p = runs_of(rest);
    let q = runs_of(air);
    let n = rest.len() as int;
    lemma_runs_in_order(air);
    lemma_runs_in_order(rest);
    if n > 0 {
        assert(rest.last() == air[n - 1]);
    }
    if k < p.len() {
        lemma_runs_end(rest, k);
        let r = p[k];
        if r.0 > 0 {
            assert(rest[r.0 - 1] == air[r.0 - 1]);
        }
        if r.1 + 1 < n {
            assert(rest[r.1 + 1] == air[r.1 + 1]);
        } else if air[n] {
            lemma_runs_are_airborne(rest);
            assert(p[k].0 <= r.1 <= p[k].1);
            assert(rest[r.1]);
            assert(p.last().1 == n - 1);
            if k < p.len() - 1 {
                assert(p[k].1 < p[p.len() - 1].0);
            }
        }
    }
}

/// Two runs that follow each other are of one flight exactly if less than 0.25 s is
/// between them; a flight starts with a run and ends with one, and holds each run
/// whole.
pub proof fn law_flights_join_close_runs(runs: Seq<Run>, gaps: Seq<Double>, k: int)
    requires
        in_order(runs),
        runs.len() == gaps.len(),
        0 <= k < runs.len(),
    ensures
        exists|f: int| #[trigger] holds_run(flights_of(runs, gaps), f, runs[k]),
        k > 0 ==> (gaps[k].lt(Double { bits: FLIGHT_GAP }) <==> exists|f: int|
            holds_run(flights_of(runs, gaps), f, runs[k - 1]) && #[trigger] holds_run(
                flights_of(runs, gaps),
                f,
                runs[k],
            )),
        forall|f: int|
            0 <= f < flights_of(runs, gaps).len() ==> {
                let x = #[trigger] flights_of(runs, gaps)[f];
                &&& exists|a: int| 0 <= a < runs.len() && (#[trigger] runs[a]).first == x.first
                &&& exists|b: int| 0 <= b < runs.len() && (#[trigger] runs[b]).last == x.last
            },
    decreases runs.len(),
{
    let rest = runs.drop_last();
    let n = rest.len() as int;
    let p = flights_of(rest, gaps.drop_last());
    let q = flights_of(runs, gaps);
    let m = p.len() as int;
    lemma_flights_prefix(rest, gaps, gaps.drop_last());
    law_flights_are_in_order(runs, gaps);
    law_flights_are_in_order(rest, gaps.drop_last());
    let joined = m > 0 && gaps[n].lt(Double { bits: FLIGHT_GAP });
    if n > 0 {
        law_flights_join_close_runs(
            rest,
            gaps.drop_last(),
            if k < n {
                k
            } else {
                n - 1
            },
        );
        assert(m > 0 && p.last().last == rest.last().last);
        assert(runs[n - 1].last < runs[n].first);
        assert(runs[n - 1] == rest[n - 1]);
    }
    assert forall|f: int| 0 <= f < q.len() implies {
        let x = #[trigger] q[f];
        &&& exists|a: int| 0 <= a < runs.len() && (#[trigger] runs[a]).first == x.first
        &&& exists|b: int| 0 <= b < runs.len() && (#[trigger] runs[b]).last == x.last
    } by {
        if f < m {
            let y = p[f];
            let a = choose|a: int| 0 <= a < rest.len() && (#[trigger] rest[a]).first == y.first;
            assert(runs[a].first == y.first);
            let b = choose|b: int| 0 <= b < rest.len() && (#[trigger] rest[b]).last == y.last;
            assert(runs[b].last == y.last);
            if joined && f == m - 1 {
                assert(runs[n].last == q[f].last);
            }
        } else {
            assert(runs[n].first == q[f].first && runs[n].last == q[f].last);
        }
    }
    if k == n {
        let f = q.len() - 1;
        if joined {
            assert(p[m - 1].first <= p[m - 1].last);
        }
        assert(holds_run(q, f, runs[n]));
        if k > 0 {
            if joined {
                lemma_last_flight_holds_last_run(rest, gaps.drop_last());
                assert(holds_run(q, f, runs[n - 1]));
            } else {
                assert forall|g: int| holds_run(q, g, runs[n - 1]) implies !holds_run(q, g, runs[n]) by {
                    if g < m {
                        assert(q[g] == p[g]);
                        if g < m - 1 {
                            assert(p[g].last < p[m - 1].first);
                            assert(p[m - 1].first <= p[m - 1].last);
                        }
                        assert(runs[n].first <= runs[n].last);
                    }
                }
            }
        }
    } else {
        assert(rest[k] == runs[k]);
        assert forall|f: int, r: int| 0 <= r < n && #[trigger] holds_run(p, f, rest[r]) implies holds_run(
            q,
            f,
            runs[r],
        ) by {
            assert(rest[r] == runs[r]);
            assert(runs[r].last < runs[n].first);
            assert(runs[n].first <= runs[n].last);
        }
        assert forall|f: int, r: int| 0 <= r < n && #[trigger] holds_run(q, f, runs[r]) implies holds_run(
            p,
            f,
            rest[r],
        ) by {
            assert(rest[r] == runs[r]);
            assert(runs[r].last < runs[n].first);
            assert(runs[r].first <= runs[r].last);
            if f < m && joined && f == m - 1 {
                if r < n - 1 {
                    assert(rest[r].last < rest[n - 1].first);
                    assert(rest[n - 1].first <= rest[n - 1].last);
                }
            }
        }
        let f = choose|f: int| #[trigger] holds_run(p, f, rest[k]);
        assert(holds_run(q, f, runs[k]));
        if k > 0 {
            assert(rest[k - 1] == runs[k - 1]);
            assert(gaps.drop_last()[k] == gaps[k]);
            if gaps[k].lt(Double { bits: FLIGHT_GAP }) {
                let g = choose|g: int|
                    holds_run(p, g, rest[k - 1]) && #[trigger] holds_run(p, g, rest[k]);
                assert(holds_run(q, g, runs[k - 1]) && holds_run(q, g, runs[k]));
            } else {
                assert forall|g: int| holds_run(q, g, runs[k - 1]) implies !holds_run(q, g, runs[k]) by {
                    if holds_run(q, g, runs[k]) {
                        assert(holds_run(p, g, rest[k - 1]) && holds_run(p, g, rest[k]));
                    }
                }
            }
        }
    }
}

/// A flight holds a run whole.
pub open spec fn holds_run(flights: Seq<Run>, f: int, r: Run) -> bool {
    0 <= f < flights.len() && flights[f].first <= r.first && r.last <= flights[f].last
}

proof fn lemma_last_flight_holds_last_run(runs: Seq<Run>, gaps: Seq<Double>)
    requires
        in_order(runs),
        runs.len() == gaps.len(),
        runs.len() > 0,
    ensures
        holds_run(flights_of(runs, gaps), flights_of(runs, gaps).len() - 1, runs.last()),
{
    let rest = runs.drop_last();
    let p = flights_of(rest, gaps);
    lemma_flights_prefix(rest, gaps, gaps.drop_last());
    law_flights_are_in_order(rest, gaps.drop_last());
    if rest.len() > 0 {
        assert(p[p.len() - 1].first <= p[p.len() - 1].last);
        assert(runs[rest.len() - 1].last < runs[rest.len() as int].first);
    }
}

/// A flight is one that goes on for three frames or more after its first.
pub proof fn law_flights_last(r: Run)
    ensures
        is_flight(r) <==> r.last - r.first >= 3,
{
}

/// A dip is below 0.06 m, not above the frame before it, below the frame behind it, and
/// one of the next five frames of the flight is above its mark.
pub proof fn law_dips_are_low_points(z: Seq<Double>, raised: Seq<Double>, i: int, last: int)
    ensures
        is_dip(z, raised, i, last) <==> z[i].lt(Double { bits: BOUNCE_Z }) && z[i].le(z[i - 1])
            && z[i].lt(z[i + 1]) && exists|j: int|
            i < j <= i + 5 && j <= last && raised[i].lt(#[trigger] z[j]),
{
    if is_dip(z, raised, i, last) {
        let j = choose|j: int| i < j < i + 6 && j <= last && raised[i].lt(#[trigger] z[j]);
        assert(i < j <= i + 5);
    }
}

/// The bounces are the dips between which the ball was airborne: each is a dip, and
/// before a later one the ball was airborne since the last; and a dip that is no bounce
/// follows one since which the ball was not airborne.
pub proof fn law_bounces_are_dips_after_flight(
    z: Seq<Double>,
    raised: Seq<Double>,
    first: int,
    i: int,
    last: int,
)
    requires
        0 <= first,
        i <= last <= usize::MAX,
    ensures
        ({
            let b = scan_bounces(z, raised, first, i, last).bounces;
            &&& forall|k: int| 0 <= k < b.len() ==> is_dip(z, raised, #[trigger] b[k] as int, last)
            &&& forall|k: int|
                1 <= k < b.len() ==> was_airborne(z, b[k - 1] as int, #[trigger] b[k] as int)
            &&& forall|d: int|
                first < d < i && #[trigger] is_dip(z, raised, d, last) ==> b.contains(d as usize) || (
                exists|k: int|
                    0 <= k < b.len() && b[k] < d && !#[trigger] was_airborne(z, b[k] as int, d))
        }),
    decreases i - first,
{
    if i > first + 1 {
        law_bounces_are_dips_after_flight(z, raised, first, i - 1, last);
        law_bounces_are_inside(z, raised, first, i - 1, last);
        lemma_armed(z, raised, first, i - 1, last);
        let before = scan_bounces(z, raised, first, i - 1, last);
        let a = before.bounces;
        let b = scan_bounces(z, raised, first, i, last).bounces;
        let e = i - 1;
        assert forall|k: int| 0 <= k < b.len() implies is_dip(z, raised, #[trigger] b[k] as int, last) by {
            if k < a.len() {
                assert(b[k] == a[k]);
            }
        }
        assert forall|k: int| 1 <= k < b.len() implies was_airborne(
            z,
            b[k - 1] as int,
            #[trigger] b[k] as int,
        ) by {
            assert(b[k - 1] == a[k - 1]);
            if k < a.len() {
                assert(b[k] == a[k]);
            } else {
                assert(b[k] == e as usize);
                if (Double { bits: AIR_Z }).lt(z[e]) {
                    assert(was_airborne(z, a[k - 1] as int, e));
                } else {
                    let w = choose|w: int|
                        a[k - 1] < w <= e - 1 && (Double { bits: AIR_Z }).lt(#[trigger] z[w]);
                    assert(was_airborne(z, a[k - 1] as int, e));
                }
            }
        }
        assert forall|d: int| first < d < i && #[trigger] is_dip(z, raised, d, last) implies b.contains(
            d as usize,
        ) || (exists|k: int|
            0 <= k < b.len() && b[k] < d && !#[trigger] was_airborne(z, b[k] as int, d)) by {
            if d < e {
                if a.contains(d as usize) {
                    let k = choose|k: int| 0 <= k < a.len() && a[k] == d as usize;
                    assert(b[k] == d as usize);
                } else {
                    let k = choose|k: int|
                        0 <= k < a.len() && a[k] < d && !#[trigger] was_airborne(z, a[k] as int, d);
                    assert(b[k] == a[k]);
                }
            } else if b.len() > a.len() {
                assert(b[a.len() as int] == d as usize);
            } else {
                assert(!before.armed && !(Double { bits: AIR_Z }).lt(z[e]));
                let k = a.len() - 1;
                if was_airborne(z, a[k] as int, d) {
                    let w = choose|w: int|
                        a[k] < w <= d && (Double { bits: AIR_Z }).lt(#[trigger] z[w]);
                    assert(w < e);
                    assert(was_airborne(z, a[k] as int, e - 1));
                }
                assert(b[k] == a[k]);
            }
        }
    }
}

/// The ball was airborne after frame `from`, up to frame `to`.
pub open spec fn was_airborne(z: Seq<Double>, from: int, to: int) -> bool {
    exists|w: int| from < w <= to && (Double { bits: AIR_Z }).lt(#[trigger] z[w])
}

proof fn lemma_armed(z: Seq<Double>, raised: Seq<Double>, first: int, i: int, last: int)
    requires
        0 <= first,
        i <= last <= usize::MAX,
    ensures
        ({
            let s = scan_bounces(z, raised, first, i, last);
            s.armed <==> s.bounces.len() == 0 || was_airborne(z, s.bounces.last() as int, i - 1)
        }),
    decreases i - first,
{
    if i > first + 1 {
        lemma_armed(z, raised, first, i - 1, last);
        law_bounces_are_inside(z, raised, first, i - 1, last);
        let p = scan_bounces(z, raised, first, i - 1, last);
        let s = scan_bounces(z, raised, first, i, last);
        let k = i - 1;
        if p.bounces.len() > 0 && s.bounces == p.bounces {
            let b = p.bounces.last() as int;
            assert(p.bounces[p.bounces.len() - 1] < i - 1);
            if (Double { bits: AIR_Z }).lt(z[k]) {
                assert(was_airborne(z, b, i - 1));
            } else {
                if was_airborne(z, b, i - 2) {
                    let w = choose|w: int| b < w <= i - 2 && (Double { bits: AIR_Z }).lt(#[trigger] z[w]);
                    assert(was_airborne(z, b, i - 1));
                }
                if was_airborne(z, b, i - 1) {
                    let w = choose|w: int| b < w <= i - 1 && (Double { bits: AIR_Z }).lt(#[trigger] z[w]);
                    assert(w <= i - 2);
                    assert(was_airborne(z, b, i - 2));
                }
            }
        }
    }
}

/// No eligible kick is nearer than the takeoff, and none before it as near.
pub proof fn law_takeoff_is_nearest(k: Seq<Takeoff>, i: int, j: int)
    requires
        is_takeoff(k, i),
        0 <= j < k.len(),
        k[j].eligible,
    ensures
        k[i].eligible,
        !k[j].apart.lt(k[i].apart),
        j < i ==> k[i].apart.lt(k[j].apart),
{
}

/// A hop is real if the tracker saw it at 0.04 m or above and its apex by timing is at
/// least half and less than twice that.
pub proof fn law_real_hops_agree_with_the_tracker(h: HopFact)
    ensures
        is_real(h) <==> (Double { bits: MIN_TRACKER_APEX }).le(h.tracker_apex) && (Double {
            bits: 0x3FE0_0000_0000_0000,
        }).le(h.apex_ratio) && h.apex_ratio.lt(Double { bits: 0x4000_0000_0000_0000 }),
{
}

/// A bounce is timed if neither the first hop's takeoff nor the second hop's landing is
/// a guess and both hops are real and last 0.1 s or more; a hop that is not the last is
/// followed by a bounce.
pub proof fn law_timed_bounces_have_two_real_hops(a: HopFact, b: HopFact, n: int, takeoff_known: bool)
    ensures
        is_timed(a, b, n, takeoff_known) <==> (takeoff_known || a.idx != 0) && b.idx < n - 1 && (Double {
            bits: MIN_HOP_T,
        }).le(a.tf) && (Double { bits: MIN_HOP_T }).le(b.tf) && is_real(a) && is_real(b),
{
}

/// A sample stays if its time is inside the flight, ends included, and it is nearer to
/// the fit than the limit; a wider flight and a wider limit keep what a narrower one
/// keeps.
pub proof fn law_samples_stay(s: FitSample, from: Double, to: Double, limit: Double, wider: Double)
    ensures
        stays(s, from, to, limit) <==> !s.t.lt(from) && !to.lt(s.t) && !s.t.nan() && !from.nan()
            && !to.nan() && s.dist.lt(limit),
        stays(s, from, to, limit) && limit.le(wider) ==> stays(s, from, to, wider),
        stays(s, from, to, limit) && to.le(wider) ==> stays(s, from, wider, limit),
        stays(s, from, to, limit) && wider.le(from) ==> stays(s, wider, to, limit),
{
}

/// A bounce counts for a range if its incoming speed is at least the lower end and
/// below the upper one and its damping is known.
pub proof fn law_bounces_hit_at(b: BounceFact, lo: Double, hi: Double)
    ensures
        hits_at(b, lo, hi) <==> lo.le(b.vz_in) && b.vz_in.lt(hi) && b.damping_z.finite(),
{
}

/// The numbers of samples are as they are said to be.
pub proof fn law_least_numbers()
    ensures
        FLIGHT_FRAMES == 3,
        MIN_HOP_SAMPLES == 6,
{
}

/// A run as a pair is its first and its last frame.
pub proof fn law_run_views(r: Run)
    ensures
        run_view(r).0 == r.first,
        run_view(r).1 == r.last,
{
}

} // verus!
