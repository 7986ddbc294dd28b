//! Robot kinematics: which samples count, and step responses from rest.
use vstd::prelude::*;

use crate::double::{Double, lemma_powers};
use crate::logtool::dynamics::stats::{in_range, places, set_places};

verus! {

/// Samples slower than this are at rest: 0.12 m/s.
pub const REST_SPEED: u64 = 0x3FBE_B851_EB85_1EB8;

/// The highest speed after a rest must reach this: 1.2 m/s.
pub const STEP_MIN_PEAK: u64 = 0x3FF3_3333_3333_3333;

/// A longer gap spoils a step: 0.1 s.
pub const STEP_MAX_GAP: u64 = 0x3FB9_9999_9999_999A;

/// Acceleration along the velocity is only evaluated above this speed: 0.3 m/s.
pub const TANGENT_MIN_SPEED: u64 = 0x3FD3_3333_3333_3333;

/// Faster samples are glitches: 5 m/s.
pub const GLITCH_SPEED: u64 = 0x4014_0000_0000_0000;

/// Samples that accelerate more are glitches: 25 m/s^2.
pub const GLITCH_ACCEL: u64 = 0x4039_0000_0000_0000;

/// Samples that turn faster are glitches: 400 rad/s^2.
pub const GLITCH_ALPHA: u64 = 0x4079_0000_0000_0000;

/// Slower samples stand still: 0.03 m/s.
pub const STANDING_SPEED: u64 = 0x3F9E_B851_EB85_1EB8;

/// A step rises for longer than this: 0.05 s.
pub const STEP_MIN_RISE: u64 = 0x3FA9_9999_9999_999A;

/// A step accelerates less than this: 15 m/s^2.
pub const STEP_MAX_ACCEL: u64 = 0x402E_0000_0000_0000;

/// A step's speed counts from here on: 0.1 m/s.
pub const STEP_LOW: u64 = 0x3FB9_9999_9999_999A;

/// A step's speed counts up to here: 2 m/s.
pub const STEP_HIGH: u64 = 0x4000_0000_0000_0000;

/// A fast step reaches this speed: 2.5 m/s.
pub const FAST_STEP: u64 = 0x4004_0000_0000_0000;

/// A team needs this many samples to be reported.
pub const MIN_TEAM_SAMPLES: usize = 1000;

/// A speed bin needs this many samples to be reported.
pub const MIN_BIN_SAMPLES: usize = 200;

// ---------------------------------------------------------------- samples

/// What a sample is good for.
#[derive(Clone, Copy, Debug, PartialEq, Eq, Structural)]
pub enum Use {
    /// Nothing: no velocity, or no play.
    Skip,
    /// It is a detection glitch.
    Glitch,
    /// It counts; `moving` fast enough for an acceleration along the velocity,
    /// `standing` slow enough for the noise.
    Counts {
        /// Fast enough.
        moving: bool,
        /// Slow enough.
        standing: bool,
    },
}

/// What a sample is good for, from whether it has a velocity, whether there is
/// play, and its speed, acceleration and angular acceleration.
pub fn sample_use(
    has_velocity: bool,
    play: bool,
    speed: Double,
    accel: Double,
    alpha: Double,
) -> (res: Use)
    ensures
        res == if !has_velocity || !play {
            Use::Skip
        } else if (Double { bits: GLITCH_SPEED }).lt(speed) || (Double { bits: GLITCH_ACCEL }).lt(
            accel,
        ) || (Double { bits: GLITCH_ALPHA }).lt(alpha) {
            Use::Glitch
        } else {
            Use::Counts {
                moving: (Double { bits: TANGENT_MIN_SPEED }).lt(speed),
                standing: speed.lt(Double { bits: STANDING_SPEED }),
            }
        },
{
    if !has_velocity || !play {
        Use::Skip
    } else if Double::from_bits(GLITCH_SPEED).is_less(speed) || Double::from_bits(
        GLITCH_ACCEL,
    ).is_less(accel) || Double::from_bits(GLITCH_ALPHA).is_less(alpha) {
        Use::Glitch
    } else {
        Use::Counts {
            moving: Double::from_bits(TANGENT_MIN_SPEED).is_less(speed),
            standing: speed.is_less(Double::from_bits(STANDING_SPEED)),
        }
    }
}

/// Whether an acceleration along the velocity speeds the robot up; if not, it
/// brakes.
pub fn speeds_up(at: Double) -> (res: bool)
    ensures
        res == Double::zero().lt(at),
{
    at.is_positive()
}

/// Speed and acceleration along it.
#[derive(Clone, Copy, Debug, PartialEq, Eq, Structural)]
pub struct SpeedAccel {
    /// Speed.
    pub v: Double,
    /// Acceleration along it.
    pub a: Double,
}

/// Speeding up (or braking) at a speed within `[lo, hi)`.
pub open spec fn in_bin(s: SpeedAccel, lo: Double, hi: Double, up: bool) -> bool {
    in_range(s.v, lo, hi) && if up {
        Double::zero().lt(s.a)
    } else {
        s.a.lt(Double::zero())
    }
}

/// The samples that speed up (or brake) at a speed within `[lo, hi)`.
pub fn select_bin(s: &Vec<SpeedAccel>, lo: Double, hi: Double, up: bool) -> (res: Vec<usize>)
    ensures
        res@ == set_places(Seq::new(s@.len(), |i: int| in_bin(s@[i], lo, hi, up))),
{
    let mut flags: Vec<bool> = Vec::new();
    let mut i: usize = 0;
    while i < s.len()
        invariant
            i <= s@.len(),
            flags@.len() == i,
            forall|j: int| 0 <= j < i ==> #[trigger] flags@[j] == in_bin(s@[j], lo, hi, up),
        decreases s.len() - i,
    {
        let side = if up {
            s[i].a.is_positive()
        } else {
            s[i].a.is_less(Double::zero())
        };
        flags.push(lo.is_at_most(s[i].v) && s[i].v.is_less(hi) && side);
        i += 1;
    }
    assert(flags@ =~= Seq::new(s@.len(), |i: int| in_bin(s@[i], lo, hi, up)));
    places(&flags)
}

/// Whether a speed bin has enough samples to be reported.
pub fn bin_counts(up: usize, brake: usize) -> (res: bool)
    ensures
        res == (up + brake >= MIN_BIN_SAMPLES),
{
    up >= MIN_BIN_SAMPLES || brake >= MIN_BIN_SAMPLES - up
}

/// Whether a team has enough samples to be reported.
pub fn team_counts(n: usize) -> (res: bool)
    ensures
        res == (n >= MIN_TEAM_SAMPLES),
{
    n >= MIN_TEAM_SAMPLES
}

// ---------------------------------------------------------------- steps

/// What steps are found by in one sample of a robot's track.
#[derive(Clone, Copy, Debug, PartialEq, Eq, Structural)]
pub struct StepSample {
    /// Whether it has a velocity.
    pub has_velocity: bool,
    /// Its speed.
    pub speed: Double,
    /// Time since the sample before it.
    pub gap: Double,
    /// Acceleration along the velocity.
    pub tangential: Double,
}

/// What is known of the times of a track: for each sample, the first one from it on
/// that is at least so much later.
#[derive(Clone, Debug)]
pub struct Reach {
    /// At least 10 s later: a rest is not longer.
    pub rest_limit: Vec<usize>,
    /// At least 0.25 s later: a rest is long enough.
    pub rest_least: Vec<usize>,
    /// At least 1.5 s later: a step is over.
    pub step: Vec<usize>,
}

impl Reach {
    /// There is a value for every sample of a track, and time has passed.
    pub open spec fn wf(&self, n: int) -> bool {
        &&& self.rest_limit@.len() == n
        &&& self.rest_least@.len() == n
        &&& self.step@.len() == n
        &&& forall|i: int| 0 <= i < n ==> (#[trigger] self.rest_limit@[i]) > i
        &&& forall|i: int| 0 <= i < n ==> (#[trigger] self.step@[i]) <= n
    }
}

/// At rest.
pub open spec fn rests(s: StepSample) -> bool {
    s.has_velocity && s.speed.lt(Double { bits: REST_SPEED })
}

/// The first sample from `i` on that is not at rest, or that is `limit`.
pub open spec fn rest_end(s: Seq<StepSample>, i: int, limit: int) -> int
    decreases s.len() - i,
{
    if 0 <= i < s.len() && i < limit && rests(s[i]) {
        rest_end(s, i + 1, limit)
    } else {
        i
    }
}

/// The highest speed in the samples from `from` up to `to`.
pub open spec fn peak_in(s: Seq<StepSample>, from: int, to: int) -> Double
    decreases to - from,
{
    if to <= from {
        Double::zero()
    } else {
        let before = peak_in(s, from, to - 1);
        if s[to - 1].has_velocity && before.lt(s[to - 1].speed) {
            s[to - 1].speed
        } else {
            before
        }
    }
}

/// Some sample from `from` up to `to` comes after a long gap.
pub open spec fn gap_in(s: Seq<StepSample>, from: int, to: int) -> bool {
    exists|k: int| from <= k < to && (Double { bits: STEP_MAX_GAP }).lt((#[trigger] s[k]).gap)
}

/// A rest followed by a step.
#[derive(Clone, Copy, Debug, PartialEq, Eq, Structural)]
pub struct Candidate {
    /// The last sample at rest is the one before this.
    pub from: usize,
    /// The step is over here.
    pub to: usize,
    /// Highest speed of the step.
    pub peak: Double,
}

/// The rest that starts at `i` is long enough, and the robot gets fast after it
/// without a gap.
pub open spec fn is_candidate(s: Seq<StepSample>, r: Reach, i: int, e: int) -> bool {
    &&& e < s.len()
    &&& e - 1 >= r.rest_least@[i]
    &&& !gap_in(s, e, r.step@[e - 1] as int)
    &&& !peak_in(s, e, r.step@[e - 1] as int).lt(Double { bits: STEP_MIN_PEAK })
}

/// The first rest from sample `i` on that a step follows.
pub open spec fn candidate_from(s: Seq<StepSample>, r: Reach, i: int) -> Option<(int, int, Double)>
    decreases s.len() - i,
{
    if i < 0 || i >= s.len() {
        None
    } else if !rests(s[i]) {
        candidate_from(s, r, i + 1)
    } else {
        let e = rest_end(s, i + 1, r.rest_limit@[i] as int);
        if e <= i || e > s.len() {
            None
        } else if is_candidate(s, r, i, e) {
            Some((e, r.step@[e - 1] as int, peak_in(s, e, r.step@[e - 1] as int)))
        } else {
            candidate_from(s, r, e)
        }
    }
}

proof fn lemma_rest_end(s: Seq<StepSample>, i: int, limit: int)
    requires
        0 <= i <= s.len(),
    ensures
        i <= rest_end(s, i, limit) <= s.len(),
    decreases s.len() - i,
{
    if i < s.len() && i < limit && rests(s[i]) {
        lemma_rest_end(s, i + 1, limit);
    }
}

fn exec_rests(s: StepSample) -> (res: bool)
    ensures
        res == rests(s),
{
    s.has_velocity && s.speed.is_less(Double::from_bits(REST_SPEED))
}

/// The first rest from sample `from` on that a step follows: at least a quarter of
/// a second of rest, then a speed of at least 1.2 m/s within one and a half seconds
/// and without a gap.
pub fn next_step(s: &Vec<StepSample>, r: &Reach, from: usize) -> (res: Option<Candidate>)
    requires
        r.wf(s@.len() as int),
    ensures
        match res {
            Some(c) => candidate_from(s@, *r, from as int) == Some(
                (c.from as int, c.to as int, c.peak),
            ) && from < c.from < s@.len() && c.to <= s@.len(),
            None => candidate_from(s@, *r, from as int) is None,
        },
{
    let total: usize = s.len();
    let mut i: usize = from;
    while i < total
        invariant
            total == s@.len(),
            from <= i,
            r.wf(s@.len() as int),
            candidate_from(s@, *r, i as int) == candidate_from(s@, *r, from as int),
        decreases total - i,
    {
        if !exec_rests(s[i]) {
            i += 1;
            continue;
        }
        let limit: usize = r.rest_limit[i];
        let mut e: usize = i + 1;
        while e < total && e < limit && exec_rests(s[e])
            invariant
                total == s@.len(),
                i < e <= total,
                rest_end(s@, e as int, limit as int) == rest_end(s@, i + 1, limit as int),
            decreases total - e,
        {
            e += 1;
        }
        assert(e == rest_end(s@, i + 1, limit as int));
        if e < total && e - 1 >= r.rest_least[i] {
            assert(r.step@[e - 1] <= total);
            let to: usize = r.step[e - 1];
            let mut peak = Double::zero();
            let mut gap = false;
            let mut k: usize = e;
            while k < to
                invariant
                    total == s@.len(),
                    to <= total,
                    e <= k,
                    k <= to || k == e,
                    peak == peak_in(s@, e as int, k as int),
                    gap == gap_in(s@, e as int, k as int),
                decreases to - k,
            {
                let x = s[k];
                if x.has_velocity && peak.is_less(x.speed) {
                    peak = x.speed;
                }
                if Double::from_bits(STEP_MAX_GAP).is_less(x.gap) {
                    assert((Double { bits: STEP_MAX_GAP }).lt(s@[k as int].gap));
                    gap = true;
                }
                k += 1;
            }
            proof {
                if to < e {
                    assert(peak_in(s@, e as int, to as int) == Double::zero());
                    assert(!gap_in(s@, e as int, to as int));
                }
            }
            if !gap && !peak.is_less(Double::from_bits(STEP_MIN_PEAK)) {
                return Some(Candidate { from: e, to, peak });
            }
        }
        i = e;
    }
    None
}

/// What is found while the speed of a step rises.
#[derive(Clone, Copy, Debug, PartialEq, Eq, Structural)]
pub struct Rise {
    /// First sample above 0.1 m/s.
    pub t01: Option<usize>,
    /// First sample above the lower threshold.
    pub t10: Option<usize>,
    /// First sample from there on above the upper threshold.
    pub t90: Option<usize>,
    /// First sample above 2 m/s.
    pub t2: Option<usize>,
    /// Highest acceleration along the velocity before the upper threshold.
    pub peak_accel: Double,
}

/// The first of two.
pub open spec fn first_of(before: Option<usize>, now: bool, k: usize) -> Option<usize> {
    if before is None && now {
        Some(k)
    } else {
        before
    }
}

/// What is known after sample `k`; nothing changes once the upper threshold is
/// passed.
pub open spec fn rise_step(r: Rise, x: StepSample, k: usize, lo: Double, hi: Double) -> Rise {
    if r.t90 is Some || !x.has_velocity {
        r
    } else {
        let t10 = first_of(r.t10, lo.lt(x.speed), k);
        let t90 = first_of(r.t90, t10 is Some && hi.lt(x.speed), k);
        Rise {
            t01: first_of(r.t01, (Double { bits: STEP_LOW }).lt(x.speed), k),
            t10,
            t90,
            t2: first_of(r.t2, (Double { bits: STEP_HIGH }).lt(x.speed), k),
            peak_accel: if t90 is None && (Double { bits: TANGENT_MIN_SPEED }).lt(x.speed)
                && r.peak_accel.lt(x.tangential) {
                x.tangential
            } else {
                r.peak_accel
            },
        }
    }
}

/// What is known after the samples from `from` up to `to`.
pub open spec fn rise_over(
    s: Seq<StepSample>,
    from: int,
    to: int,
    lo: Double,
    hi: Double,
) -> Rise
    decreases to - from,
{
    if to <= from {
        Rise { t01: None, t10: None, t90: None, t2: None, peak_accel: Double::zero() }
    } else {
        rise_step(rise_over(s, from, to - 1, lo, hi), s[to - 1], (to - 1) as usize, lo, hi)
    }
}

proof fn lemma_rise_is_over(s: Seq<StepSample>, from: int, k: int, to: int, lo: Double, hi: Double)
    requires
        from <= k <= to,
        rise_over(s, from, k, lo, hi).t90 is Some,
    ensures
        rise_over(s, from, to, lo, hi) == rise_over(s, from, k, lo, hi),
    decreases to - k,
{
    if k < to {
        lemma_rise_is_over(s, from, k, to - 1, lo, hi);
    }
}

/// Follow the rise of a step: `lo` and `hi` are a tenth and nine tenths of its
/// highest speed. Also returns where to look for the next rest.
pub fn follow_rise(s: &Vec<StepSample>, c: Candidate, lo: Double, hi: Double) -> (res: (Rise, usize))
    requires
        c.from < s@.len(),
        c.to <= s@.len(),
    ensures
        res.0 == rise_over(s@, c.from as int, c.to as int, lo, hi),
        ({
            let j = match res.0.t90 {
                Some(k) => k as int,
                None => if c.to > c.from {
                    c.to as int
                } else {
                    c.from as int
                },
            };
            res.1 == if j > c.from {
                j
            } else {
                c.from + 1
            }
        }),
{
    let total: usize = s.len();
    let mut r = Rise { t01: None, t10: None, t90: None, t2: None, peak_accel: Double::zero() };
    let mut j: usize = c.from;
    while j < c.to && r.t90.is_none()
        invariant
            total == s@.len(),
            c.from <= j,
            c.from < total,
            j <= c.to || j == c.from,
            c.to <= total,
            r == rise_over(s@, c.from as int, j as int, lo, hi),
            r.t90 matches Some(k) ==> j == k + 1,
        decreases c.to - j,
    {
        let x = s[j];
        if x.has_velocity {
            if r.t01.is_none() && Double::from_bits(STEP_LOW).is_less(x.speed) {
                r.t01 = Some(j);
            }
            if r.t10.is_none() && lo.is_less(x.speed) {
                r.t10 = Some(j);
            }
            if r.t10.is_some() && r.t90.is_none() && hi.is_less(x.speed) {
                r.t90 = Some(j);
            }
            if r.t2.is_none() && Double::from_bits(STEP_HIGH).is_less(x.speed) {
                r.t2 = Some(j);
            }
            if r.t90.is_none() && Double::from_bits(TANGENT_MIN_SPEED).is_less(x.speed)
                && r.peak_accel.is_less(x.tangential) {
                r.peak_accel = x.tangential;
            }
        }
        j += 1;
    }
    proof {
        if r.t90 is Some && j <= c.to {
            lemma_rise_is_over(s@, c.from as int, j as int, c.to as int, lo, hi);
        }
    }
    let stop: usize = match r.t90 {
        Some(k) => k,
        None => j,
    };
    let next: usize = if stop > c.from {
        stop
    } else {
        c.from + 1
    };
    (r, next)
}

/// Whether a followed step counts: it rose for long enough, not too hard and not
/// to a glitch.
pub fn step_counts(rise: Double, peak_accel: Double, v_peak: Double) -> (res: bool)
    ensures
        res == ((Double { bits: STEP_MIN_RISE }).lt(rise) && peak_accel.lt(
            Double { bits: STEP_MAX_ACCEL },
        ) && v_peak.lt(Double { bits: GLITCH_SPEED })),
{
    Double::from_bits(STEP_MIN_RISE).is_less(rise) && peak_accel.is_less(
        Double::from_bits(STEP_MAX_ACCEL),
    ) && v_peak.is_less(Double::from_bits(GLITCH_SPEED))
}

/// The time from 0.1 m/s to 2 m/s, if it went up: the samples it is taken between.
pub fn to_two(r: Rise, later: bool) -> (res: Option<(usize, usize)>)
    ensures
        res == match (r.t01, r.t2) {
            (Some(x), Some(y)) => if later {
                Some((x, y))
            } else {
                None
            },
            _ => None,
        },
{
    match (r.t01, r.t2) {
        (Some(x), Some(y)) => if later {
            Some((x, y))
        } else {
            None
        },
        _ => None,
    }
}

/// Whether a step is a fast one.
pub fn is_fast(v_peak: Double) -> (res: bool)
    ensures
        res == (Double { bits: FAST_STEP }).le(v_peak),
{
    Double::from_bits(FAST_STEP).is_at_most(v_peak)
}

/// A step starts after a rest: it has a sample at rest right before it, and looking
/// for the next rest goes on behind its start.
pub proof fn law_steps_start_from_rest(s: Seq<StepSample>, r: Reach, i: int)
    requires
        0 <= i,
        r.wf(s.len() as int),
    ensures
        candidate_from(s, r, i) matches Some((e, to, peak)) ==> i < e < s.len() && rests(s[e - 1])
            && !peak.lt(Double { bits: STEP_MIN_PEAK }) && !gap_in(s, e, to),
    decreases s.len() - i,
{
    if i < s.len() {
        if !rests(s[i]) {
            law_steps_start_from_rest(s, r, i + 1);
        } else {
            let limit = r.rest_limit@[i] as int;
            lemma_rest_end(s, i + 1, limit);
            lemma_rest_before(s, i + 1, limit);
            let e = rest_end(s, i + 1, limit);
            if !is_candidate(s, r, i, e) {
                law_steps_start_from_rest(s, r, e);
            }
        }
    }
}

proof fn lemma_rest_before(s: Seq<StepSample>, i: int, limit: int)
    requires
        0 < i <= s.len(),
        rests(s[i - 1]),
    ensures
        rests(s[rest_end(s, i, limit) - 1]),
    decreases s.len() - i,
{
    if i < s.len() && i < limit && rests(s[i]) {
        lemma_rest_before(s, i + 1, limit);
    }
}

/// The limits are the decimal numbers that they are said to be.
pub proof fn law_limits_in_decimals()
    ensures
        (Double { bits: REST_SPEED }).reads(12, 100),
        !(Double { bits: REST_SPEED }).negative(),
        (Double { bits: STEP_MIN_PEAK }).reads(12, 10),
        !(Double { bits: STEP_MIN_PEAK }).negative(),
        (Double { bits: STEP_MAX_GAP }).reads(1, 10),
        !(Double { bits: STEP_MAX_GAP }).negative(),
        (Double { bits: TANGENT_MIN_SPEED }).reads(3, 10),
        !(Double { bits: TANGENT_MIN_SPEED }).negative(),
        (Double { bits: GLITCH_SPEED }).reads(5, 1),
        !(Double { bits: GLITCH_SPEED }).negative(),
        (Double { bits: GLITCH_ACCEL }).reads(25, 1),
        !(Double { bits: GLITCH_ACCEL }).negative(),
        (Double { bits: GLITCH_ALPHA }).reads(400, 1),
        !(Double { bits: GLITCH_ALPHA }).negative(),
        (Double { bits: STANDING_SPEED }).reads(3, 100),
        !(Double { bits: STANDING_SPEED }).negative(),
        (Double { bits: STEP_MIN_RISE }).reads(5, 100),
        !(Double { bits: STEP_MIN_RISE }).negative(),
        (Double { bits: STEP_MAX_ACCEL }).reads(15, 1),
        !(Double { bits: STEP_MAX_ACCEL }).negative(),
        (Double { bits: STEP_LOW }).reads(1, 10),
        !(Double { bits: STEP_LOW }).negative(),
        (Double { bits: STEP_HIGH }).reads(2, 1),
        !(Double { bits: STEP_HIGH }).negative(),
        (Double { bits: FAST_STEP }).reads(25, 10),
        !(Double { bits: FAST_STEP }).negative(),
{
    lemma_powers();
}

/// A sample counts for a bin if its speed is at least the lower end and below the upper
/// one and its acceleration has the sign asked for; none speeds up and brakes.
pub proof fn law_bins_of_samples(s: SpeedAccel, lo: Double, hi: Double)
    ensures
        in_bin(s, lo, hi, true) <==> lo.le(s.v) && s.v.lt(hi) && Double::zero().lt(s.a),
        in_bin(s, lo, hi, false) <==> lo.le(s.v) && s.v.lt(hi) && s.a.lt(Double::zero()),
        !(in_bin(s, lo, hi, true) && in_bin(s, lo, hi, false)),
{
}

/// A rest ends with the first sample that is not known to be slower than 0.12 m/s, or
/// at its limit.
pub proof fn law_rests_end(s: Seq<StepSample>, i: int, limit: int)
    requires
        0 <= i <= s.len(),
    ensures
        ({
            let e = rest_end(s, i, limit);
            &&& i <= e <= s.len()
            &&& forall|k: int|
                i <= k < e ==> (#[trigger] s[k]).has_velocity && s[k].speed.lt(
                    Double { bits: REST_SPEED },
                ) && k < limit
            &&& e < s.len() && e < limit ==> !(s[e].has_velocity && s[e].speed.lt(
                Double { bits: REST_SPEED },
            ))
        }),
    decreases s.len() - i,
{
    if i < s.len() && i < limit && rests(s[i]) {
        law_rests_end(s, i + 1, limit);
    }
}

/// Nothing in the stretch is faster than its peak, which is zero or one of its speeds.
pub proof fn law_peak_bounds(s: Seq<StepSample>, from: int, to: int)
    ensures
        !peak_in(s, from, to).nan() && !peak_in(s, from, to).lt(Double::zero()),
        forall|k: int|
            from <= k < to && (#[trigger] s[k]).has_velocity ==> !peak_in(s, from, to).lt(s[k].speed),
        peak_in(s, from, to) == Double::zero() || exists|k: int|
            from <= k < to && (#[trigger] s[k]).has_velocity && s[k].speed == peak_in(s, from, to),
    decreases to - from,
{
    if to > from {
        law_peak_bounds(s, from, to - 1);
        if peak_in(s, from, to) != Double::zero() && peak_in(s, from, to) != peak_in(s, from, to - 1) {
            assert(s[to - 1].has_velocity);
        }
    }
}

/// What is found is a step from rest: all samples of a rest that is long enough are
/// slower than 0.12 m/s, it ends there or at its longest, no gap over 0.1 s is in the
/// step, nothing in the step is faster than the peak, and the peak is not below 1.2 m/s.
/// What does not rest is passed over.
pub proof fn law_steps_are_what_they_are(s: Seq<StepSample>, r: Reach, i: int)
    requires
        0 <= i,
        r.wf(s.len() as int),
    ensures
        candidate_from(s, r, i) matches Some((e, to, peak)) ==> {
            &&& i < e < s.len()
            &&& to == r.step@[e - 1]
            &&& exists|a: int| i <= a < e && #[trigger] rested(s, r, a, e)
            &&& forall|k: int| e <= k < to ==> !(Double { bits: STEP_MAX_GAP }).lt((#[trigger] s[k]).gap)
            &&& forall|k: int|
                e <= k < to && (#[trigger] s[k]).has_velocity ==> !peak.lt(s[k].speed)
            &&& exists|k: int|
                e <= k < to && (#[trigger] s[k]).has_velocity && s[k].speed == peak
            &&& !peak.lt(Double { bits: STEP_MIN_PEAK })
        },
        i < s.len() && !(s[i].has_velocity && s[i].speed.lt(Double { bits: REST_SPEED }))
            ==> candidate_from(s, r, i) == candidate_from(s, r, i + 1),
    decreases s.len() - i,
{
    if i < s.len() {
        if !rests(s[i]) {
            law_steps_are_what_they_are(s, r, i + 1);
            if let Some((e, to, peak)) = candidate_from(s, r, i + 1) {
                let a = choose|a: int| i + 1 <= a < e && #[trigger] rested(s, r, a, e);
                assert(i <= a < e && rested(s, r, a, e));
            }
        } else {
            let e = rest_end(s, i + 1, r.rest_limit@[i] as int);
            law_rests_end(s, i + 1, r.rest_limit@[i] as int);
            if is_candidate(s, r, i, e) {
                assert(rested(s, r, i, e)) by {
                    assert forall|k: int| i <= k < e implies (#[trigger] s[k]).has_velocity && s[k].speed.lt(
                        Double { bits: REST_SPEED },
                    ) by {}
                }
                law_peak_bounds(s, e, r.step@[e - 1] as int);
            } else {
                law_steps_are_what_they_are(s, r, e);
                if let Some((x, to, peak)) = candidate_from(s, r, e) {
                    let a = choose|a: int| e <= a < x && #[trigger] rested(s, r, a, x);
                    assert(i <= a < x && rested(s, r, a, x));
                }
            }
        }
    }
}

/// The robot rested from sample `a` up to sample `e`, for long enough, and either
/// moves at `e` or has rested as long as counts.
pub open spec fn rested(s: Seq<StepSample>, r: Reach, a: int, e: int) -> bool {
    &&& forall|k: int|
        a <= k < e ==> (#[trigger] s[k]).has_velocity && s[k].speed.lt(Double { bits: REST_SPEED })
    &&& e - 1 >= r.rest_least@[a]
    &&& e >= r.rest_limit@[a] || !(s[e].has_velocity && s[e].speed.lt(Double { bits: REST_SPEED }))
}

/// The marks of a rise are the first samples above 0.1 m/s, the lower threshold and
/// 2 m/s, up to the first one from the lower threshold on that is above the upper
/// threshold. Before that one no sample faster than 0.3 m/s accelerates harder than the
/// peak.
pub proof fn law_marks_are_the_first_above(
    s: Seq<StepSample>,
    from: int,
    to: int,
    lo: Double,
    hi: Double,
)
    requires
        0 <= from <= to <= s.len() <= usize::MAX,
    ensures
        ({
            let r = rise_over(s, from, to, lo, hi);
            let end = match r.t90 {
                Some(k) => k + 1,
                None => to,
            };
            &&& r.t01 matches Some(k) ==> from <= k < end && s[k as int].has_velocity && (Double { bits: STEP_LOW }).lt(s[k as int].speed) && forall|j: int|
                from <= j < k ==> !((#[trigger] s[j]).has_velocity && (Double { bits: STEP_LOW }).lt(s[j].speed))
            &&& r.t01 is None ==> forall|j: int|
                from <= j < end ==> !((#[trigger] s[j]).has_velocity && (Double { bits: STEP_LOW }).lt(s[j].speed))
            &&& r.t10 matches Some(k) ==> from <= k < end && s[k as int].has_velocity && lo.lt(s[k as int].speed) && forall|j: int|
                from <= j < k ==> !((#[trigger] s[j]).has_velocity && lo.lt(s[j].speed))
            &&& r.t10 is None ==> forall|j: int|
                from <= j < end ==> !((#[trigger] s[j]).has_velocity && lo.lt(s[j].speed))
            &&& r.t2 matches Some(k) ==> from <= k < end && s[k as int].has_velocity && (Double { bits: STEP_HIGH }).lt(s[k as int].speed) && forall|j: int|
                from <= j < k ==> !((#[trigger] s[j]).has_velocity && (Double { bits: STEP_HIGH }).lt(s[j].speed))
            &&& r.t2 is None ==> forall|j: int|
                from <= j < end ==> !((#[trigger] s[j]).has_velocity && (Double { bits: STEP_HIGH }).lt(s[j].speed))
            &&& r.t90 matches Some(k) ==> from <= k < to && s[k as int].has_velocity && hi.lt(
                s[k as int].speed,
            ) && (r.t10 matches Some(j) && j <= k)
            &&& r.t10 matches Some(j) ==> forall|k: int|
                j <= k < to && (#[trigger] s[k]).has_velocity && hi.lt(s[k].speed) ==> (
                r.t90 matches Some(l) && l <= k)
            &&& !r.peak_accel.nan() && !r.peak_accel.lt(Double::zero())
            &&& forall|k: int|
                from <= k < to && (r.t90 matches Some(l) ==> k < l) && (#[trigger] s[k]).has_velocity
                    && (Double { bits: TANGENT_MIN_SPEED }).lt(s[k].speed) ==> !r.peak_accel.lt(
                    s[k].tangential,
                )
            &&& r.peak_accel == Double::zero() || exists|k: int|
                from <= k < to && (r.t90 matches Some(l) ==> k < l) && (#[trigger] s[k]).has_velocity
                    && (Double { bits: TANGENT_MIN_SPEED }).lt(s[k].speed) && s[k].tangential
                    == r.peak_accel
        }),
    decreases to - from,
{
    if to > from {
        law_marks_are_the_first_above(s, from, to - 1, lo, hi);
        let p = rise_over(s, from, to - 1, lo, hi);
        let r = rise_over(s, from, to, lo, hi);
        assert(((to - 1) as usize) as int == to - 1);
        if r.peak_accel != Double::zero() {
            if r.peak_accel != p.peak_accel {
                assert(s[to - 1].has_velocity);
                assert(r.peak_accel == s[to - 1].tangential);
            } else {
                let k = choose|k: int|
                    from <= k < to - 1 && (p.t90 matches Some(l) ==> k < l) && (
                    #[trigger] s[k]).has_velocity && (Double { bits: TANGENT_MIN_SPEED }).lt(s[k].speed)
                        && s[k].tangential == p.peak_accel;
                assert(s[k].tangential == r.peak_accel);
            }
        }
    }
}

/// The numbers of samples are as they are said to be.
pub proof fn law_least_numbers()
    ensures
        MIN_TEAM_SAMPLES == 1000,
        MIN_BIN_SAMPLES == 200,
{
}

/// A rest that is long enough and that a step follows is found: the samples from `i` up
/// to `e` rest, `e` does not or is as late as a rest may last, no gap over 0.1 s is in
/// the step, and some sample of the step reaches 1.2 m/s. Where one of these fails,
/// looking goes on at `e`.
pub proof fn law_steps_after_rests_are_found(s: Seq<StepSample>, r: Reach, i: int, e: int)
    requires
        r.wf(s.len() as int),
        0 <= i < e <= s.len(),
        forall|k: int|
            i <= k < e ==> (#[trigger] s[k]).has_velocity && s[k].speed.lt(Double { bits: REST_SPEED }),
        e <= r.rest_limit@[i],
        e == s.len() || e == r.rest_limit@[i] || !(s[e].has_velocity && s[e].speed.lt(
            Double { bits: REST_SPEED },
        )),
    ensures
        ({
            let to = r.step@[e - 1] as int;
            let long = e - 1 >= r.rest_least@[i];
            let whole = forall|k: int|
                e <= k < to ==> !(Double { bits: STEP_MAX_GAP }).lt((#[trigger] s[k]).gap);
            let fast = exists|k: int|
                e <= k < to && (#[trigger] s[k]).has_velocity && (Double { bits: STEP_MIN_PEAK }).le(
                    s[k].speed,
                );
            &&& e < s.len() && long && whole && fast ==> (candidate_from(s, r, i) matches Some(c) && c.0
                == e && c.1 == to)
            &&& !(e < s.len() && long && whole && fast) ==> candidate_from(s, r, i) == candidate_from(
                s,
                r,
                e,
            )
        }),
{
    let to = r.step@[e - 1] as int;
    let limit = r.rest_limit@[i] as int;
    assert(rests(s[i]));
    lemma_rest_end_is(s, i + 1, limit, e);
    law_peak_bounds(s, e, to);
    let peak = peak_in(s, e, to);
    let fast = exists|k: int|
        e <= k < to && (#[trigger] s[k]).has_velocity && (Double { bits: STEP_MIN_PEAK }).le(s[k].speed);
    if !peak.lt(Double { bits: STEP_MIN_PEAK }) {
        assert(peak != Double::zero());
        let k = choose|k: int| e <= k < to && (#[trigger] s[k]).has_velocity && s[k].speed == peak;
        assert((Double { bits: STEP_MIN_PEAK }).le(s[k].speed));
    }
    if fast {
        let k = choose|k: int|
            e <= k < to && (#[trigger] s[k]).has_velocity && (Double { bits: STEP_MIN_PEAK }).le(
                s[k].speed,
            );
        assert(!peak.lt(s[k].speed));
    }
}

proof fn lemma_rest_end_is(s: Seq<StepSample>, from: int, limit: int, e: int)
    requires
        0 <= from <= e <= s.len(),
        e <= limit,
        forall|k: int| from <= k < e ==> rests(#[trigger] s[k]),
        e == s.len() || e == limit || !rests(s[e]),
    ensures
        rest_end(s, from, limit) == e,
    decreases e - from,
{
    if from < e {
        assert(rests(s[from]));
        lemma_rest_end_is(s, from + 1, limit, e);
    }
}

} // verus!
