//! Kicks: which events are one kick, where a kick's speed peaks and rises, and
//! which kicks are evidence of what.
use vstd::prelude::*;

use crate::double::{Double, lemma_powers};
use crate::logtool::dynamics::stats::{
    in_range, law_listed_where_it_holds, law_places_ascend, places, set_places,
};

verus! {

/// Kick events nearer than this are one kick: 0.25 s.
pub const KICK_SEPARATION: u64 = 0x3FD0_0000_0000_0000;

/// Own detector: the speed rises by more than this: 1 m/s.
pub const DETECT_JUMP: u64 = 0x3FF0_0000_0000_0000;

/// Own detector: within this time: 0.08 s.
pub const DETECT_TIME: u64 = 0x3FB4_7AE1_47AE_147B;

/// Own detector: a robot must be this near: 0.3 m.
pub const DETECT_NEAR: u64 = 0x3FD3_3333_3333_3333;

/// Own detector: least distance of the ball along the heading: 0.03 m.
pub const DETECT_X_MIN: u64 = 0x3F9E_B851_EB85_1EB8;

/// Own detector: largest distance of the ball along the heading: 0.24 m.
pub const DETECT_X_MAX: u64 = 0x3FCE_B851_EB85_1EB8;

/// Own detector: largest distance of the ball across the heading: 0.09 m.
pub const DETECT_Y: u64 = 0x3FB7_0A3D_70A3_D70A;

/// A kick is confirmed by an own event this near: 0.12 s.
pub const MATCH_TIME: u64 = 0x3FBE_B851_EB85_1EB8;

/// Distance from the kick from which on the direction is fitted: 0.1 m.
pub const DIR_MIN_DIST: u64 = 0x3FB9_9999_9999_999A;

/// Least number of samples for a direction.
pub const DIR_MIN_SAMPLES: usize = 4;

/// Cameras that are considered for a direction.
pub const DIR_CAMERAS: u32 = 8;

/// A kick that rises faster than this is a chip: 0.3 m/s.
pub const CHIP_VZ: u64 = 0x3FD3_3333_3333_3333;

/// A clean kick is faster than this: 1 m/s.
pub const CLEAN_SPEED: u64 = 0x3FF0_0000_0000_0000;

/// A clean kick's ball came in slower than this: 0.2 m/s.
pub const CLEAN_INCOMING: u64 = 0x3FC9_9999_9999_999A;

/// A clean kick's ball is at least this far along the heading: 0.04 m.
pub const CLEAN_X_MIN: u64 = 0x3FA4_7AE1_47AE_147B;

/// A clean kick's ball is at most this far along the heading: 0.16 m.
pub const CLEAN_X_MAX: u64 = 0x3FC4_7AE1_47AE_147B;

/// A clean kick's ball is nearer than this across the heading: 0.05 m.
pub const CLEAN_Y: u64 = 0x3FA9_9999_9999_999A;

// ---------------------------------------------------------------- tracker kicks

/// The last refinement of each kick: event `i` is one if the next event is not the
/// same kick. `gaps[i]` is how far event `i` is from the event before it.
pub open spec fn last_refinements(gaps: Seq<Double>) -> Seq<usize>
    decreases gaps.len(),
{
    if gaps.len() == 0 {
        seq![]
    } else {
        let before = last_refinements(gaps.drop_last());
        let i = (gaps.len() - 1) as usize;
        if before.len() > 0 && gaps.last().lt(Double { bits: KICK_SEPARATION }) {
            before.drop_last().push(i)
        } else {
            before.push(i)
        }
    }
}

/// Which kick events to keep: the last refinement of each kick.
pub fn tracker_kicks(gaps: &Vec<Double>) -> (res: Vec<usize>)
    ensures
        res@ == last_refinements(gaps@),
{
    let mut out: Vec<usize> = Vec::new();
    let mut i: usize = 0;
    while i < gaps.len()
        invariant
            i <= gaps@.len(),
            out@ == last_refinements(gaps@.take(i as int)),
        decreases gaps.len() - i,
    {
        assert(gaps@.take(i + 1).drop_last() =~= gaps@.take(i as int));
        if out.len() > 0 && gaps[i].is_less(Double::from_bits(KICK_SEPARATION)) {
            let n: usize = out.len() - 1;
            let ghost before = out@;
            out.truncate(n);
            assert(out@ =~= before.drop_last());
        }
        out.push(i);
        i += 1;
    }
    assert(gaps@.take(i as int) =~= gaps@);
    out
}

/// The last event is always kept, and an event is kept exactly if it is the last or
/// the event after it is another kick: the last refinement of each kick wins.
pub proof fn law_last_refinement_wins(gaps: Seq<Double>, i: int)
    requires
        0 <= i < gaps.len() <= usize::MAX,
    ensures
        last_refinements(gaps).len() > 0,
        last_refinements(gaps).last() == gaps.len() - 1,
        last_refinements(gaps).contains(i as usize) <==> (i == gaps.len() - 1 || !gaps[i + 1].lt(
            Double { bits: KICK_SEPARATION },
        )),
    decreases gaps.len(),
{
    let rest = gaps.drop_last();
    let all = last_refinements(gaps);
    let n = gaps.len() - 1;
    lemma_refinements_in_range(gaps);
    if n > 0 {
        lemma_refinements_in_range(rest);
        law_last_refinement_wins(
            rest,
            if i < n {
                i
            } else {
                0
            },
        );
        let before = last_refinements(rest);
        if i == n {
            assert(all[all.len() - 1] == n as usize);
        } else if i == n - 1 {
            law_last_refinement_wins(rest, i);
            assert(before[before.len() - 1] == i as usize);
            if gaps.last().lt(Double { bits: KICK_SEPARATION }) {
                if all.contains(i as usize) {
                    let k = choose|k: int| 0 <= k < all.len() && all[k] == i as usize;
                    if k < all.len() - 1 {
                        assert(before[k] == i as usize);
                        assert(before[k] < before[before.len() - 1]);
                    }
                }
            } else {
                assert(all[before.len() - 1] == i as usize);
            }
        } else {
            law_last_refinement_wins(rest, i);
            assert(rest[i + 1] == gaps[i + 1]);
            if all.contains(i as usize) {
                let k = choose|k: int| 0 <= k < all.len() && all[k] == i as usize;
                assert(before[k] == i as usize);
            }
            if before.contains(i as usize) {
                let k = choose|k: int| 0 <= k < before.len() && before[k] == i as usize;
                if k == before.len() - 1 {
                    assert(before[k] == n - 1);
                }
                assert(all[k] == i as usize);
            }
        }
    } else {
        assert(all[0] == 0usize);
    }
}

proof fn lemma_refinements_in_range(gaps: Seq<Double>)
    requires
        gaps.len() <= usize::MAX,
    ensures
        forall|k: int|
            0 <= k < last_refinements(gaps).len() ==> (#[trigger] last_refinements(gaps)[k])
                < gaps.len(),
        forall|k: int, l: int|
            0 <= k < l < last_refinements(gaps).len() ==> last_refinements(gaps)[k]
                < last_refinements(gaps)[l],
    decreases gaps.len(),
{
    if gaps.len() > 0 {
        let rest = gaps.drop_last();
        lemma_refinements_in_range(rest);
        let before = last_refinements(rest);
        let all = last_refinements(gaps);
        assert forall|k: int| 0 <= k < all.len() implies (#[trigger] all[k]) < gaps.len() by {
            if k < all.len() - 1 {
                assert(all[k] == before[k]);
            }
        }
        assert forall|k: int, l: int| 0 <= k < l < all.len() implies all[k] < all[l] by {
            assert(all[k] == before[k]);
            if l < all.len() - 1 {
                assert(all[l] == before[l]);
            } else {
                assert(before[k] < rest.len());
            }
        }
    }
}

// ---------------------------------------------------------------- own detector

/// The third sample after `i`, of the eleven that follow, that is of the same
/// camera and has a velocity.
pub open spec fn is_third(cams: Seq<u32>, moving: Seq<bool>, i: int, j: int) -> bool {
    &&& i < j < i + 12
    &&& j < cams.len()
    &&& cams[j] == cams[i] && moving[j]
    &&& moving_between(cams, moving, i, j) == 2
}

/// How many samples after `i` and before `j` are of the same camera and have a
/// velocity.
pub open spec fn moving_between(cams: Seq<u32>, moving: Seq<bool>, i: int, j: int) -> nat
    decreases j - i,
{
    if j <= i + 1 {
        0
    } else {
        moving_between(cams, moving, i, j - 1) + if cams[j - 1] == cams[i] && moving[j - 1] {
            1nat
        } else {
            0nat
        }
    }
}

/// The third sample after `i` that is of the same camera and has a velocity, within
/// the next eleven samples.
pub fn third_same_camera(cams: &Vec<u32>, moving: &Vec<bool>, i: usize) -> (res: Option<usize>)
    requires
        i < cams@.len(),
        cams@.len() == moving@.len(),
    ensures
        match res {
            Some(j) => is_third(cams@, moving@, i as int, j as int),
            None => forall|j: int| !is_third(cams@, moving@, i as int, j),
        },
{
    let total: usize = cams.len();
    let mut count: usize = 0;
    let mut left: usize = 11;
    let mut j: usize = i;
    while left > 0 && j + 1 < total
        invariant
            i <= j < total,
            total == cams@.len() == moving@.len(),
            left + (j - i) == 11,
            count <= 2,
            count == moving_between(cams@, moving@, i as int, j + 1),
            forall|k: int| i < k <= j ==> !is_third(cams@, moving@, i as int, k),
        decreases total - j,
    {
        j = j + 1;
        left = left - 1;
        if cams[j] == cams[i] && moving[j] {
            if count == 2 {
                return Some(j);
            }
            count += 1;
        }
    }
    None
}

/// What the own detector looks at where a ball is near a robot.
#[derive(Clone, Copy, Debug, PartialEq, Eq, Structural)]
pub struct Onset {
    /// Time from the sample to the third one after it.
    pub span: Double,
    /// Rise of speed over that time.
    pub jump: Double,
    /// Distance of the ball along the robot's heading.
    pub lx: Double,
    /// Distance of the ball across the robot's heading.
    pub ly: Double,
}

/// Whether a sample's ball is near enough to a robot for a kick.
pub fn may_be_kicked(has_velocity: bool, near: Double) -> (res: bool)
    ensures
        res == (has_velocity && !(Double { bits: DETECT_NEAR }).lt(near)),
{
    has_velocity && !Double::from_bits(DETECT_NEAR).is_less(near)
}

/// The ball gets fast quickly in front of a robot.
pub open spec fn is_onset(o: Onset) -> bool {
    &&& !(Double { bits: DETECT_TIME }).lt(o.span)
    &&& (Double { bits: DETECT_JUMP }).lt(o.jump)
    &&& !o.lx.lt(Double { bits: DETECT_X_MIN })
    &&& !(Double { bits: DETECT_X_MAX }).lt(o.lx)
    &&& !(Double { bits: DETECT_Y }).lt(o.ly)
}

/// Whether a kick starts here: an onset, and not too soon after the last kick.
pub fn kick_starts(o: Onset, since_last: Option<Double>) -> (res: bool)
    ensures
        res == (is_onset(o) && !(since_last matches Some(d) && d.lt(
            Double { bits: KICK_SEPARATION },
        ))),
{
    if Double::from_bits(DETECT_TIME).is_less(o.span) || !Double::from_bits(DETECT_JUMP).is_less(
        o.jump,
    ) {
        return false;
    }
    if o.lx.is_less(Double::from_bits(DETECT_X_MIN)) || Double::from_bits(DETECT_X_MAX).is_less(
        o.lx,
    ) || Double::from_bits(DETECT_Y).is_less(o.ly) {
        return false;
    }
    match since_last {
        Some(d) => !d.is_less(Double::from_bits(KICK_SEPARATION)),
        None => true,
    }
}

/// Whether any event is near enough to a kick; `apart` holds their distances in
/// time.
pub fn is_matched(apart: &Vec<Double>) -> (res: bool)
    ensures
        res == exists|i: int|
            0 <= i < apart@.len() && (#[trigger] apart@[i]).lt(Double { bits: MATCH_TIME }),
{
    crate::logtool::select::any_within(apart, Double::from_bits(MATCH_TIME))
}

// ---------------------------------------------------------------- one kick

/// A sample of a kick's speed profile.
#[derive(Clone, Copy, Debug, PartialEq, Eq, Structural)]
pub struct ProfileSample {
    /// Whether it is too early to be the peak.
    pub early: bool,
    /// The smoothed speed.
    pub v: Double,
}

/// The sample with the highest smoothed speed that is not early; speeds that are
/// not above zero do not count, and of equally high ones the first counts.
pub open spec fn peak_of(s: Seq<ProfileSample>) -> Option<int>
    decreases s.len(),
{
    if s.len() == 0 {
        None
    } else {
        let before = peak_of(s.drop_last());
        let best = match before {
            Some(i) => s[i].v,
            None => Double::zero(),
        };
        if !s.last().early && best.lt(s.last().v) {
            Some(s.len() - 1)
        } else {
            before
        }
    }
}

/// The sample with the highest smoothed speed.
pub fn find_peak(s: &Vec<ProfileSample>) -> (res: Option<usize>)
    ensures
        match res {
            Some(i) => i < s@.len() && peak_of(s@) == Some(i as int),
            None => peak_of(s@) is None,
        },
{
    let mut best: Option<usize> = None;
    let mut i: usize = 0;
    while i < s.len()
        invariant
            i <= s@.len(),
            match best {
                Some(b) => b < i && peak_of(s@.take(i as int)) == Some(b as int),
                None => peak_of(s@.take(i as int)) is None,
            },
        decreases s.len() - i,
    {
        assert(s@.take(i + 1).drop_last() =~= s@.take(i as int));
        let limit = match best {
            Some(b) => s[b].v,
            None => Double::zero(),
        };
        if !s[i].early && limit.is_less(s[i].v) {
            best = Some(i);
        }
        i += 1;
    }
    assert(s@.take(i as int) =~= s@);
    best
}

/// Nothing that is not early is faster than the peak.
pub proof fn law_peak_is_the_highest(s: Seq<ProfileSample>, j: int)
    requires
        0 <= j < s.len(),
        !s[j].early,
    ensures
        match peak_of(s) {
            Some(i) => 0 <= i < s.len() && !s[i].early && !s[i].v.lt(s[j].v),
            None => !Double::zero().lt(s[j].v),
        },
    decreases s.len(),
{
    let rest = s.drop_last();
    if j < rest.len() {
        assert(rest[j] == s[j]);
        law_peak_is_the_highest(rest, j);
    } else if rest.len() > 0 {
        lemma_peak_in_range(rest);
    }
}

proof fn lemma_peak_in_range(s: Seq<ProfileSample>)
    ensures
        peak_of(s) matches Some(i) ==> 0 <= i < s.len() && !s[i].early && !s[i].v.nan(),
    decreases s.len(),
{
    if s.len() > 0 {
        lemma_peak_in_range(s.drop_last());
    }
}

/// `o` is the last sample below `lo`.
pub open spec fn is_last_below(v: Seq<Double>, lo: Double, o: int) -> bool {
    &&& 0 <= o < v.len()
    &&& v[o].lt(lo)
    &&& forall|k: int| o < k < v.len() ==> !(#[trigger] v[k]).lt(lo)
}

/// `h` is the first sample at or above `hi`.
pub open spec fn is_first_at(v: Seq<Double>, hi: Double, h: int) -> bool {
    &&& 0 <= h < v.len()
    &&& hi.le(v[h])
    &&& forall|k: int| 0 <= k < h ==> !hi.le(#[trigger] v[k])
}

/// Where a kick's speed starts to rise and where it has risen: the last sample
/// below `lo` and the first at or above `hi`, if that comes later.
pub fn rise(v: &Vec<Double>, lo: Double, hi: Double) -> (res: Option<(usize, usize)>)
    ensures
        match res {
            Some((o, h)) => o < h && is_last_below(v@, lo, o as int) && is_first_at(
                v@,
                hi,
                h as int,
            ),
            None => forall|o: int, h: int| #![trigger is_last_below(v@, lo, o), is_first_at(v@, hi, h)]
                is_last_below(v@, lo, o) && is_first_at(v@, hi, h) ==> h <= o,
        },
{
    let total: usize = v.len();
    let mut onset: Option<usize> = None;
    let mut risen: Option<usize> = None;
    let mut i: usize = 0;
    while i < total
        invariant
            i <= total,
            total == v@.len(),
            match onset {
                Some(o) => o < i && v@[o as int].lt(lo) && forall|k: int|
                    o < k < i ==> !(#[trigger] v@[k]).lt(lo),
                None => forall|k: int| 0 <= k < i ==> !(#[trigger] v@[k]).lt(lo),
            },
            match risen {
                Some(h) => h < i && is_first_at(v@, hi, h as int),
                None => forall|k: int| 0 <= k < i ==> !hi.le(#[trigger] v@[k]),
            },
        decreases total - i,
    {
        if v[i].is_less(lo) {
            onset = Some(i);
        }
        if risen.is_none() && hi.is_at_most(v[i]) {
            risen = Some(i);
        }
        i += 1;
    }
    proof {
        assert forall|o: int, h: int|
            #![trigger is_last_below(v@, lo, o), is_first_at(v@, hi, h)]
            is_last_below(v@, lo, o) && is_first_at(v@, hi, h) implies (onset matches Some(x) && x
            == o) && (risen matches Some(y) && y == h) by {
            assert(v@[o].lt(lo));
            assert(hi.le(v@[h]));
            if onset is Some {
                let x = onset->0 as int;
                if x < o {
                    assert(!v@[o].lt(lo));
                }
                if o < x {
                    assert(!v@[x].lt(lo));
                }
            }
            if risen is Some {
                let y = risen->0 as int;
                if y < h {
                    assert(!hi.le(v@[y]));
                }
                if h < y {
                    assert(!hi.le(v@[h]));
                }
            }
        }
    }
    match (onset, risen) {
        (Some(o), Some(h)) => if h > o {
            Some((o, h))
        } else {
            None
        },
        _ => None,
    }
}

/// A ball sample after a kick.
#[derive(Clone, Copy, Debug, PartialEq, Eq, Structural)]
pub struct Departure {
    /// Its camera.
    pub cam: u32,
    /// Its distance from the kick.
    pub dist: Double,
}

/// How many samples of a camera are far enough from the kick.
pub open spec fn far_samples(s: Seq<Departure>, cam: u32) -> nat
    decreases s.len(),
{
    if s.len() == 0 {
        0
    } else {
        far_samples(s.drop_last(), cam) + if s.last().cam == cam && (Double {
            bits: DIR_MIN_DIST,
        }).lt(s.last().dist) {
            1nat
        } else {
            0nat
        }
    }
}

fn count_far(s: &Vec<Departure>, cam: u32) -> (res: usize)
    ensures
        res == far_samples(s@, cam),
{
    let mut n: usize = 0;
    let mut i: usize = 0;
    while i < s.len()
        invariant
            i <= s@.len(),
            n <= i,
            n == far_samples(s@.take(i as int), cam),
        decreases s.len() - i,
    {
        assert(s@.take(i + 1).drop_last() =~= s@.take(i as int));
        if s[i].cam == cam && Double::from_bits(DIR_MIN_DIST).is_less(s[i].dist) {
            n += 1;
        }
        i += 1;
    }
    assert(s@.take(i as int) =~= s@);
    n
}

/// A camera with the most far samples, and enough of them; the first of several.
pub open spec fn is_best_camera(s: Seq<Departure>, cam: u32) -> bool {
    &&& cam < DIR_CAMERAS
    &&& far_samples(s, cam) >= DIR_MIN_SAMPLES
    &&& forall|c: u32| c < DIR_CAMERAS ==> far_samples(s, c) <= far_samples(s, cam)
    &&& forall|c: u32| c < cam ==> far_samples(s, c) < far_samples(s, cam)
}

/// The camera to fit a kick's direction from.
pub fn best_camera(s: &Vec<Departure>) -> (res: Option<u32>)
    ensures
        match res {
            Some(cam) => is_best_camera(s@, cam),
            None => forall|c: u32| c < DIR_CAMERAS ==> far_samples(s@, c) < DIR_MIN_SAMPLES,
        },
{
    let mut best: Option<u32> = None;
    let mut most: usize = 0;
    let mut c: u32 = 0;
    while c < DIR_CAMERAS
        invariant
            c <= DIR_CAMERAS,
            match best {
                Some(b) => b < c && most == far_samples(s@, b) && most >= DIR_MIN_SAMPLES && (
                forall|x: u32| x < c ==> far_samples(s@, x) <= most) && (forall|x: u32|
                    x < b ==> far_samples(s@, x) < most),
                None => forall|x: u32| x < c ==> far_samples(s@, x) < DIR_MIN_SAMPLES,
            },
        decreases DIR_CAMERAS - c,
    {
        let n: usize = count_far(s, c);
        let better = match best {
            Some(_) => n > most,
            None => true,
        };
        if n >= DIR_MIN_SAMPLES && better {
            best = Some(c);
            most = n;
        }
        c += 1;
    }
    best
}

/// The samples that the direction is fitted to: those of the camera that are far
/// enough from the kick.
pub fn direction_samples(s: &Vec<Departure>, cam: u32) -> (res: Vec<usize>)
    ensures
        res@ == set_places(
            Seq::new(
                s@.len(),
                |i: int| s@[i].cam == cam && (Double { bits: DIR_MIN_DIST }).lt(s@[i].dist),
            ),
        ),
{
    let mut flags: Vec<bool> = Vec::new();
    let mut i: usize = 0;
    while i < s.len()
        invariant
            i <= s@.len(),
            flags@.len() == i,
            forall|j: int|
                0 <= j < i ==> #[trigger] flags@[j] == (s@[j].cam == cam && (Double {
                    bits: DIR_MIN_DIST,
                }).lt(s@[j].dist)),
        decreases s.len() - i,
    {
        flags.push(s[i].cam == cam && Double::from_bits(DIR_MIN_DIST).is_less(s[i].dist));
        i += 1;
    }
    assert(flags@ =~= Seq::new(
        s@.len(),
        |i: int| s@[i].cam == cam && (Double { bits: DIR_MIN_DIST }).lt(s@[i].dist),
    ));
    places(&flags)
}

/// What a kick is judged by.
#[derive(Clone, Copy, Debug, PartialEq, Eq, Structural)]
pub struct KickFact {
    /// Vertical speed.
    pub vz: Double,
    /// Horizontal speed.
    pub v_tracker: Double,
    /// Highest raw speed after the kick.
    pub v_peak_raw: Double,
    /// Speed of the ball before the kick.
    pub v_in_speed: Option<Double>,
    /// Its component toward the robot.
    pub v_in_normal: Option<Double>,
    /// Where the ball was in the robot's frame.
    pub ball_local: Option<Local>,
}

/// A position in a robot's frame.
#[derive(Clone, Copy, Debug, PartialEq, Eq, Structural)]
pub struct Local {
    /// Along the heading.
    pub x: Double,
    /// Across the heading, without sign.
    pub y: Double,
}

impl KickFact {
    /// The ball rises.
    pub open spec fn chip(self) -> bool {
        (Double { bits: CHIP_VZ }).lt(self.vz)
    }

    /// A straight kick of a still ball in front of the kicker.
    pub open spec fn clean(self) -> bool {
        &&& self.vz.lt(Double { bits: CHIP_VZ })
        &&& (Double { bits: CLEAN_SPEED }).lt(self.v_tracker)
        &&& self.v_in_speed matches Some(v) && v.lt(Double { bits: CLEAN_INCOMING })
        &&& self.ball_local matches Some(p) && (Double { bits: CLEAN_X_MIN }).le(p.x) && p.x.le(
            Double { bits: CLEAN_X_MAX },
        ) && p.y.lt(Double { bits: CLEAN_Y })
    }

    /// Whether this is a chip.
    pub fn is_chip(self) -> (res: bool)
        ensures
            res == self.chip(),
    {
        Double::from_bits(CHIP_VZ).is_less(self.vz)
    }

    /// Whether this is a straight kick of a still ball in front of the kicker.
    pub fn is_clean(self) -> (res: bool)
        ensures
            res == self.clean(),
    {
        let still = match self.v_in_speed {
            Some(v) => v.is_less(Double::from_bits(CLEAN_INCOMING)),
            None => false,
        };
        let seated = match self.ball_local {
            Some(p) => Double::from_bits(CLEAN_X_MIN).is_at_most(p.x) && p.x.is_at_most(
                Double::from_bits(CLEAN_X_MAX),
            ) && p.y.is_less(Double::from_bits(CLEAN_Y)),
            None => false,
        };
        self.vz.is_less(Double::from_bits(CHIP_VZ)) && Double::from_bits(CLEAN_SPEED).is_less(
            self.v_tracker,
        ) && still && seated
    }
}

/// Clean kicks are straight.
pub proof fn law_clean_kicks_are_straight(k: KickFact)
    requires
        k.clean(),
    ensures
        !k.chip(),
{
}

// ---------------------------------------------------------------- many kicks

/// What kicks are selected for.
#[derive(Clone, Copy, Debug, PartialEq, Eq, Structural)]
pub enum Selection {
    /// Straight kicks.
    Straight,
    /// Chips.
    Chip,
    /// Straight kicks whose raw speed is above 0.3 m/s.
    RawPeak,
    /// Straight kicks whose raw and tracked speeds are above 0.5 m/s.
    RawOverTracker,
    /// Straight kicks faster than 2.5 m/s.
    Fast,
    /// Straight kicks of a ball faster than 0.5 m/s.
    MovingBall,
    /// Straight kicks of a ball slower than 0.15 m/s.
    StillBall,
    /// Clean kicks.
    Clean,
    /// Straight kicks whose raw speed is above 1 m/s and whose ball came in with a
    /// known speed.
    Outgoing,
}

/// Whether a kick is selected.
pub open spec fn selected(k: KickFact, s: Selection) -> bool {
    match s {
        Selection::Straight => !k.chip(),
        Selection::Chip => k.chip(),
        Selection::RawPeak => !k.chip() && (Double { bits: 0x3FD3_3333_3333_3333 }).lt(k.v_peak_raw),
        Selection::RawOverTracker => !k.chip() && (Double { bits: 0x3FE0_0000_0000_0000 }).lt(k.v_peak_raw) && (
        Double { bits: 0x3FE0_0000_0000_0000 }).lt(k.v_tracker),
        Selection::Fast => !k.chip() && (Double { bits: 0x4004_0000_0000_0000 }).lt(k.v_tracker),
        Selection::MovingBall => !k.chip() && (k.v_in_speed matches Some(v) && (Double {
            bits: 0x3FE0_0000_0000_0000,
        }).lt(v)),
        Selection::StillBall => !k.chip() && (k.v_in_speed matches Some(v) && v.lt(
            Double { bits: 0x3FC3_3333_3333_3333 },
        )),
        Selection::Clean => !k.chip() && k.clean(),
        Selection::Outgoing => !k.chip() && (Double { bits: 0x3FF0_0000_0000_0000 }).lt(k.v_peak_raw)
            && k.v_in_normal is Some,
    }
}

fn is_selected(k: KickFact, s: Selection) -> (res: bool)
    ensures
        res == selected(k, s),
{
    let straight = !k.is_chip();
    match s {
        Selection::Straight => straight,
        Selection::Chip => !straight,
        Selection::RawPeak => straight && Double::from_bits(0x3FD3_3333_3333_3333).is_less(k.v_peak_raw),
        Selection::RawOverTracker => straight && Double::from_bits(0x3FE0_0000_0000_0000).is_less(k.v_peak_raw)
            && Double::from_bits(0x3FE0_0000_0000_0000).is_less(k.v_tracker),
        Selection::Fast => straight && Double::from_bits(0x4004_0000_0000_0000).is_less(k.v_tracker),
        Selection::MovingBall => straight && match k.v_in_speed {
            Some(v) => Double::from_bits(0x3FE0_0000_0000_0000).is_less(v),
            None => false,
        },
        Selection::StillBall => straight && match k.v_in_speed {
            Some(v) => v.is_less(Double::from_bits(0x3FC3_3333_3333_3333)),
            None => false,
        },
        Selection::Clean => straight && k.is_clean(),
        Selection::Outgoing => straight && Double::from_bits(0x3FF0_0000_0000_0000).is_less(k.v_peak_raw)
            && k.v_in_normal.is_some(),
    }
}

/// The kicks that are selected.
pub fn select_kicks(kicks: &Vec<KickFact>, s: Selection) -> (res: Vec<usize>)
    ensures
        res@ == set_places(Seq::new(kicks@.len(), |i: int| selected(kicks@[i], s))),
        forall|a: int, b: int| 0 <= a < b < res@.len() ==> res@[a] < res@[b],
        forall|i: int| 0 <= i < kicks@.len() ==> {
            let k = #[trigger] kicks@[i];
            let taken = res@.contains(i as usize);
            let chip = (Double { bits: CHIP_VZ }).lt(k.vz);
            &&& s is Straight ==> (taken <==> !chip)
            &&& s is Chip ==> (taken <==> chip)
            &&& s is RawPeak ==> (taken <==> !chip && (Double { bits: 0x3FD3_3333_3333_3333 }).lt(k.v_peak_raw))
            &&& s is RawOverTracker ==> (taken <==> !chip && (Double { bits: 0x3FE0_0000_0000_0000 }).lt(k.v_peak_raw)
                && (Double { bits: 0x3FE0_0000_0000_0000 }).lt(k.v_tracker))
            &&& s is Fast ==> (taken <==> !chip && (Double { bits: 0x4004_0000_0000_0000 }).lt(k.v_tracker))
            &&& s is MovingBall ==> (taken <==> !chip && k.v_in_speed is Some && (Double {
                bits: 0x3FE0_0000_0000_0000,
            }).lt(k.v_in_speed->0))
            &&& s is StillBall ==> (taken <==> !chip && k.v_in_speed is Some && (k.v_in_speed->0).lt(
                Double { bits: 0x3FC3_3333_3333_3333 },
            ))
            &&& s is Clean ==> (taken <==> !chip && k.vz.lt(Double { bits: CHIP_VZ }) && (Double {
                bits: CLEAN_SPEED,
            }).lt(k.v_tracker) && k.v_in_speed is Some && (k.v_in_speed->0).lt(
                Double { bits: CLEAN_INCOMING },
            ) && k.ball_local is Some && (Double { bits: CLEAN_X_MIN }).le(
                (k.ball_local->0).x,
            ) && (k.ball_local->0).x.le(Double { bits: CLEAN_X_MAX }) && (k.ball_local->0).y.lt(
                Double { bits: CLEAN_Y },
            ))
            &&& s is Outgoing ==> (taken <==> !chip && (Double { bits: 0x3FF0_0000_0000_0000 }).lt(k.v_peak_raw)
                && k.v_in_normal is Some)
        },
{
    let mut flags: Vec<bool> = Vec::new();
    let mut i: usize = 0;
    while i < kicks.len()
        invariant
            i <= kicks@.len(),
            flags@.len() == i,
            forall|j: int| 0 <= j < i ==> #[trigger] flags@[j] == selected(kicks@[j], s),
        decreases kicks.len() - i,
    {
        flags.push(is_selected(kicks[i], s));
        i += 1;
    }
    assert(flags@ =~= Seq::new(kicks@.len(), |i: int| selected(kicks@[i], s)));
    proof {
        law_listed_where_it_holds(flags@);
        law_places_ascend(flags@);
        assert forall|i: int| 0 <= i < kicks@.len() implies (set_places(flags@).contains(i as usize)
            <==> selected(#[trigger] kicks@[i], s)) by {
            assert(flags@[i] == selected(kicks@[i], s));
        }
    }
    places(&flags)
}

/// A straight kick whose ball came in at a speed within `[lo, hi)` and left faster
/// than 0.5 m/s.
pub open spec fn came_in(k: KickFact, lo: Double, hi: Double) -> bool {
    !k.chip() && (k.v_in_normal matches Some(v) && in_range(v, lo, hi)) && (Double {
        bits: 0x3FE0_0000_0000_0000,
    }).lt(k.v_peak_raw)
}

/// The straight kicks whose ball came in at a speed within `[lo, hi)`; none if
/// there are fewer than three.
pub fn select_incoming(kicks: &Vec<KickFact>, lo: Double, hi: Double) -> (res: Option<Vec<usize>>)
    ensures
        ({
            let all = set_places(Seq::new(kicks@.len(), |i: int| came_in(kicks@[i], lo, hi)));
            match res {
                Some(p) => p@ == all && all.len() >= 3,
                None => all.len() < 3,
            }
        }),
{
    let mut flags: Vec<bool> = Vec::new();
    let mut i: usize = 0;
    while i < kicks.len()
        invariant
            i <= kicks@.len(),
            flags@.len() == i,
            forall|j: int| 0 <= j < i ==> #[trigger] flags@[j] == came_in(kicks@[j], lo, hi),
        decreases kicks.len() - i,
    {
        let k = kicks[i];
        let within = match k.v_in_normal {
            Some(v) => lo.is_at_most(v) && v.is_less(hi),
            None => false,
        };
        flags.push(!k.is_chip() && within && Double::from_bits(0x3FE0_0000_0000_0000).is_less(k.v_peak_raw));
        i += 1;
    }
    assert(flags@ =~= Seq::new(kicks@.len(), |i: int| came_in(kicks@[i], lo, hi)));
    let p = places(&flags);
    if p.len() >= 3 {
        Some(p)
    } else {
        None
    }
}

/// Every kick is either straight or a chip.
pub proof fn law_kicks_are_straight_or_chips(k: KickFact)
    ensures
        selected(k, Selection::Straight) != selected(k, Selection::Chip),
{
}

/// The limits are the decimal numbers that they are said to be.
pub proof fn law_limits_in_decimals()
    ensures
        (Double { bits: KICK_SEPARATION }).reads(25, 100),
        !(Double { bits: KICK_SEPARATION }).negative(),
        (Double { bits: DETECT_JUMP }).reads(1, 1),
        !(Double { bits: DETECT_JUMP }).negative(),
        (Double { bits: DETECT_TIME }).reads(8, 100),
        !(Double { bits: DETECT_TIME }).negative(),
        (Double { bits: DETECT_NEAR }).reads(3, 10),
        !(Double { bits: DETECT_NEAR }).negative(),
        (Double { bits: DETECT_X_MIN }).reads(3, 100),
        !(Double { bits: DETECT_X_MIN }).negative(),
        (Double { bits: DETECT_X_MAX }).reads(24, 100),
        !(Double { bits: DETECT_X_MAX }).negative(),
        (Double { bits: DETECT_Y }).reads(9, 100),
        !(Double { bits: DETECT_Y }).negative(),
        (Double { bits: MATCH_TIME }).reads(12, 100),
        !(Double { bits: MATCH_TIME }).negative(),
        (Double { bits: DIR_MIN_DIST }).reads(1, 10),
        !(Double { bits: DIR_MIN_DIST }).negative(),
        (Double { bits: CHIP_VZ }).reads(3, 10),
        !(Double { bits: CHIP_VZ }).negative(),
        (Double { bits: CLEAN_SPEED }).reads(1, 1),
        !(Double { bits: CLEAN_SPEED }).negative(),
        (Double { bits: CLEAN_INCOMING }).reads(2, 10),
        !(Double { bits: CLEAN_INCOMING }).negative(),
        (Double { bits: CLEAN_X_MIN }).reads(4, 100),
        !(Double { bits: CLEAN_X_MIN }).negative(),
        (Double { bits: CLEAN_X_MAX }).reads(16, 100),
        !(Double { bits: CLEAN_X_MAX }).negative(),
        (Double { bits: CLEAN_Y }).reads(5, 100),
        !(Double { bits: CLEAN_Y }).negative(),
{
    lemma_powers();
}

/// What each selection takes: all but chips are straight kicks; raw peaks are above
/// 0.3 m/s, raw and tracked speeds above 0.5 m/s, fast kicks above 2.5 m/s; a moving
/// ball came in with a known speed above 0.5 m/s, a still one with a known speed below
/// 0.15 m/s; an outgoing ball left faster than 1 m/s after coming in with a known
/// speed; a clean kick is fast, of a slow ball in front of the kicker.
pub proof fn law_selections_take(k: KickFact, s: Selection)
    ensures
        ({
            let taken = selected(k, s);
            let chip = (Double { bits: CHIP_VZ }).lt(k.vz);
            &&& s is Straight ==> (taken <==> !chip)
            &&& s is Chip ==> (taken <==> chip)
            &&& s is RawPeak ==> (taken <==> !chip && (Double { bits: 0x3FD3_3333_3333_3333 }).lt(k.v_peak_raw))
            &&& s is RawOverTracker ==> (taken <==> !chip && (Double { bits: 0x3FE0_0000_0000_0000 }).lt(k.v_peak_raw)
                && (Double { bits: 0x3FE0_0000_0000_0000 }).lt(k.v_tracker))
            &&& s is Fast ==> (taken <==> !chip && (Double { bits: 0x4004_0000_0000_0000 }).lt(k.v_tracker))
            &&& s is MovingBall ==> (taken <==> !chip && k.v_in_speed is Some && (Double {
                bits: 0x3FE0_0000_0000_0000,
            }).lt(k.v_in_speed->0))
            &&& s is StillBall ==> (taken <==> !chip && k.v_in_speed is Some && (k.v_in_speed->0).lt(
                Double { bits: 0x3FC3_3333_3333_3333 },
            ))
            &&& s is Clean ==> (taken <==> !chip && k.vz.lt(Double { bits: CHIP_VZ }) && (Double {
                bits: CLEAN_SPEED,
            }).lt(k.v_tracker) && k.v_in_speed is Some && (k.v_in_speed->0).lt(
                Double { bits: CLEAN_INCOMING },
            ) && k.ball_local is Some && (Double { bits: CLEAN_X_MIN }).le(
                (k.ball_local->0).x,
            ) && (k.ball_local->0).x.le(Double { bits: CLEAN_X_MAX }) && (k.ball_local->0).y.lt(
                Double { bits: CLEAN_Y },
            ))
            &&& s is Outgoing ==> (taken <==> !chip && (Double { bits: 0x3FF0_0000_0000_0000 }).lt(k.v_peak_raw)
                && k.v_in_normal is Some)
        }),
{
}

/// No kick is of a moving ball and of a still one, a clean kick is not of a moving
/// ball, and who takes only faster balls takes fewer kicks.
pub proof fn law_selections_agree(k: KickFact)
    ensures
        !(selected(k, Selection::MovingBall) && selected(k, Selection::StillBall)),
        !(selected(k, Selection::MovingBall) && selected(k, Selection::Clean)),
        selected(k, Selection::RawOverTracker) ==> selected(k, Selection::RawPeak),
        selected(k, Selection::Outgoing) ==> selected(k, Selection::RawPeak),
        selected(k, Selection::MovingBall) || selected(k, Selection::StillBall)
            || selected(k, Selection::Clean) ==> k.v_in_speed is Some && selected(
            k,
            Selection::Straight,
        ),
{
}

/// A faster incoming ball is still a moving one and a slower one still at rest,
/// whatever else the kick is.
pub proof fn law_incoming_speed_decides(a: KickFact, b: KickFact)
    requires
        a.vz == b.vz,
        a.v_in_speed is Some,
        b.v_in_speed is Some,
        (a.v_in_speed->0).lt(b.v_in_speed->0),
    ensures
        selected(a, Selection::MovingBall) ==> selected(b, Selection::MovingBall),
        selected(b, Selection::StillBall) ==> selected(a, Selection::StillBall),
{
}

/// A kick counts for a range of incoming speeds if it is straight, its ball came in
/// with a known speed from `lo` on and below `hi`, and left faster than 0.5 m/s.
pub proof fn law_incoming_kicks(k: KickFact, lo: Double, hi: Double)
    ensures
        came_in(k, lo, hi) <==> !(Double { bits: CHIP_VZ }).lt(k.vz) && k.v_in_normal is Some && lo.le(
            k.v_in_normal->0,
        ) && (k.v_in_normal->0).lt(hi) && (Double { bits: 0x3FE0_0000_0000_0000 }).lt(k.v_peak_raw),
{
}

/// An onset is a rise of more than 1 m/s within 0.08 s of a ball that is in front of
/// the robot, 0.03 m to 0.24 m along its heading and up to 0.09 m across.
pub proof fn law_onsets_are_rises_in_front(o: Onset)
    ensures
        is_onset(o) <==> !(Double { bits: DETECT_TIME }).lt(o.span) && (Double {
            bits: DETECT_JUMP,
        }).lt(o.jump) && !o.lx.lt(Double { bits: DETECT_X_MIN }) && !(Double {
            bits: DETECT_X_MAX,
        }).lt(o.lx) && !(Double { bits: DETECT_Y }).lt(o.ly),
{
}

/// The peak is above zero and above everything before it that is not early.
pub proof fn law_peak_is_the_first_of_its_height(s: Seq<ProfileSample>)
    ensures
        peak_of(s) matches Some(i) ==> 0 <= i < s.len() && !s[i].early && Double::zero().lt(s[i].v)
            && forall|j: int|
            0 <= j < i && !(#[trigger] s[j]).early && !s[j].v.nan() ==> s[j].v.lt(s[i].v),
    decreases s.len(),
{
    if s.len() > 0 {
        let rest = s.drop_last();
        law_peak_is_the_first_of_its_height(rest);
        assert forall|j: int| peak_of(s) == Some(rest.len() as int) && 0 <= j < rest.len()
            && !(#[trigger] s[j]).early && !s[j].v.nan() implies s[j].v.lt(s.last().v) by {
            assert(rest[j] == s[j]);
            law_peak_is_the_highest(rest, j);
        }
        if let Some(i) = peak_of(rest) {
            assert forall|j: int| 0 <= j < i && !(#[trigger] s[j]).early && !s[j].v.nan() implies s[j].v.lt(
                s[i].v,
            ) by {
                assert(rest[j] == s[j]);
            }
        }
    }
}

/// The rise starts at the last sample below the lower mark and ends at the first one
/// at or above the upper mark.
pub proof fn law_marks_of_a_rise(v: Seq<Double>, mark: Double, i: int)
    requires
        0 <= i < v.len(),
    ensures
        is_last_below(v, mark, i) <==> v[i].lt(mark) && forall|k: int|
            i < k < v.len() ==> !(#[trigger] v[k]).lt(mark),
        is_first_at(v, mark, i) <==> mark.le(v[i]) && forall|k: int|
            0 <= k < i ==> !mark.le(#[trigger] v[k]),
{
}

/// As many samples count as are of the camera and farther than 0.1 m from the kick.
pub proof fn law_far_samples_are_counted(s: Seq<Departure>, cam: u32)
    ensures
        far_samples(s, cam) == s.filter(
            |d: Departure| d.cam == cam && (Double { bits: DIR_MIN_DIST }).lt(d.dist),
        ).len(),
    decreases s.len(),
{
    reveal(Seq::filter);
    if s.len() > 0 {
        law_far_samples_are_counted(s.drop_last(), cam);
    }
}

/// The best camera is one of the first eight, has at least four far samples, no camera
/// has more and no earlier one as many.
pub proof fn law_best_camera_sees_most(s: Seq<Departure>, cam: u32)
    ensures
        is_best_camera(s, cam) <==> cam < 8 && far_samples(s, cam) >= 4 && (forall|c: u32|
            c < 8 ==> far_samples(s, c) <= far_samples(s, cam)) && (forall|c: u32|
            c < cam ==> far_samples(s, c) < far_samples(s, cam)),
{
}

/// The third sample is of the camera, has a velocity, lies within the next eleven, and
/// between it and the first are exactly two of the same kind.
pub proof fn law_third_sample_follows_two(cams: Seq<u32>, moving: Seq<bool>, i: int, j: int)
    ensures
        is_third(cams, moving, i, j) <==> 0 < j - i <= 11 && j < cams.len() && cams[j] == cams[i]
            && moving[j] && Seq::new((j - i - 1) as nat, |k: int| i + 1 + k).filter(
            |k: int| cams[k] == cams[i] && moving[k],
        ).len() == 2,
{
    if j > i {
        lemma_moving_between_counts(cams, moving, i, j);
    }
}

proof fn lemma_moving_between_counts(cams: Seq<u32>, moving: Seq<bool>, i: int, j: int)
    requires
        i < j,
    ensures
        moving_between(cams, moving, i, j) == Seq::new((j - i - 1) as nat, |k: int| i + 1 + k).filter(
            |k: int| cams[k] == cams[i] && moving[k],
        ).len(),
    decreases j - i,
{
    reveal(Seq::filter);
    let all = Seq::new((j - i - 1) as nat, |k: int| i + 1 + k);
    if j > i + 1 {
        lemma_moving_between_counts(cams, moving, i, j - 1);
        assert(all.drop_last() =~= Seq::new((j - 1 - i - 1) as nat, |k: int| i + 1 + k));
        assert(all.last() == j - 1);
    }
}

/// The numbers of samples are as they are said to be.
pub proof fn law_least_numbers()
    ensures
        DIR_MIN_SAMPLES == 4,
        DIR_CAMERAS == 8,
{
}

} // verus!
