//! Flat rolling: free-ball episodes and which of them are evidence of what.
use vstd::prelude::*;

use crate::double::{Double, lemma_powers};
use crate::logtool::dynamics::chips::Takeoff;
use crate::logtool::dynamics::stats::{in_range, places, set_places};

verus! {

/// No robot is closer than this: 0.25 m.
pub const FREE_DIST: u64 = 0x3FD0_0000_0000_0000;

/// Height below which the ball is on the ground: 0.03 m.
pub const GROUND_Z: u64 = 0x3F9E_B851_EB85_1EB8;

/// An episode starts at least this fast: 0.3 m/s.
pub const START_SPEED: u64 = 0x3FD3_3333_3333_3333;

/// An episode ends when the ball is slower than this: 0.08 m/s.
pub const END_SPEED: u64 = 0x3FB4_7AE1_47AE_147B;

/// Turns only count above this speed: 0.3 m/s.
pub const TURN_SPEED: u64 = 0x3FD3_3333_3333_3333;

/// An episode ends at a larger turn: 0.35 rad.
pub const JUMP_ANGLE: u64 = 0x3FD6_6666_6666_6666;

/// An episode ends at a longer gap: 0.12 s.
pub const MAX_GAP: u64 = 0x3FBE_B851_EB85_1EB8;

/// Least duration of an episode: 0.4 s.
pub const MIN_DURATION: u64 = 0x3FD9_9999_9999_999A;

/// Least number of samples of an episode.
pub const MIN_SAMPLES: usize = 20;

/// Least length of an episode: 0.3 m.
pub const MIN_LENGTH: u64 = 0x3FD3_3333_3333_3333;

/// A kick up to this long before an episode started it: 0.6 s.
pub const ANCHOR_TIME: u64 = 0x3FE3_3333_3333_3333;

/// A kick up to this far from an episode's start started it: 1.5 m.
pub const ANCHOR_DIST: u64 = 0x3FF8_0000_0000_0000;

// ---------------------------------------------------------------- episodes

/// What episodes are found by in one sample of the ball's track.
#[derive(Clone, Copy, Debug, PartialEq, Eq, Structural)]
pub struct RollSample {
    /// Distance to the nearest robot.
    pub near_dist: Double,
    /// Height.
    pub z: Double,
    /// Whether it has a velocity.
    pub has_velocity: bool,
    /// Its speed.
    pub speed: Double,
    /// Time since the sample before it.
    pub gap: Double,
    /// What changed since the last sample of the same camera, if there is one.
    pub since: Option<Turn>,
}

/// What changed since the last sample of the same camera.
#[derive(Clone, Copy, Debug, PartialEq, Eq, Structural)]
pub struct Turn {
    /// Which sample that is.
    pub sample: usize,
    /// Change of velocity.
    pub dv: Double,
    /// Largest change that is not a jump.
    pub limit: Double,
    /// Speed before.
    pub speed: Double,
    /// Angle turned.
    pub angle: Double,
}

/// The ball rolls freely.
pub open spec fn is_free(s: RollSample) -> bool {
    &&& (Double { bits: FREE_DIST }).le(s.near_dist)
    &&& s.z.finite()
    &&& s.z.lt(Double { bits: GROUND_Z })
    &&& s.has_velocity
}

/// The velocity jumps or turns against the last sample of the same camera.
pub open spec fn jumps(t: Turn) -> bool {
    t.limit.lt(t.dv) || ((Double { bits: TURN_SPEED }).lt(t.speed) && (Double {
        bits: JUMP_ANGLE,
    }).lt(t.angle))
}

/// An episode can start here.
pub open spec fn is_start(s: RollSample) -> bool {
    is_free(s) && (Double { bits: START_SPEED }).le(s.speed)
}

/// An episode goes on over this sample: no gap, free, not too slow, and no jump
/// against a sample of the same camera within the episode.
pub open spec fn goes_on(s: RollSample, start: int) -> bool {
    &&& !(Double { bits: MAX_GAP }).lt(s.gap)
    &&& is_free(s)
    &&& !s.speed.lt(Double { bits: END_SPEED })
    &&& s.since matches Some(t) ==> t.sample < start || !jumps(t)
}

/// The ball has come to rest here.
pub open spec fn is_rest(s: RollSample) -> bool {
    !(Double { bits: MAX_GAP }).lt(s.gap) && is_free(s) && s.speed.lt(Double { bits: END_SPEED })
}

/// The end of the episode that starts at `start`, looked for from `j` on: the first
/// sample over which it does not go on, or the one behind it if the ball comes to
/// rest there.
pub open spec fn episode_end(s: Seq<RollSample>, start: int, j: int) -> int
    decreases s.len() - j,
{
    if j < 0 || j >= s.len() {
        s.len() as int
    } else if goes_on(s[j], start) {
        episode_end(s, start, j + 1)
    } else if is_rest(s[j]) {
        j + 1
    } else {
        j
    }
}

/// The episodes from sample `i` on.
pub open spec fn episodes_from(s: Seq<RollSample>, i: int) -> Seq<(int, int)>
    decreases s.len() - i,
{
    if i < 0 || i >= s.len() {
        seq![]
    } else if !is_start(s[i]) {
        episodes_from(s, i + 1)
    } else {
        let end = episode_end(s, i, i + 1);
        if end <= i || end > s.len() {
            seq![]
        } else {
            seq![(i, end)] + episodes_from(s, end)
        }
    }
}

/// A stretch of samples, `end` not included.
#[derive(Clone, Copy, Debug, PartialEq, Eq, Structural)]
pub struct Stretch {
    /// First sample.
    pub start: usize,
    /// The sample behind the last one.
    pub end: usize,
}

/// A stretch as a pair.
pub open spec fn stretch_view(s: Stretch) -> (int, int) {
    (s.start as int, s.end as int)
}

fn sample_is_free(s: RollSample) -> (res: bool)
    ensures
        res == is_free(s),
{
    Double::from_bits(FREE_DIST).is_at_most(s.near_dist) && s.z.is_finite() && s.z.is_less(
        Double::from_bits(GROUND_Z),
    ) && s.has_velocity
}

fn turn_jumps(t: Turn) -> (res: bool)
    ensures
        res == jumps(t),
{
    t.limit.is_less(t.dv) || (Double::from_bits(TURN_SPEED).is_less(t.speed) && Double::from_bits(
        JUMP_ANGLE,
    ).is_less(t.angle))
}

proof fn lemma_episode_end(s: Seq<RollSample>, start: int, j: int)
    requires
        0 <= j <= s.len(),
    ensures
        j <= episode_end(s, start, j) <= s.len(),
    decreases s.len() - j,
{
    if j < s.len() && goes_on(s[j], start) {
        lemma_episode_end(s, start, j + 1);
    }
}

fn find_end(s: &Vec<RollSample>, start: usize) -> (res: usize)
    requires
        start < s@.len(),
    ensures
        res == episode_end(s@, start as int, start + 1),
        start < res <= s@.len(),
{
    let total: usize = s.len();
    let mut j: usize = start + 1;
    while j < total
        invariant
            total == s@.len(),
            start < j <= total,
            episode_end(s@, start as int, j as int) == episode_end(s@, start as int, start + 1),
        decreases total - j,
    {
        let x = s[j];
        if Double::from_bits(MAX_GAP).is_less(x.gap) || !sample_is_free(x) {
            return j;
        }
        if x.speed.is_less(Double::from_bits(END_SPEED)) {
            return j + 1;
        }
        if let Some(t) = x.since {
            if t.sample >= start && turn_jumps(t) {
                return j;
            }
        }
        j += 1;
    }
    total
}

/// The free-rolling stretches of a ball's track: each starts where the free ball is
/// fast and ends at a gap, near a robot, off the ground, at a jump or at rest.
pub fn segment(s: &Vec<RollSample>) -> (res: Vec<Stretch>)
    ensures
        res@.map_values(|x: Stretch| stretch_view(x)) == episodes_from(s@, 0),
        forall|k: int|
            0 <= k < res@.len() ==> (#[trigger] res@[k]).start < res@[k].end && res@[k].end
                <= s@.len(),
        forall|k: int|
            0 <= k < res@.len() ==> ({
                let x = s@[(#[trigger] res@[k]).start as int];
                (Double { bits: FREE_DIST }).le(x.near_dist) && x.z.finite() && x.z.lt(
                Double { bits: GROUND_Z },
            ) && x.has_velocity && (Double { bits: START_SPEED }).le(x.speed)
            }),
        forall|k: int, j: int|
            #![trigger res@[k], s@[j]]
            0 <= k < res@.len() && res@[k].start < j < res@[k].end ==> ({
                let x = s@[j];
                !(Double { bits: MAX_GAP }).lt(x.gap) && (Double { bits: FREE_DIST }).le(x.near_dist) && x.z.finite() && x.z.lt(
                Double { bits: GROUND_Z },
            ) && x.has_velocity && (x.speed.lt(
                Double { bits: END_SPEED },
            ) ==> j == res@[k].end - 1) && (x.since matches Some(t) ==> (t.sample >= res@[k].start
                && !x.speed.lt(Double { bits: END_SPEED }) ==> !t.limit.lt(t.dv) && !((Double {
                bits: TURN_SPEED,
            }).lt(t.speed) && (Double { bits: JUMP_ANGLE }).lt(t.angle))))
            }),
        forall|k: int|
            0 <= k < res@.len() && (#[trigger] res@[k]).end < s@.len() ==> ({
                let x = s@[res@[k].end as int];
                let y = s@[res@[k].end - 1];
                (res@[k].end - 1 > res@[k].start && y.speed.lt(Double { bits: END_SPEED })) || (Double {
                bits: MAX_GAP,
            }).lt(x.gap) || !(Double { bits: FREE_DIST }).le(x.near_dist) || !x.z.finite()
                || !x.z.lt(Double { bits: GROUND_Z }) || !x.has_velocity || (
            x.since matches Some(t) && t.sample >= res@[k].start && (t.limit.lt(t.dv) || ((Double {
                bits: TURN_SPEED,
            }).lt(t.speed) && (Double { bits: JUMP_ANGLE }).lt(t.angle))))
            }),
        forall|j: int|
            0 <= j < s@.len() && ({
                let x = #[trigger] s@[j];
                (Double { bits: FREE_DIST }).le(x.near_dist) && x.z.finite() && x.z.lt(
                Double { bits: GROUND_Z },
            ) && x.has_velocity && (Double { bits: START_SPEED }).le(x.speed)
            }) ==> exists|k: int|
                0 <= k < res@.len() && (#[trigger] res@[k]).start <= j < res@[k].end,
{
    let total: usize = s.len();
    let ghost view = |x: Stretch| stretch_view(x);
    let mut out: Vec<Stretch> = Vec::new();
    let mut i: usize = 0;
    assert(out@.map_values(view) + episodes_from(s@, 0) =~= episodes_from(s@, 0));
    while i < total
        invariant
            i <= total,
            total == s@.len(),
            view == (|x: Stretch| stretch_view(x)),
            out@.map_values(view) + episodes_from(s@, i as int) == episodes_from(s@, 0),
            forall|k: int|
                0 <= k < out@.len() ==> (#[trigger] out@[k]).start < out@[k].end && out@[k].end
                    <= total,
        decreases total - i,
    {
        if !(sample_is_free(s[i]) && Double::from_bits(START_SPEED).is_at_most(s[i].speed)) {
            i += 1;
            continue;
        }
        let end: usize = find_end(s, i);
        let ghost before = out@;
        out.push(Stretch { start: i, end });
        proof {
            assert(out@.map_values(view) =~= before.map_values(view).push((i as int, end as int)));
            assert(out@.map_values(view) + episodes_from(s@, end as int) =~= before.map_values(view)
                + (seq![(i as int, end as int)] + episodes_from(s@, end as int)));
        }
        i = end;
    }
    assert(episodes_from(s@, i as int) =~= Seq::<(int, int)>::empty());
    assert(out@.map_values(view) + Seq::<(int, int)>::empty() =~= out@.map_values(view));
    proof {
        let e = episodes_from(s@, 0);
        law_episodes_are_free_rolling(s@, 0);
        assert(e.len() == out@.len());
        assert forall|k: int| 0 <= k < out@.len() implies e[k] == stretch_view(
            #[trigger] out@[k],
        ) by {}
        assert forall|j: int| 0 <= j < s@.len() && is_start(#[trigger] s@[j]) implies exists|k: int|
            0 <= k < out@.len() && (#[trigger] out@[k]).start <= j < out@[k].end by {
            let k = choose|k: int| 0 <= k < e.len() && (#[trigger] e[k]).0 <= j < e[k].1;
            assert(e[k] == stretch_view(out@[k]));
        }
    }
    out
}

/// Whether a stretch counts as an episode: enough samples, long enough in time and
/// in length.
pub fn is_episode(s: Stretch, duration: Double, length: Double) -> (res: bool)
    requires
        s.start < s.end,
    ensures
        res == (s.end - s.start >= MIN_SAMPLES && (Double { bits: MIN_DURATION }).le(duration) && (
        Double { bits: MIN_LENGTH }).le(length)),
{
    s.end - s.start >= MIN_SAMPLES && Double::from_bits(MIN_DURATION).is_at_most(duration)
        && Double::from_bits(MIN_LENGTH).is_at_most(length)
}

/// Episodes do not overlap, are in order, and each starts where the free ball is
/// fast.
pub proof fn law_episodes_are_apart(s: Seq<RollSample>, i: int)
    requires
        0 <= i,
    ensures
        ({
            let e = episodes_from(s, i);
            &&& forall|k: int|
                0 <= k < e.len() ==> i <= (#[trigger] e[k]).0 < e[k].1 <= s.len() && is_start(
                    s[e[k].0],
                )
            &&& forall|k: int, l: int| 0 <= k < l < e.len() ==> e[k].1 <= e[l].0
        }),
    decreases s.len() - i,
{
    if i < s.len() {
        if !is_start(s[i]) {
            law_episodes_are_apart(s, i + 1);
            let e = episodes_from(s, i);
            assert(e == episodes_from(s, i + 1));
            assert forall|k: int| 0 <= k < e.len() implies i <= (#[trigger] e[k]).0 < e[k].1
                <= s.len() && is_start(s[e[k].0]) by {
                assert(i + 1 <= episodes_from(s, i + 1)[k].0);
            }
        } else {
            lemma_episode_end(s, i, i + 1);
            let end = episode_end(s, i, i + 1);
            law_episodes_are_apart(s, end);
            let rest = episodes_from(s, end);
            let e = episodes_from(s, i);
            assert(e =~= seq![(i, end)] + rest);
            assert forall|k: int| 0 <= k < e.len() implies i <= (#[trigger] e[k]).0 < e[k].1
                <= s.len() && is_start(s[e[k].0]) by {
                if k > 0 {
                    assert(e[k] == rest[k - 1]);
                }
            }
            assert forall|k: int, l: int| 0 <= k < l < e.len() implies e[k].1 <= e[l].0 by {
                assert(e[l] == rest[l - 1]);
                if k > 0 {
                    assert(e[k] == rest[k - 1]);
                }
            }
        }
    }
}

/// Within an episode the ball rolls freely: it starts fast, no robot is near, it is
/// on the ground, no gap is too long, it is slow at most at the very end, and until
/// then its velocity neither changes by more than the limit nor turns too far while
/// fast, against the last sample of the same camera within the episode. An episode
/// only ends where one of these would no longer hold, at rest, or with the track;
/// and each sample where one can start lies in one.
pub proof fn law_episodes_are_free_rolling(s: Seq<RollSample>, i: int)
    requires
        0 <= i,
    ensures
        forall|k: int|
            0 <= k < episodes_from(s, i).len() ==> ({
                let x = s[(#[trigger] episodes_from(s, i)[k]).0 as int];
                (Double { bits: FREE_DIST }).le(x.near_dist) && x.z.finite() && x.z.lt(
                Double { bits: GROUND_Z },
            ) && x.has_velocity && (Double { bits: START_SPEED }).le(x.speed)
            }),
        forall|k: int, j: int|
            #![trigger episodes_from(s, i)[k], s[j]]
            0 <= k < episodes_from(s, i).len() && episodes_from(s, i)[k].0 < j < episodes_from(s, i)[k].1 ==> ({
                let x = s[j];
                !(Double { bits: MAX_GAP }).lt(x.gap) && (Double { bits: FREE_DIST }).le(x.near_dist) && x.z.finite() && x.z.lt(
                Double { bits: GROUND_Z },
            ) && x.has_velocity && (x.speed.lt(
                Double { bits: END_SPEED },
            ) ==> j == episodes_from(s, i)[k].1 - 1) && (x.since matches Some(t) ==> (t.sample >= episodes_from(s, i)[k].0
                && !x.speed.lt(Double { bits: END_SPEED }) ==> !t.limit.lt(t.dv) && !((Double {
                bits: TURN_SPEED,
            }).lt(t.speed) && (Double { bits: JUMP_ANGLE }).lt(t.angle))))
            }),
        forall|k: int|
            0 <= k < episodes_from(s, i).len() && (#[trigger] episodes_from(s, i)[k]).1 < s.len() ==> ({
                let x = s[episodes_from(s, i)[k].1 as int];
                let y = s[episodes_from(s, i)[k].1 - 1];
                (episodes_from(s, i)[k].1 - 1 > episodes_from(s, i)[k].0 && y.speed.lt(Double { bits: END_SPEED })) || (Double {
                bits: MAX_GAP,
            }).lt(x.gap) || !(Double { bits: FREE_DIST }).le(x.near_dist) || !x.z.finite()
                || !x.z.lt(Double { bits: GROUND_Z }) || !x.has_velocity || (
            x.since matches Some(t) && t.sample >= episodes_from(s, i)[k].0 && (t.limit.lt(t.dv) || ((Double {
                bits: TURN_SPEED,
            }).lt(t.speed) && (Double { bits: JUMP_ANGLE }).lt(t.angle))))
            }),
        forall|j: int|
            i <= j < s.len() && ({
                let x = #[trigger] s[j];
                (Double { bits: FREE_DIST }).le(x.near_dist) && x.z.finite() && x.z.lt(
                Double { bits: GROUND_Z },
            ) && x.has_velocity && (Double { bits: START_SPEED }).le(x.speed)
            }) ==> exists|k: int|
                0 <= k < episodes_from(s, i).len() && (#[trigger] episodes_from(s, i)[k]).0 <= j < episodes_from(s, i)[k].1,
    decreases s.len() - i,
{
    let e = episodes_from(s, i);
    if i < s.len() {
        if !is_start(s[i]) {
            law_episodes_are_free_rolling(s, i + 1);
            assert(e == episodes_from(s, i + 1));
        } else {
            lemma_episode_end(s, i, i + 1);
            let end = episode_end(s, i, i + 1);
            law_episodes_are_free_rolling(s, end);
            let rest = episodes_from(s, end);
            assert(e =~= seq![(i, end)] + rest);
            lemma_until_end(s, i, i + 1);
            assert forall|k: int| 1 <= k < e.len() implies #[trigger] e[k] == rest[k - 1] by {}
            assert(e[0] == (i, end));
            assert forall|j: int| i <= j < s.len() && is_start(#[trigger] s[j]) implies exists|k: int|
                0 <= k < e.len() && (#[trigger] e[k]).0 <= j < e[k].1 by {
                if j < end {
                    assert(e[0].0 <= j < e[0].1);
                } else {
                    let k = choose|k: int| 0 <= k < rest.len() && (#[trigger] rest[k]).0 <= j < rest[k].1;
                    assert(e[k + 1] == rest[k]);
                }
            }
        }
    }
}

proof fn lemma_until_end(s: Seq<RollSample>, start: int, from: int)
    requires
        0 <= start < from <= s.len(),
    ensures
        ({
            let end = episode_end(s, start, from);
            &&& from <= end <= s.len()
            &&& forall|j: int| from <= j < end ==> goes_on(#[trigger] s[j], start) || (is_rest(s[j])
                && j == end - 1)
            &&& end < s.len() ==> !goes_on(s[end], start) && !is_rest(s[end]) || (end > from
                && is_rest(s[end - 1]))
        }),
    decreases s.len() - from,
{
    if from < s.len() && goes_on(s[from], start) {
        lemma_until_end(s, start, from + 1);
    }
}

// ---------------------------------------------------------------- fits

/// Which samples a refit uses: those used before whose residual is not above the
/// limit. `residuals` holds the residuals of the samples used, in order.
pub open spec fn refit_mask(mask: Seq<bool>, residuals: Seq<Double>, limit: Double) -> Seq<bool>
    decreases mask.len(),
{
    if mask.len() == 0 {
        seq![]
    } else {
        let before = refit_mask(mask.drop_last(), residuals, limit);
        let k = used(mask.drop_last());
        before.push(mask.last() && !limit.lt(residuals[k as int]))
    }
}

/// How many samples are used.
pub open spec fn used(mask: Seq<bool>) -> nat
    decreases mask.len(),
{
    if mask.len() == 0 {
        0
    } else {
        used(mask.drop_last()) + if mask.last() {
            1nat
        } else {
            0nat
        }
    }
}

/// Which samples a refit uses.
pub fn reject_outliers(mask: &Vec<bool>, residuals: &Vec<Double>, limit: Double) -> (res: Vec<bool>)
    requires
        residuals@.len() == used(mask@),
    ensures
        res@ == refit_mask(mask@, residuals@, limit),
{
    let mut out: Vec<bool> = Vec::new();
    let mut k: usize = 0;
    let mut i: usize = 0;
    while i < mask.len()
        invariant
            i <= mask@.len(),
            k <= i,
            k == used(mask@.take(i as int)),
            residuals@.len() == used(mask@),
            out@ == refit_mask(mask@.take(i as int), residuals@, limit),
        decreases mask.len() - i,
    {
        assert(mask@.take(i + 1).drop_last() =~= mask@.take(i as int));
        proof {
            lemma_used_grows(mask@, i + 1);
        }
        if mask[i] {
            out.push(!limit.is_less(residuals[k]));
            k += 1;
        } else {
            out.push(false);
        }
        i += 1;
    }
    assert(mask@.take(i as int) =~= mask@);
    out
}

proof fn lemma_used_grows(mask: Seq<bool>, n: int)
    requires
        0 <= n <= mask.len(),
    ensures
        used(mask.take(n)) <= used(mask),
    decreases mask.len() - n,
{
    if n == mask.len() {
        assert(mask.take(n) =~= mask);
    } else {
        assert(mask.take(n + 1).drop_last() =~= mask.take(n));
        lemma_used_grows(mask, n + 1);
    }
}

/// A refit uses no sample that was not used before.
pub proof fn law_refits_only_drop(mask: Seq<bool>, residuals: Seq<Double>, limit: Double, i: int)
    requires
        0 <= i < mask.len(),
    ensures
        refit_mask(mask, residuals, limit).len() == mask.len(),
        refit_mask(mask, residuals, limit)[i] ==> mask[i],
    decreases mask.len(),
{
    let rest = mask.drop_last();
    if rest.len() > 0 {
        law_refits_only_drop(
            rest,
            residuals,
            limit,
            if i < rest.len() {
                i
            } else {
                0
            },
        );
    }
    let before = refit_mask(rest, residuals, limit);
    assert(before.len() == rest.len());
    if i < rest.len() {
        assert(refit_mask(mask, residuals, limit)[i] == before[i]);
    }
}

/// Whether a refit has enough rows for its unknowns.
pub fn enough_rows(rows: usize, unknowns: usize) -> (res: bool)
    ensures
        res == (rows >= unknowns + 3),
{
    rows >= unknowns && rows - unknowns >= 3
}

/// Whether a kick can have started an episode: it starts by `latest`, not too long
/// `before` the episode, and near its start.
pub fn may_anchor(start: Double, latest: Double, before: Double, dist: Double) -> (res: Takeoff)
    ensures
        res.apart == before,
        res.eligible == (start.le(latest) && before.lt(Double { bits: ANCHOR_TIME }) && dist.lt(
            Double { bits: ANCHOR_DIST },
        )),
{
    Takeoff {
        eligible: start.is_at_most(latest) && before.is_less(Double::from_bits(ANCHOR_TIME))
            && dist.is_less(Double::from_bits(ANCHOR_DIST)),
        apart: before,
    }
}

// ---------------------------------------------------------------- many episodes

/// What an episode is selected by.
#[derive(Clone, Copy, Debug, PartialEq, Eq, Structural)]
pub struct EpisodeFact {
    /// Speed at its start.
    pub v_start: Double,
    /// Its duration.
    pub duration: Double,
    /// Duration of its slide.
    pub slide_dur: Double,
    /// Duration of its roll.
    pub roll_dur: Double,
    /// Fitted deceleration of the slide.
    pub a_slide: Double,
    /// Fitted deceleration of the roll.
    pub a_roll: Double,
    /// Its absolute value.
    pub a_roll_abs: Double,
    /// Tracked and extrapolated speed at the kick that started it, if any.
    pub kick: Option<KickSpeeds>,
    /// Direction in degrees.
    pub dir_deg: Double,
}

/// Speeds at a kick.
#[derive(Clone, Copy, Debug, PartialEq, Eq, Structural)]
pub struct KickSpeeds {
    /// Tracked.
    pub v_tracker: Double,
    /// Extrapolated.
    pub v_extrap: Double,
}

/// What episodes are selected for.
#[derive(Clone, Copy, Debug, PartialEq, Eq, Structural)]
pub enum Selection {
    /// The roll: it lasts at least 0.4 s and decelerates less than 2 m/s^2.
    Roll,
    /// Slow episodes that no kick started.
    SlowSingle,
    /// The slide of episodes that start faster than 1.5 m/s.
    Slide,
    /// The slide of episodes that start at 3 m/s or more.
    FastSlide,
    /// The speed ratio of episodes that a kick started.
    Switch,
    /// Episodes that roll from the start for more than 0.8 s.
    PureRoll,
}

/// A slide of at least 0.12 s before a roll of more than 0.15 s that decelerates
/// less.
pub open spec fn has_slide(e: EpisodeFact) -> bool {
    (Double { bits: 0x3FBE_B851_EB85_1EB8 }).le(e.slide_dur) && (Double { bits: 0x3FC3_3333_3333_3333 }).lt(e.roll_dur)
        && e.a_roll.lt(e.a_slide)
}

/// Whether an episode is selected.
pub open spec fn selected(e: EpisodeFact, s: Selection) -> bool {
    match s {
        Selection::Roll => (Double { bits: 0x3FD9_9999_9999_999A }).le(e.roll_dur) && e.a_roll_abs.lt(
            Double { bits: 0x4000_0000_0000_0000 },
        ),
        Selection::SlowSingle => e.v_start.lt(Double { bits: 0x3FF0_0000_0000_0000 }) && e.kick is None,
        Selection::Slide => has_slide(e) && (Double { bits: 0x3FF8_0000_0000_0000 }).lt(e.v_start),
        Selection::FastSlide => has_slide(e) && (Double { bits: 0x4008_0000_0000_0000 }).le(e.v_start),
        Selection::Switch => (e.kick matches Some(k) && (Double { bits: 0x3FF0_0000_0000_0000 }).lt(k.v_extrap))
            && (Double { bits: 0x3FA9_9999_9999_999A }).le(e.slide_dur) && (Double { bits: 0x3FC9_9999_9999_999A }).le(
            e.roll_dur,
        ) && e.a_roll.lt(e.a_slide) && (Double { bits: 0x3FF0_0000_0000_0000 }).lt(e.a_slide),
        Selection::PureRoll => e.v_start.lt(Double { bits: 0x3FF3_3333_3333_3333 }) && (Double {
            bits: 0x3FE9_9999_9999_999A,
        }).lt(e.duration),
    }
}

fn is_selected(e: EpisodeFact, s: Selection) -> (res: bool)
    ensures
        res == selected(e, s),
{
    let slide = Double::from_bits(0x3FBE_B851_EB85_1EB8).is_at_most(e.slide_dur) && Double::from_bits(
        0x3FC3_3333_3333_3333,
    ).is_less(e.roll_dur) && e.a_roll.is_less(e.a_slide);
    match s {
        Selection::Roll => Double::from_bits(0x3FD9_9999_9999_999A).is_at_most(e.roll_dur)
            && e.a_roll_abs.is_less(Double::from_bits(0x4000_0000_0000_0000)),
        Selection::SlowSingle => e.v_start.is_less(Double::from_bits(0x3FF0_0000_0000_0000)) && e.kick.is_none(),
        Selection::Slide => slide && Double::from_bits(0x3FF8_0000_0000_0000).is_less(e.v_start),
        Selection::FastSlide => slide && Double::from_bits(0x4008_0000_0000_0000).is_at_most(e.v_start),
        Selection::Switch => {
            let fast = match e.kick {
                Some(k) => Double::from_bits(0x3FF0_0000_0000_0000).is_less(k.v_extrap),
                None => false,
            };
            fast && Double::from_bits(0x3FA9_9999_9999_999A).is_at_most(e.slide_dur) && Double::from_bits(
                0x3FC9_9999_9999_999A,
            ).is_at_most(e.roll_dur) && e.a_roll.is_less(e.a_slide) && Double::from_bits(
                0x3FF0_0000_0000_0000,
            ).is_less(e.a_slide)
        },
        Selection::PureRoll => e.v_start.is_less(Double::from_bits(0x3FF3_3333_3333_3333)) && Double::from_bits(
            0x3FE9_9999_9999_999A,
        ).is_less(e.duration),
    }
}

/// The episodes that are selected.
pub fn select_episodes(e: &Vec<EpisodeFact>, s: Selection) -> (res: Vec<usize>)
    ensures
        res@ == set_places(Seq::new(e@.len(), |i: int| selected(e@[i], s))),
{
    let mut flags: Vec<bool> = Vec::new();
    let mut i: usize = 0;
    while i < e.len()
        invariant
            i <= e@.len(),
            flags@.len() == i,
            forall|j: int| 0 <= j < i ==> #[trigger] flags@[j] == selected(e@[j], s),
        decreases e.len() - i,
    {
        flags.push(is_selected(e[i], s));
        i += 1;
    }
    assert(flags@ =~= Seq::new(e@.len(), |i: int| selected(e@[i], s)));
    places(&flags)
}

/// The rolls in a direction within `[lo, hi)` degrees.
pub fn select_direction(e: &Vec<EpisodeFact>, lo: Double, hi: Double) -> (res: Vec<usize>)
    ensures
        res@ == set_places(
            Seq::new(
                e@.len(),
                |i: int| selected(e@[i], Selection::Roll) && in_range(e@[i].dir_deg, lo, hi),
            ),
        ),
{
    let mut flags: Vec<bool> = Vec::new();
    let mut i: usize = 0;
    while i < e.len()
        invariant
            i <= e@.len(),
            flags@.len() == i,
            forall|j: int|
                0 <= j < i ==> #[trigger] flags@[j] == (selected(e@[j], Selection::Roll)
                    && in_range(e@[j].dir_deg, lo, hi)),
        decreases e.len() - i,
    {
        flags.push(
            is_selected(e[i], Selection::Roll) && lo.is_at_most(e[i].dir_deg)
                && e[i].dir_deg.is_less(hi),
        );
        i += 1;
    }
    assert(flags@ =~= Seq::new(
        e@.len(),
        |i: int| selected(e@[i], Selection::Roll) && in_range(e@[i].dir_deg, lo, hi),
    ));
    places(&flags)
}

/// Speeds that a pooled fit takes.
#[derive(Clone, Copy, Debug, PartialEq, Eq, Structural)]
pub enum Pool {
    /// Of a slow ball, for the linear fit.
    Slow,
    /// Up to a higher speed, for the quadratic fit.
    Wide,
}

/// A pooled fit takes faster samples than this: 0.1 m/s.
pub const POOL_MIN_SPEED: u64 = 0x3FB9_9999_9999_999A;

/// The linear fit takes slower samples than this: 2 m/s.
pub const POOL_SLOW_SPEED: u64 = 0x4000_0000_0000_0000;

/// The quadratic fit takes slower samples than this: 4 m/s.
pub const POOL_WIDE_SPEED: u64 = 0x4010_0000_0000_0000;

/// Whether a pooled fit takes a sample of this speed.
pub open spec fn is_pooled(speed: Double, p: Pool) -> bool {
    (Double { bits: POOL_MIN_SPEED }).lt(speed) && speed.lt(
        Double {
            bits: match p {
                Pool::Slow => POOL_SLOW_SPEED,
                Pool::Wide => POOL_WIDE_SPEED,
            },
        },
    )
}

/// The samples that a pooled fit takes.
pub fn select_pooled(speeds: &Vec<Double>, p: Pool) -> (res: Vec<usize>)
    ensures
        res@ == set_places(Seq::new(speeds@.len(), |i: int| is_pooled(speeds@[i], p))),
{
    let most = match p {
        Pool::Slow => Double::from_bits(POOL_SLOW_SPEED),
        Pool::Wide => Double::from_bits(POOL_WIDE_SPEED),
    };
    let mut flags: Vec<bool> = Vec::new();
    let mut i: usize = 0;
    while i < speeds.len()
        invariant
            i <= speeds@.len(),
            flags@.len() == i,
            most.bits == match p {
                Pool::Slow => POOL_SLOW_SPEED,
                Pool::Wide => POOL_WIDE_SPEED,
            },
            forall|j: int| 0 <= j < i ==> #[trigger] flags@[j] == is_pooled(speeds@[j], p),
        decreases speeds.len() - i,
    {
        flags.push(
            Double::from_bits(POOL_MIN_SPEED).is_less(speeds[i]) && speeds[i].is_less(most),
        );
        i += 1;
    }
    assert(flags@ =~= Seq::new(speeds@.len(), |i: int| is_pooled(speeds@[i], p)));
    places(&flags)
}

/// Samples on either side of one whose deceleration is taken.
pub const POOL_HALF: usize = 8;

/// An episode that fits worse than this gives no pooled samples: 0.003 m.
pub const POOL_MAX_RMS: u64 = 0x3F68_9374_BC6A_7EFA;

/// Whether an episode's sample at `tau` gives a pooled deceleration: not before
/// `from`, in an episode that fits well.
pub fn gives_pooled(tau: Double, from: Double, rms: Double) -> (res: bool)
    ensures
        res == (!tau.lt(from) && !(Double { bits: POOL_MAX_RMS }).lt(rms)),
{
    !tau.is_less(from) && !Double::from_bits(POOL_MAX_RMS).is_less(rms)
}

/// Whether there are enough samples around one for its deceleration.
pub fn enough_around(n: usize) -> (res: bool)
    ensures
        res == (n >= 2 * POOL_HALF - 2),
{
    n >= 2 * POOL_HALF - 2
}

/// One model clearly beats another by more than this of the criterion: 10.
pub const BIC_MARGIN: u64 = 0x4024_0000_0000_0000;

/// How many of the differences of the criterion show that a model clearly beats
/// another.
pub open spec fn beaten(differences: Seq<Double>) -> nat
    decreases differences.len(),
{
    if differences.len() == 0 {
        0
    } else {
        beaten(differences.drop_last()) + if (Double { bits: BIC_MARGIN }).lt(differences.last()) {
            1nat
        } else {
            0nat
        }
    }
}

/// How many of the differences of the criterion show that a model clearly beats
/// another.
pub fn count_beaten(differences: &Vec<Double>) -> (res: usize)
    ensures
        res == beaten(differences@),
{
    let mut n: usize = 0;
    let mut i: usize = 0;
    while i < differences.len()
        invariant
            i <= differences@.len(),
            n <= i,
            n == beaten(differences@.take(i as int)),
        decreases differences.len() - i,
    {
        assert(differences@.take(i + 1).drop_last() =~= differences@.take(i as int));
        if Double::from_bits(BIC_MARGIN).is_less(differences[i]) {
            n += 1;
        }
        i += 1;
    }
    assert(differences@.take(i as int) =~= differences@);
    n
}

/// The numbers within `[lo, hi)`; none if there are fewer than `least`.
pub fn select_range(s: &Vec<Double>, lo: Double, hi: Double, least: usize) -> (res: Option<
    Vec<usize>,
>)
    ensures
        ({
            let all = set_places(Seq::new(s@.len(), |i: int| in_range(s@[i], lo, hi)));
            match res {
                Some(p) => p@ == all && all.len() >= least,
                None => all.len() < least,
            }
        }),
{
    let mut flags: Vec<bool> = Vec::new();
    let mut i: usize = 0;
    while i < s.len()
        invariant
            i <= s@.len(),
            flags@.len() == i,
            forall|j: int| 0 <= j < i ==> #[trigger] flags@[j] == in_range(s@[j], lo, hi),
        decreases s.len() - i,
    {
        flags.push(lo.is_at_most(s[i]) && s[i].is_less(hi));
        i += 1;
    }
    assert(flags@ =~= Seq::new(s@.len(), |i: int| in_range(s@[i], lo, hi)));
    let p = places(&flags);
    if p.len() >= least {
        Some(p)
    } else {
        None
    }
}

/// Fast slides are slides.
pub proof fn law_fast_slides_are_slides(e: EpisodeFact)
    requires
        selected(e, Selection::FastSlide),
    ensures
        selected(e, Selection::Slide),
{
}

/// The limits are the decimal numbers that they are said to be.
pub proof fn law_limits_in_decimals()
    ensures
        (Double { bits: FREE_DIST }).reads(25, 100),
        !(Double { bits: FREE_DIST }).negative(),
        (Double { bits: GROUND_Z }).reads(3, 100),
        !(Double { bits: GROUND_Z }).negative(),
        (Double { bits: START_SPEED }).reads(3, 10),
        !(Double { bits: START_SPEED }).negative(),
        (Double { bits: END_SPEED }).reads(8, 100),
        !(Double { bits: END_SPEED }).negative(),
        (Double { bits: TURN_SPEED }).reads(3, 10),
        !(Double { bits: TURN_SPEED }).negative(),
        (Double { bits: JUMP_ANGLE }).reads(35, 100),
        !(Double { bits: JUMP_ANGLE }).negative(),
        (Double { bits: MAX_GAP }).reads(12, 100),
        !(Double { bits: MAX_GAP }).negative(),
        (Double { bits: MIN_DURATION }).reads(4, 10),
        !(Double { bits: MIN_DURATION }).negative(),
        (Double { bits: MIN_LENGTH }).reads(3, 10),
        !(Double { bits: MIN_LENGTH }).negative(),
        (Double { bits: ANCHOR_TIME }).reads(6, 10),
        !(Double { bits: ANCHOR_TIME }).negative(),
        (Double { bits: ANCHOR_DIST }).reads(15, 10),
        !(Double { bits: ANCHOR_DIST }).negative(),
        (Double { bits: POOL_MIN_SPEED }).reads(1, 10),
        !(Double { bits: POOL_MIN_SPEED }).negative(),
        (Double { bits: POOL_SLOW_SPEED }).reads(2, 1),
        !(Double { bits: POOL_SLOW_SPEED }).negative(),
        (Double { bits: POOL_WIDE_SPEED }).reads(4, 1),
        !(Double { bits: POOL_WIDE_SPEED }).negative(),
        (Double { bits: POOL_MAX_RMS }).reads(3, 1000),
        !(Double { bits: POOL_MAX_RMS }).negative(),
        (Double { bits: BIC_MARGIN }).reads(10, 1),
        !(Double { bits: BIC_MARGIN }).negative(),
{
    lemma_powers();
}

/// A refit uses exactly the samples used before whose residual is not above the
/// limit; the residuals stand in the order of the samples used.
pub proof fn law_refits_drop_outliers(mask: Seq<bool>, residuals: Seq<Double>, limit: Double, i: int)
    requires
        0 <= i < mask.len(),
    ensures
        refit_mask(mask, residuals, limit).len() == mask.len(),
        refit_mask(mask, residuals, limit)[i] <==> mask[i] && !limit.lt(
            residuals[mask.take(i).filter(|f: bool| f).len() as int],
        ),
    decreases mask.len(),
{
    let rest = mask.drop_last();
    law_refits_only_drop(mask, residuals, limit, i);
    if i < rest.len() {
        law_refits_drop_outliers(rest, residuals, limit, i);
        assert(rest.take(i) =~= mask.take(i));
    } else {
        assert(mask.take(i) =~= rest);
        lemma_used_counts(rest);
    }
}

proof fn lemma_used_counts(mask: Seq<bool>)
    ensures
        used(mask) == mask.filter(|f: bool| f).len(),
    decreases mask.len(),
{
    reveal(Seq::filter);
    if mask.len() > 0 {
        lemma_used_counts(mask.drop_last());
    }
}

/// What each selection takes. A roll lasts at least 0.4 s and decelerates less than
/// 2 m/s^2. A slow episode starts below 1 m/s and without a kick. A slide lasts at
/// least 0.12 s before a roll of more than 0.15 s that decelerates less, and starts
/// above 1.5 m/s, a fast one at 3 m/s or above. A switch has a kick above 1 m/s, a
/// slide of at least 0.05 s that decelerates by more than 1 m/s^2 and by more than its
/// roll, and a roll of at least 0.2 s. A pure roll starts below 1.2 m/s and lasts more
/// than 0.8 s.
pub proof fn law_selections_take(e: EpisodeFact)
    ensures
        selected(e, Selection::Roll) <==> (Double { bits: 0x3FD9_9999_9999_999A }).le(e.roll_dur)
            && e.a_roll_abs.lt(Double { bits: 0x4000_0000_0000_0000 }),
        selected(e, Selection::SlowSingle) <==> e.v_start.lt(Double { bits: 0x3FF0_0000_0000_0000 })
            && e.kick is None,
        selected(e, Selection::Slide) <==> (Double { bits: 0x3FBE_B851_EB85_1EB8 }).le(e.slide_dur) && (
        Double { bits: 0x3FC3_3333_3333_3333 }).lt(e.roll_dur) && e.a_roll.lt(e.a_slide) && (Double {
            bits: 0x3FF8_0000_0000_0000,
        }).lt(e.v_start),
        selected(e, Selection::FastSlide) <==> (Double { bits: 0x3FBE_B851_EB85_1EB8 }).le(e.slide_dur)
            && (Double { bits: 0x3FC3_3333_3333_3333 }).lt(e.roll_dur) && e.a_roll.lt(e.a_slide) && (
        Double { bits: 0x4008_0000_0000_0000 }).le(e.v_start),
        selected(e, Selection::Switch) <==> e.kick is Some && (Double {
            bits: 0x3FF0_0000_0000_0000,
        }).lt((e.kick->0).v_extrap) && (Double { bits: 0x3FA9_9999_9999_999A }).le(e.slide_dur) && (
        Double { bits: 0x3FC9_9999_9999_999A }).le(e.roll_dur) && e.a_roll.lt(e.a_slide) && (Double {
            bits: 0x3FF0_0000_0000_0000,
        }).lt(e.a_slide),
        selected(e, Selection::PureRoll) <==> e.v_start.lt(Double { bits: 0x3FF3_3333_3333_3333 }) && (
        Double { bits: 0x3FE9_9999_9999_999A }).lt(e.duration),
        !(selected(e, Selection::SlowSingle) && selected(e, Selection::Switch)),
        !(selected(e, Selection::SlowSingle) && selected(e, Selection::Slide)),
        !(selected(e, Selection::PureRoll) && selected(e, Selection::Slide)),
{
}

/// A pooled fit takes what is faster than 0.1 m/s and slower than its upper speed, 2
/// or 4 m/s; what the slow pool takes, the wide one takes too.
pub proof fn law_pools_take(speed: Double)
    ensures
        is_pooled(speed, Pool::Slow) <==> (Double { bits: POOL_MIN_SPEED }).lt(speed) && speed.lt(
            Double { bits: POOL_SLOW_SPEED },
        ),
        is_pooled(speed, Pool::Wide) <==> (Double { bits: POOL_MIN_SPEED }).lt(speed) && speed.lt(
            Double { bits: POOL_WIDE_SPEED },
        ),
        is_pooled(speed, Pool::Slow) ==> is_pooled(speed, Pool::Wide),
{
}

/// As many models are clearly beaten as there are differences above 10.
pub proof fn law_beaten_are_counted(differences: Seq<Double>)
    ensures
        beaten(differences) == differences.filter(|d: Double| (Double { bits: BIC_MARGIN }).lt(d)).len(),
    decreases differences.len(),
{
    reveal(Seq::filter);
    if differences.len() > 0 {
        law_beaten_are_counted(differences.drop_last());
    }
}

/// The numbers of samples are as they are said to be.
pub proof fn law_least_numbers()
    ensures
        MIN_SAMPLES == 20,
        POOL_HALF == 8,
{
}

} // verus!
