//! Building object tracks from the raw per-camera detections: which detection is
//! the ball, which samples a derivative spans, which robot is near.
//!
//! Samples keep their camera so that derivatives are always taken within one
//! camera. Differences between times and positions are computed by the caller.
use vstd::prelude::*;

use crate::double::{Double, INFINITY_BITS, lemma_powers};
use crate::logtool::dynamics::stats::{
    law_places_ascend, partition_point, partitioned, set_places, splits,
};

verus! {

/// Age below which the last sample of the same camera predicts the ball: 0.12 s.
pub const SAME_CAMERA_AGE: u64 = 0x3FBE_B851_EB85_1EB8;

/// Age below which the last sample of any camera gates the ball: 0.5 s.
pub const ANY_CAMERA_AGE: u64 = 0x3FE0_0000_0000_0000;

/// Largest gap between neighbouring same-camera samples used for derivatives:
/// 0.06 s.
pub const DERIV_MAX_GAP: u64 = 0x3FAE_B851_EB85_1EB8;

/// How many samples to each side are searched for a same-camera neighbour.
pub const NEIGHBOURS: usize = 8;

/// Robots not updated for longer than this are not near: 0.15 s.
pub const ROBOT_STALE: u64 = 0x3FC3_3333_3333_3333;

/// Largest distance in time of a tracker frame that gives the ball's height:
/// 0.05 s.
pub const HEIGHT_AGE: u64 = 0x3FA9_9999_9999_999A;

/// Captures of two cameras nearer than this are one: 0.003 s.
pub const DUAL_AGE: u64 = 0x3F68_9374_BC6A_7EFA;

/// Samples on either side of a robot's local fit.
pub const ROBOT_SG_HALF: usize = 4;

/// Distance in time up to which a sample takes part in a local fit: 4.5 periods
/// of 17 ms.
pub const SG_REACH: u64 = 0x3FB3_9581_0624_DD30;

/// A gap above this interrupts a local fit: 0.04 s.
pub const SG_MAX_GAP: u64 = 0x3FA4_7AE1_47AE_147B;

/// Same-camera consecutive robot samples farther apart than this are an identity
/// swap: 0.08 m.
pub const ROBOT_JUMP_POS: u64 = 0x3FB4_7AE1_47AE_147B;

/// Same-camera consecutive robot samples turned by more than this are an identity
/// swap: 0.8 rad.
pub const ROBOT_JUMP_ANGLE: u64 = 0x3FE9_9999_9999_999A;

/// A robot's pose is known up to this far from a sample: 0.06 s.
pub const POSE_AGE: u64 = 0x3FAE_B851_EB85_1EB8;

// ---------------------------------------------------------------- the ball

/// What the ball's position is predicted from.
#[derive(Clone, Copy, Debug, PartialEq, Eq, Structural)]
pub enum Prediction {
    /// The last sample of the same camera and its velocity.
    SameCamera,
    /// The last sample of any camera, within a gate.
    AnyCamera,
    /// The last sample of any camera, however far.
    Stale,
    /// Nothing: the largest ball is taken.
    Nothing,
}

/// What to predict the ball from: `same` is the age of the last sample of the same
/// camera, `any` that of the last sample.
pub fn prediction(same: Option<Double>, any: Option<Double>) -> (res: Prediction)
    ensures
        res == predicted_from(same, any),
{
    let fresh = match same {
        Some(a) => a.is_less(Double::from_bits(SAME_CAMERA_AGE)),
        None => false,
    };
    if fresh {
        return Prediction::SameCamera;
    }
    match any {
        Some(a) => if a.is_less(Double::from_bits(ANY_CAMERA_AGE)) {
            Prediction::AnyCamera
        } else {
            Prediction::Stale
        },
        None => Prediction::Nothing,
    }
}

/// `i` is the first of the least distances below the limit.
pub open spec fn is_first_passing(d: Seq<Double>, limit: Option<Double>, i: int) -> bool {
    &&& 0 <= i < d.len()
    &&& passes(d[i], limit)
    &&& forall|j: int| 0 <= j < d.len() && passes(#[trigger] d[j], limit) ==> !d[j].lt(d[i])
    &&& forall|j: int| 0 <= j < i && passes(#[trigger] d[j], limit) ==> d[i].lt(d[j])
}

/// Whether a distance is below the limit, if there is one.
pub open spec fn passes(d: Double, limit: Option<Double>) -> bool {
    match limit {
        Some(g) => d.lt(g),
        None => true,
    }
}

/// The nearest detection below the limit, of equally near ones the first. Without a
/// limit several distances must be numbers; a single one is taken as it is.
pub fn nearest_passing(d: &Vec<Double>, limit: Option<Double>) -> (res: Option<usize>)
    requires
        limit is None ==> d@.len() <= 1 || forall|j: int|
            0 <= j < d@.len() ==> !(#[trigger] d@[j]).nan(),
    ensures
        match res {
            Some(i) => is_first_passing(d@, limit, i as int),
            None => forall|j: int| 0 <= j < d@.len() ==> !passes(#[trigger] d@[j], limit),
        },
{
    let mut best: Option<usize> = None;
    let mut i: usize = 0;
    while i < d.len()
        invariant
            i <= d@.len(),
            limit is None ==> d@.len() <= 1 || forall|j: int|
                0 <= j < d@.len() ==> !(#[trigger] d@[j]).nan(),
            match best {
                Some(b) => b < i && passes(d@[b as int], limit) && (forall|j: int|
                    0 <= j < i && passes(#[trigger] d@[j], limit) ==> !d@[j].lt(d@[b as int])) && (
                forall|j: int|
                    0 <= j < b && passes(#[trigger] d@[j], limit) ==> d@[b as int].lt(d@[j])),
                None => forall|j: int| 0 <= j < i ==> !passes(#[trigger] d@[j], limit),
            },
        decreases d.len() - i,
    {
        let ok = match limit {
            Some(g) => d[i].is_less(g),
            None => true,
        };
        assert(ok == passes(d@[i as int], limit));
        if ok {
            best = match best {
                Some(b) => {
                    assert(!d@[b as int].nan() && !d@[i as int].nan());
                    if d[i].is_less(d[b]) {
                        Some(i)
                    } else {
                        Some(b)
                    }
                },
                None => Some(i),
            };
        }
        i += 1;
    }
    best
}

/// Area of a detection; none counts as zero.
pub open spec fn area_of(a: Option<u32>) -> u32 {
    match a {
        Some(x) => x,
        None => 0,
    }
}

/// The detection with the largest area, of equally large ones the last.
pub fn largest_ball(areas: &Vec<Option<u32>>) -> (res: Option<usize>)
    ensures
        res is None <==> areas@.len() == 0,
        res matches Some(i) ==> is_last_largest(areas@, i as int),
{
    let total: usize = areas.len();
    if total == 0 {
        return None;
    }
    let mut b: usize = 0;
    let mut i: usize = 1;
    while i < total
        invariant
            total == areas@.len(),
            b < i <= total,
            forall|j: int| 0 <= j < i ==> area_of(#[trigger] areas@[j]) <= area_of(areas@[b as int]),
            forall|j: int| b < j < i ==> area_of(#[trigger] areas@[j]) < area_of(areas@[b as int]),
        decreases total - i,
    {
        let x: u32 = match areas[i] {
            Some(a) => a,
            None => 0,
        };
        let y: u32 = match areas[b] {
            Some(a) => a,
            None => 0,
        };
        if x >= y {
            b = i;
        }
        i += 1;
    }
    Some(b)
}

/// What is known of the detections of a frame when the ball is chosen.
#[derive(Clone, Debug)]
pub struct Candidates {
    /// Age of the last sample of the same camera.
    pub same_age: Option<Double>,
    /// Age of the last sample of any camera.
    pub any_age: Option<Double>,
    /// Distances from where the same camera's last sample predicts the ball.
    pub from_same: Vec<Double>,
    /// How far a detection may be from there.
    pub same_gate: Double,
    /// Distances from the last sample of any camera.
    pub from_any: Vec<Double>,
    /// How far a detection may be from there if that sample is recent.
    pub any_gate: Double,
    /// Areas of the detections.
    pub areas: Vec<Option<u32>>,
}

/// What to predict the ball from.
pub open spec fn predicted_from(same: Option<Double>, any: Option<Double>) -> Prediction {
    if same is Some && same->0.lt(Double { bits: SAME_CAMERA_AGE }) {
        Prediction::SameCamera
    } else if any is Some && any->0.lt(Double { bits: ANY_CAMERA_AGE }) {
        Prediction::AnyCamera
    } else if any is Some {
        Prediction::Stale
    } else {
        Prediction::Nothing
    }
}

/// `i` is the last of the largest areas.
pub open spec fn is_last_largest(areas: Seq<Option<u32>>, i: int) -> bool {
    &&& 0 <= i < areas.len()
    &&& forall|j: int| 0 <= j < areas.len() ==> area_of(#[trigger] areas[j]) <= area_of(areas[i])
    &&& forall|j: int| i < j < areas.len() ==> area_of(#[trigger] areas[j]) < area_of(areas[i])
}

/// Choose the detection that is the ball. With a recent sample of the same camera,
/// the nearest one to the predicted position within its gate; else the nearest one
/// to the last sample of any camera, within a gate if that is recent; without any
/// sample, the largest.
pub fn choose_ball(c: &Candidates) -> (res: Option<usize>)
    requires
        predicted_from(c.same_age, c.any_age) is Stale ==> c.from_any@.len() <= 1 || forall|j: int|
            0 <= j < c.from_any@.len() ==> !(#[trigger] c.from_any@[j]).nan(),
    ensures
        match predicted_from(c.same_age, c.any_age) {
            Prediction::SameCamera => match res {
                Some(i) => is_first_passing(c.from_same@, Some(c.same_gate), i as int),
                None => forall|j: int|
                    0 <= j < c.from_same@.len() ==> !passes(
                        #[trigger] c.from_same@[j],
                        Some(c.same_gate),
                    ),
            },
            Prediction::AnyCamera => match res {
                Some(i) => is_first_passing(c.from_any@, Some(c.any_gate), i as int),
                None => forall|j: int|
                    0 <= j < c.from_any@.len() ==> !passes(
                        #[trigger] c.from_any@[j],
                        Some(c.any_gate),
                    ),
            },
            Prediction::Stale => match res {
                Some(i) => is_first_passing(c.from_any@, None, i as int),
                None => c.from_any@.len() == 0,
            },
            Prediction::Nothing => match res {
                Some(i) => is_last_largest(c.areas@, i as int),
                None => c.areas@.len() == 0,
            },
        },
{
    match prediction(c.same_age, c.any_age) {
        Prediction::SameCamera => nearest_passing(&c.from_same, Some(c.same_gate)),
        Prediction::AnyCamera => nearest_passing(&c.from_any, Some(c.any_gate)),
        Prediction::Stale => {
            let res = nearest_passing(&c.from_any, None);
            proof {
                if res is None && c.from_any@.len() > 0 {
                    assert(passes(c.from_any@[0], None));
                }
            }
            res
        },
        Prediction::Nothing => largest_ball(&c.areas),
    }
}

/// A robot that may be near the ball.
#[derive(Clone, Copy, Debug, PartialEq, Eq, Structural)]
pub struct NearRobot {
    /// Time since its last sample.
    pub age: Double,
    /// Its distance from the ball.
    pub dist: Double,
}

/// Whether a robot's last sample is recent enough.
pub open spec fn present(r: NearRobot) -> bool {
    !(Double { bits: ROBOT_STALE }).lt(r.age) && r.dist.lt(Double { bits: INFINITY_BITS })
}

/// The nearest robot whose last sample is recent, of equally near ones the first.
pub fn nearest_present(robots: &Vec<NearRobot>) -> (res: Option<usize>)
    ensures
        match res {
            Some(i) => i < robots@.len() && present(robots@[i as int]) && (forall|j: int|
                0 <= j < robots@.len() && present(#[trigger] robots@[j]) ==> !robots@[j].dist.lt(
                    robots@[i as int].dist,
                )) && (forall|j: int|
                0 <= j < i && present(#[trigger] robots@[j]) ==> robots@[i as int].dist.lt(
                    robots@[j].dist,
                )),
            None => forall|j: int| 0 <= j < robots@.len() ==> !present(#[trigger] robots@[j]),
        },
{
    let mut best: Option<usize> = None;
    let mut i: usize = 0;
    while i < robots.len()
        invariant
            i <= robots@.len(),
            match best {
                Some(b) => b < i && present(robots@[b as int]) && (forall|j: int|
                    0 <= j < i && present(#[trigger] robots@[j]) ==> !robots@[j].dist.lt(
                        robots@[b as int].dist,
                    )) && (forall|j: int|
                    0 <= j < b && present(#[trigger] robots@[j]) ==> robots@[b as int].dist.lt(
                        robots@[j].dist,
                    )),
                None => forall|j: int| 0 <= j < i ==> !present(#[trigger] robots@[j]),
            },
        decreases robots.len() - i,
    {
        let r = robots[i];
        if !Double::from_bits(ROBOT_STALE).is_less(r.age) {
            let limit = match best {
                Some(b) => robots[b].dist,
                None => Double::from_bits(INFINITY_BITS),
            };
            if r.dist.is_less(limit) {
                best = Some(i);
            }
        }
        i += 1;
    }
    best
}

/// The tracker frame to look at for a time, from the one of an earlier time on: the
/// last of the frames that follow each other and are not later.
pub open spec fn is_reached(times: Seq<Double>, from: int, t: Double, at: int) -> bool {
    &&& from <= at
    &&& at < times.len() || at == from
    &&& forall|k: int| from < k <= at ==> (#[trigger] times[k]).le(t)
    &&& at + 1 < times.len() ==> !times[at + 1].le(t)
}

/// The tracker frame to look at for a time, from the one of an earlier time on.
pub fn reach(times: &Vec<Double>, from: usize, t: Double) -> (res: usize)
    ensures
        is_reached(times@, from as int, t, res as int),
{
    let total: usize = times.len();
    let mut at: usize = from;
    while at < total && at + 1 < total && times[at + 1].is_at_most(t)
        invariant
            total == times@.len(),
            from <= at,
            at < total || at == from,
            forall|k: int| from < k <= at ==> (#[trigger] times@[k]).le(t),
        decreases total - at,
    {
        at += 1;
    }
    at
}

/// Which of two tracker frames gives the ball's height: the nearer one that has a
/// ball and is near enough, the first of equally near ones. `None` stands for a
/// frame without a ball, else it is the distance in time.
pub fn height_from(first: Option<Double>, second: Option<Double>) -> (res: Option<bool>)
    ensures
        ({
            let limit = Double { bits: HEIGHT_AGE };
            let a = first is Some && first->0.lt(limit);
            let b = second is Some && second->0.lt(
                if a {
                    first->0
                } else {
                    limit
                },
            );
            res == if b {
                Some(false)
            } else if a {
                Some(true)
            } else {
                None
            }
        }),
{
    let mut best = Double::from_bits(HEIGHT_AGE);
    let mut res: Option<bool> = None;
    if let Some(a) = first {
        if a.is_less(best) {
            best = a;
            res = Some(true);
        }
    }
    if let Some(b) = second {
        if b.is_less(best) {
            res = Some(false);
        }
    }
    res
}

/// Whether a sample and the one before it, `apart` in time, are one moment seen by
/// two cameras.
pub fn is_dual(cam: u32, previous: Option<u32>, apart: Double) -> (res: bool)
    ensures
        res == (previous is Some && previous->0 != cam && apart.lt(Double { bits: DUAL_AGE })),
{
    match previous {
        Some(p) => p != cam && apart.is_less(Double::from_bits(DUAL_AGE)),
        None => false,
    }
}

// ---------------------------------------------------------------- neighbours

/// `k` is the first of some samples, nearest first, that is of the camera and near
/// enough.
pub open spec fn is_neighbour(cams: Seq<u32>, gaps: Seq<Double>, cam: u32, k: int) -> bool {
    &&& usable(cams, gaps, cam, k)
    &&& forall|j: int| 0 <= j < k ==> !usable(cams, gaps, cam, j)
}

/// A sample that a derivative may span to.
pub open spec fn usable(cams: Seq<u32>, gaps: Seq<Double>, cam: u32, k: int) -> bool {
    0 <= k < NEIGHBOURS && k < cams.len() && k < gaps.len() && cams[k] == cam && gaps[k].le(
        Double { bits: DERIV_MAX_GAP },
    )
}

/// The nearest sample of the same camera: `cams` and `gaps` hold the cameras of the
/// samples on one side and how far they are in time, nearest first.
pub fn neighbour(cams: &Vec<u32>, gaps: &Vec<Double>, cam: u32) -> (res: Option<usize>)
    ensures
        match res {
            Some(k) => is_neighbour(cams@, gaps@, cam, k as int),
            None => forall|k: int| !usable(cams@, gaps@, cam, k),
        },
{
    let mut k: usize = 0;
    while k < NEIGHBOURS && k < cams.len() && k < gaps.len()
        invariant
            forall|j: int| 0 <= j < k ==> !usable(cams@, gaps@, cam, j),
        decreases NEIGHBOURS - k,
    {
        if cams[k] == cam && gaps[k].is_at_most(Double::from_bits(DERIV_MAX_GAP)) {
            return Some(k);
        }
        k += 1;
    }
    None
}

/// The samples a velocity is taken between, from the neighbours on either side of
/// sample `i`; none if there is no neighbour.
pub open spec fn spanned(i: usize, before: Option<usize>, after: Option<usize>) -> Option<
    (usize, usize),
> {
    match (before, after) {
        (Some(a), Some(b)) => Some((a, b)),
        (Some(a), None) => Some((a, i)),
        (None, Some(b)) => Some((i, b)),
        (None, None) => None,
    }
}

/// The samples a velocity is taken between.
pub fn span(i: usize, before: Option<usize>, after: Option<usize>) -> (res: Option<(usize, usize)>)
    ensures
        res == spanned(i, before, after),
{
    match (before, after) {
        (Some(a), Some(b)) => Some((a, b)),
        (Some(a), None) => Some((a, i)),
        (None, Some(b)) => Some((i, b)),
        (None, None) => None,
    }
}

/// Samples around one sample, nearest first on either side.
#[derive(Clone, Debug)]
pub struct Surroundings {
    /// Cameras of the samples before it.
    pub cams_before: Vec<u32>,
    /// How far they are before it.
    pub gaps_before: Vec<Double>,
    /// Cameras of the samples after it.
    pub cams_after: Vec<u32>,
    /// How far they are after it.
    pub gaps_after: Vec<Double>,
}

impl Surroundings {
    /// These are samples around sample `i` of `count`.
    pub open spec fn wf(&self, i: int, count: int) -> bool {
        self.cams_before@.len() <= i && i + self.cams_after@.len() < count
    }

    /// `a` and `b` are the samples a velocity at sample `i` is taken between.
    pub open spec fn spans(&self, cam: u32, i: int, a: int, b: int) -> bool {
        &&& a == i || is_neighbour(self.cams_before@, self.gaps_before@, cam, i - 1 - a)
        &&& b == i || is_neighbour(self.cams_after@, self.gaps_after@, cam, b - i - 1)
        &&& a == i ==> forall|k: int| !usable(self.cams_before@, self.gaps_before@, cam, k)
        &&& b == i ==> forall|k: int| !usable(self.cams_after@, self.gaps_after@, cam, k)
        &&& a < b
    }
}

/// The samples that the velocity at sample `i`, of camera `cam`, is taken between:
/// the nearest ones of the same camera on either side that are near enough, or the
/// sample itself where a side has none; none if neither side has one.
pub fn velocity_span(s: &Surroundings, cam: u32, i: usize, count: usize) -> (res: Option<
    (usize, usize),
>)
    requires
        i < count,
        s.wf(i as int, count as int),
    ensures
        match res {
            Some((a, b)) => s.spans(cam, i as int, a as int, b as int) && b < count,
            None => (forall|k: int| !usable(s.cams_before@, s.gaps_before@, cam, k)) && (forall|
                k: int,
            |
                !usable(s.cams_after@, s.gaps_after@, cam, k)),
        },
{
    let before = match neighbour(&s.cams_before, &s.gaps_before, cam) {
        Some(k) => {
            assert(usable(s.cams_before@, s.gaps_before@, cam, k as int));
            Some(i - 1 - k)
        },
        None => None,
    };
    let after = match neighbour(&s.cams_after, &s.gaps_after, cam) {
        Some(k) => {
            assert(usable(s.cams_after@, s.gaps_after@, cam, k as int));
            Some(i + 1 + k)
        },
        None => None,
    };
    span(i, before, after)
}

/// The last sample before `i`, at most `reach` back, that is of the same camera.
pub open spec fn is_previous(cams: Seq<u32>, i: int, reach: int, j: int) -> bool {
    &&& 0 <= j < i
    &&& i - reach <= j
    &&& cams[j] == cams[i]
    &&& forall|k: int| j < k < i ==> cams[k] != cams[i]
}

/// The last sample before `i`, at most `reach` back, that is of the same camera.
pub fn previous_same_camera(cams: &Vec<u32>, i: usize, reach: usize) -> (res: Option<usize>)
    requires
        i < cams@.len(),
    ensures
        match res {
            Some(j) => is_previous(cams@, i as int, reach as int, j as int),
            None => forall|j: int| !is_previous(cams@, i as int, reach as int, j),
        },
{
    let mut j: usize = i;
    let mut left: usize = reach;
    while j > 0 && left > 0
        invariant
            j <= i < cams@.len(),
            left + (i - j) == reach,
            forall|k: int| j <= k < i ==> cams@[k] != cams@[i as int],
        decreases j,
    {
        j = j - 1;
        left = left - 1;
        if cams[j] == cams[i] {
            return Some(j);
        }
    }
    None
}

/// The first of the `reach` samples after `i` that is of the same camera and has a
/// velocity.
pub open spec fn is_next_moving(
    cams: Seq<u32>,
    moving: Seq<bool>,
    i: int,
    reach: int,
    j: int,
) -> bool {
    &&& i < j <= i + reach
    &&& j < cams.len()
    &&& cams[j] == cams[i] && moving[j]
    &&& forall|k: int| i < k < j ==> !(cams[k] == cams[i] && #[trigger] moving[k])
}

/// The first of the `reach` samples after `i` that is of the same camera and has a
/// velocity.
pub fn next_moving(cams: &Vec<u32>, moving: &Vec<bool>, i: usize, reach: usize) -> (res: Option<
    usize,
>)
    requires
        i < cams@.len(),
        cams@.len() == moving@.len(),
    ensures
        match res {
            Some(j) => is_next_moving(cams@, moving@, i as int, reach as int, j as int),
            None => forall|j: int| !is_next_moving(cams@, moving@, i as int, reach as int, j),
        },
{
    let total: usize = cams.len();
    let mut j: usize = i;
    let mut left: usize = reach;
    while j + 1 < total && left > 0
        invariant
            i <= j < total,
            total == cams@.len(),
            cams@.len() == moving@.len(),
            left + (j - i) == reach,
            forall|k: int| i < k <= j ==> !(cams@[k] == cams@[i as int] && #[trigger] moving@[k]),
        decreases total - j,
    {
        j = j + 1;
        left = left - 1;
        if cams[j] == cams[i] && moving[j] {
            return Some(j);
        }
    }
    None
}

// ---------------------------------------------------------------- local fits

/// Which samples of a window a local fit at `i` uses: those of the same camera that
/// are near enough. `lo` is the window's first sample.
pub open spec fn fit_members(cams: Seq<u32>, apart: Seq<Double>, cam: u32, lo: int) -> Seq<usize>
    decreases cams.len(),
{
    if cams.len() == 0 {
        seq![]
    } else {
        let before = fit_members(cams.drop_last(), apart, cam, lo);
        let k = cams.len() - 1;
        if cams[k] == cam && !(Double { bits: SG_REACH }).lt(apart[k]) {
            before.push((lo + k) as usize)
        } else {
            before
        }
    }
}

/// How many of some places are before `i` and how many after it.
pub open spec fn sides(members: Seq<usize>, i: int) -> (nat, nat)
    decreases members.len(),
{
    if members.len() == 0 {
        (0, 0)
    } else {
        let (a, b) = sides(members.drop_last(), i);
        if members.last() < i {
            (a + 1, b)
        } else if members.last() > i {
            (a, b + 1)
        } else {
            (a, b)
        }
    }
}

/// The samples for a local fit at `i`: `cams` and `apart` hold the cameras of the
/// window from `lo` on and how far its samples are from sample `i` in time. None
/// if there are not enough on either side.
pub fn fit_window(cams: &Vec<u32>, apart: &Vec<Double>, cam: u32, lo: usize, i: usize) -> (res:
    Option<Vec<usize>>)
    requires
        cams@.len() == apart@.len(),
        lo + cams@.len() <= usize::MAX,
    ensures
        ({
            let members = fit_members(cams@, apart@, cam, lo as int);
            let (a, b) = sides(members, i as int);
            match res {
                Some(m) => m@ == members && a >= ROBOT_SG_HALF && b >= ROBOT_SG_HALF,
                None => a < ROBOT_SG_HALF || b < ROBOT_SG_HALF,
            }
        }),
{
    let total: usize = cams.len();
    let mut out: Vec<usize> = Vec::new();
    let mut before: usize = 0;
    let mut after: usize = 0;
    let mut k: usize = 0;
    while k < total
        invariant
            k <= total,
            total == cams@.len() == apart@.len(),
            lo + total <= usize::MAX,
            before <= k,
            after <= k,
            out@ == fit_members(cams@.take(k as int), apart@, cam, lo as int),
            sides(out@, i as int) == (before as nat, after as nat),
        decreases total - k,
    {
        assert(cams@.take(k + 1).drop_last() =~= cams@.take(k as int));
        if cams[k] == cam && !Double::from_bits(SG_REACH).is_less(apart[k]) {
            let at: usize = lo + k;
            let ghost prior = out@;
            if at < i {
                before += 1;
            } else if at > i {
                after += 1;
            }
            out.push(at);
            assert(out@.drop_last() =~= prior);
        }
        k += 1;
    }
    assert(cams@.take(k as int) =~= cams@);
    if before < ROBOT_SG_HALF || after < ROBOT_SG_HALF {
        None
    } else {
        Some(out)
    }
}

/// A step between two consecutive samples of a window.
#[derive(Clone, Copy, Debug, PartialEq, Eq, Structural)]
pub struct WindowStep {
    /// In time.
    pub gap: Double,
    /// In position.
    pub dist: Double,
    /// In orientation.
    pub turn: Double,
}

/// A step over which no derivative is taken.
pub open spec fn interrupts(s: WindowStep) -> bool {
    (Double { bits: SG_MAX_GAP }).lt(s.gap) || (Double { bits: ROBOT_JUMP_POS }).lt(s.dist) || (
    Double { bits: ROBOT_JUMP_ANGLE }).lt(s.turn)
}

/// Whether a window is contiguous and free of jumps.
pub fn is_smooth(steps: &Vec<WindowStep>) -> (res: bool)
    ensures
        res == forall|k: int| 0 <= k < steps@.len() ==> !interrupts(#[trigger] steps@[k]),
{
    let mut k: usize = 0;
    while k < steps.len()
        invariant
            k <= steps@.len(),
            forall|j: int| 0 <= j < k ==> !interrupts(#[trigger] steps@[j]),
        decreases steps.len() - k,
    {
        let s = steps[k];
        if Double::from_bits(SG_MAX_GAP).is_less(s.gap) || Double::from_bits(
            ROBOT_JUMP_POS,
        ).is_less(s.dist) || Double::from_bits(ROBOT_JUMP_ANGLE).is_less(s.turn) {
            assert(interrupts(steps@[k as int]));
            return false;
        }
        k += 1;
    }
    true
}

// ---------------------------------------------------------------- in time

/// The two samples around a time: the last one before it and the first one not
/// before it, or the same one twice at either end.
pub fn around(times: &Vec<Double>, t: Double) -> (res: Option<(usize, usize)>)
    ensures
        res is None <==> times@.len() == 0,
        res matches Some((a, b)) ==> a < times@.len() && b < times@.len() && (partitioned(
            times@,
            t,
            false,
        ) ==> exists|n: int|
            #![trigger splits(times@, t, false, n)]
            splits(times@, t, false, n) && a == (if n == 0 {
                0
            } else {
                n - 1
            }) && b == (if n < times@.len() {
                n
            } else {
                times@.len() - 1
            })),
{
    if times.len() == 0 {
        return None;
    }
    let n: usize = partition_point(times, t, false);
    let a: usize = if n == 0 {
        0
    } else {
        n - 1
    };
    let b: usize = if n < times.len() {
        n
    } else {
        times.len() - 1
    };
    Some((a, b))
}

/// The nearer of the two samples around a time, the first of equally near ones.
pub fn nearer(a: usize, b: usize, a_apart: Double, b_apart: Double) -> (res: usize)
    ensures
        res == if b_apart.lt(a_apart) {
            b
        } else {
            a
        },
{
    if b_apart.is_less(a_apart) {
        b
    } else {
        a
    }
}

/// Whether a robot's pose is known, `apart` from its nearest sample.
pub fn pose_known(apart: Double) -> (res: bool)
    ensures
        res == !(Double { bits: POSE_AGE }).lt(apart),
{
    !Double::from_bits(POSE_AGE).is_less(apart)
}

/// The sample on the other side of a time from sample `i`, if there is one.
pub fn other_side(i: usize, count: usize, not_later: bool) -> (res: Option<usize>)
    ensures
        res == if not_later {
            if i + 1 < count {
                Some((i + 1) as usize)
            } else {
                None
            }
        } else if 0 < i && i - 1 < count {
            Some((i - 1) as usize)
        } else {
            None
        },
{
    if not_later {
        if i < count && i + 1 < count {
            Some(i + 1)
        } else {
            None
        }
    } else if i > 0 && i - 1 < count {
        Some(i - 1)
    } else {
        None
    }
}

/// Whether to interpolate with the sample on the other side, `apart` from the time
/// at `other`, the nearest sample being at `nearest`.
pub fn interpolates(apart: Double, other: Double, nearest: Double) -> (res: bool)
    ensures
        res == (apart.lt(Double { bits: POSE_AGE }) && !other.same(nearest)),
{
    apart.is_less(Double::from_bits(POSE_AGE)) && !other.is_same(nearest)
}

/// A velocity is always taken forward in time over two different samples, and
/// there is one as soon as there is a neighbour.
pub proof fn law_spans_have_two_ends(i: usize, before: Option<usize>, after: Option<usize>)
    requires
        before matches Some(x) ==> x < i,
        after matches Some(y) ==> i < y,
    ensures
        spanned(i, before, after) is Some <==> before is Some || after is Some,
        spanned(i, before, after) matches Some((a, b)) ==> a < b,
{
}

/// The limits are the decimal numbers that they are said to be.
pub proof fn law_limits_in_decimals()
    ensures
        (Double { bits: SAME_CAMERA_AGE }).reads(12, 100),
        !(Double { bits: SAME_CAMERA_AGE }).negative(),
        (Double { bits: ANY_CAMERA_AGE }).reads(5, 10),
        !(Double { bits: ANY_CAMERA_AGE }).negative(),
        (Double { bits: DERIV_MAX_GAP }).reads(6, 100),
        !(Double { bits: DERIV_MAX_GAP }).negative(),
        (Double { bits: ROBOT_STALE }).reads(15, 100),
        !(Double { bits: ROBOT_STALE }).negative(),
        (Double { bits: HEIGHT_AGE }).reads(5, 100),
        !(Double { bits: HEIGHT_AGE }).negative(),
        (Double { bits: DUAL_AGE }).reads(3, 1000),
        !(Double { bits: DUAL_AGE }).negative(),
        (Double { bits: SG_MAX_GAP }).reads(4, 100),
        !(Double { bits: SG_MAX_GAP }).negative(),
        (Double { bits: ROBOT_JUMP_POS }).reads(8, 100),
        !(Double { bits: ROBOT_JUMP_POS }).negative(),
        (Double { bits: ROBOT_JUMP_ANGLE }).reads(8, 10),
        !(Double { bits: ROBOT_JUMP_ANGLE }).negative(),
        (Double { bits: POSE_AGE }).reads(6, 100),
        !(Double { bits: POSE_AGE }).negative(),
{
    lemma_powers();
}

/// The reach of a local fit is one step above the number next to 0.0765.
pub proof fn law_reach_in_decimals()
    ensures
        (Double { bits: (SG_REACH - 1) as u64 }).reads(765, 10000),
        !(Double { bits: SG_REACH }).negative(),
{
    lemma_powers();
}

/// The same camera predicts while its last sample is younger than 0.12 s, else any
/// camera gates while its last sample is younger than 0.5 s, else any older sample is
/// taken, and only without one there is no prediction.
pub proof fn law_predictions_by_age(same: Option<Double>, any: Option<Double>)
    ensures
        ({
            let near = same is Some && (same->0).lt(Double { bits: SAME_CAMERA_AGE });
            let recent = any is Some && (any->0).lt(Double { bits: ANY_CAMERA_AGE });
            &&& predicted_from(same, any) is SameCamera <==> near
            &&& predicted_from(same, any) is AnyCamera <==> !near && recent
            &&& predicted_from(same, any) is Stale <==> !near && !recent && any is Some
            &&& predicted_from(same, any) is Nothing <==> !near && any is None
        }),
{
}

/// What is chosen passes its gate, nothing that passes is nearer, and nothing that
/// passes before it is as near. Without a gate everything passes.
pub proof fn law_nearest_passes(d: Seq<Double>, limit: Option<Double>, i: int, j: int)
    requires
        is_first_passing(d, limit, i),
        0 <= j < d.len(),
    ensures
        limit matches Some(g) ==> d[i].lt(g),
        limit is Some && d[j].lt(limit->0) ==> !d[j].lt(d[i]) && (j < i ==> d[i].lt(d[j])),
        limit is None ==> !d[j].lt(d[i]) && (j < i ==> d[i].lt(d[j])),
{
    if limit is None {
        assert(passes(d[j], limit));
    } else if d[j].lt(limit->0) {
        assert(passes(d[j], limit));
    }
}

/// A distance passes a gate if it is below it.
pub proof fn law_gates(d: Double, g: Double)
    ensures
        passes(d, Some(g)) <==> d.lt(g),
        passes(d, None),
{
}

/// No area is larger than the chosen one and none after it as large; no area is zero.
pub proof fn law_largest_is_chosen(areas: Seq<Option<u32>>, i: int, j: int)
    requires
        is_last_largest(areas, i),
        0 <= j < areas.len(),
    ensures
        areas[j] matches Some(a) ==> (areas[i] matches Some(b) && a <= b && (j > i ==> a < b)) || a == 0,
        areas[i] is None ==> j <= i,
        areas[i] matches Some(b) && b == 0 ==> j <= i,
{
    let a = area_of(areas[j]);
    let b = area_of(areas[i]);
}

/// A robot is present while its last sample is not older than 0.15 s and its distance
/// is finite.
pub proof fn law_present_robots_are_recent(r: NearRobot)
    ensures
        present(r) <==> !(Double { bits: ROBOT_STALE }).lt(r.age) && r.dist.lt(
            Double { bits: INFINITY_BITS },
        ),
{
}

/// Reaching a time passes frames that are not later and stops before one that is.
pub proof fn law_reached_frame_is_the_last_one_not_later(
    times: Seq<Double>,
    from: int,
    t: Double,
    at: int,
    k: int,
)
    requires
        is_reached(times, from, t, at),
        0 <= from,
    ensures
        from <= at,
        from < k <= at ==> times[k].le(t),
        at > from ==> at < times.len(),
        at + 1 < times.len() && !t.nan() && !times[at + 1].nan() ==> t.lt(times[at + 1]),
{
}

/// A neighbour is among the eight nearest, of the camera and at most 0.06 s away, and
/// nothing nearer is.
pub proof fn law_neighbours_are_nearest(cams: Seq<u32>, gaps: Seq<Double>, cam: u32, k: int, j: int)
    requires
        is_neighbour(cams, gaps, cam, k),
    ensures
        0 <= k < 8,
        k < cams.len() && k < gaps.len(),
        cams[k] == cam,
        gaps[k].le(Double { bits: DERIV_MAX_GAP }),
        0 <= j < k ==> cams[j] != cam || !gaps[j].le(Double { bits: DERIV_MAX_GAP }),
{
    if 0 <= j < k {
        assert(!usable(cams, gaps, cam, j));
    }
}

/// A sample can be spanned to exactly if it is one of the eight nearest, of the camera
/// and at most 0.06 s away.
pub proof fn law_usable_samples(cams: Seq<u32>, gaps: Seq<Double>, cam: u32, k: int)
    ensures
        usable(cams, gaps, cam, k) <==> 0 <= k < 8 && k < cams.len() && k < gaps.len() && cams[k] == cam
            && gaps[k].le(Double { bits: DERIV_MAX_GAP }),
{
}

/// Each end of a span is the neighbour on its side, or the sample itself if there is
/// none.
pub proof fn law_spans_reach_to_the_neighbours(i: usize, before: Option<usize>, after: Option<usize>)
    ensures
        spanned(i, before, after) matches Some((a, b)) ==> {
            &&& before matches Some(x) ==> a == x
            &&& before is None ==> a == i
            &&& after matches Some(y) ==> b == y
            &&& after is None ==> b == i
        },
{
}

/// A velocity's span starts at the nearest usable sample before and ends at the nearest
/// one after; where a side has none, the span ends at the sample itself.
pub proof fn law_velocity_spans(s: Surroundings, cam: u32, i: int, a: int, b: int)
    requires
        s.spans(cam, i, a, b),
    ensures
        a <= i <= b,
        a < b,
        a < i ==> is_neighbour(s.cams_before@, s.gaps_before@, cam, i - 1 - a),
        b > i ==> is_neighbour(s.cams_after@, s.gaps_after@, cam, b - i - 1),
        (exists|k: int| usable(s.cams_before@, s.gaps_before@, cam, k)) ==> a < i,
        (exists|k: int| usable(s.cams_after@, s.gaps_after@, cam, k)) ==> b > i,
{
}

/// The previous sample of a camera is within reach, of that camera, and none between is.
pub proof fn law_previous_is_the_last_before(cams: Seq<u32>, i: int, reach: int, j: int)
    ensures
        is_previous(cams, i, reach, j) <==> 0 <= j < i && j + reach >= i && cams[j] == cams[i] && forall|
            k: int,
        |
            j < k < i ==> cams[k] != cams[i],
{
}

/// The next moving sample of a camera is within reach, of that camera and has a
/// velocity, and none between is and has.
pub proof fn law_next_is_the_first_after(
    cams: Seq<u32>,
    moving: Seq<bool>,
    i: int,
    reach: int,
    j: int,
)
    ensures
        is_next_moving(cams, moving, i, reach, j) <==> i < j < cams.len() && j - i <= reach && cams[j]
            == cams[i] && moving[j] && forall|k: int|
            i < k < j && cams[k] == cams[i] ==> !#[trigger] moving[k],
{
}

/// A local fit uses exactly the samples of its window that are of the camera and not
/// farther away than the reach, in order.
pub proof fn law_fits_use_near_samples(cams: Seq<u32>, apart: Seq<Double>, cam: u32, lo: int)
    requires
        cams.len() == apart.len() <= usize::MAX,
        0 <= lo,
        lo + cams.len() <= usize::MAX,
    ensures
        ({
            let p = set_places(
                Seq::new(
                    cams.len(),
                    |k: int| cams[k] == cam && !(Double { bits: SG_REACH }).lt(apart[k]),
                ),
            );
            fit_members(cams, apart, cam, lo) == Seq::new(p.len(), |k: int| (lo + p[k]) as usize)
        }),
{
    lemma_fit_members(cams, apart, cam, lo);
}

proof fn lemma_fit_members(cams: Seq<u32>, apart: Seq<Double>, cam: u32, lo: int)
    requires
        cams.len() <= usize::MAX,
    ensures
        ({
            let p = set_places(
                Seq::new(
                    cams.len(),
                    |k: int| cams[k] == cam && !(Double { bits: SG_REACH }).lt(apart[k]),
                ),
            );
            fit_members(cams, apart, cam, lo) == Seq::new(p.len(), |k: int| (lo + p[k]) as usize)
        }),
    decreases cams.len(),
{
    let flags = Seq::new(
        cams.len(),
        |k: int| cams[k] == cam && !(Double { bits: SG_REACH }).lt(apart[k]),
    );
    let p = set_places(flags);
    if cams.len() > 0 {
        let rest = cams.drop_last();
        let fewer = Seq::new(
            rest.len(),
            |k: int| rest[k] == cam && !(Double { bits: SG_REACH }).lt(apart[k]),
        );
        lemma_fit_members(rest, apart, cam, lo);
        assert(flags.drop_last() =~= fewer);
    }
    assert(fit_members(cams, apart, cam, lo) =~= Seq::new(p.len(), |k: int| (lo + p[k]) as usize));
}

/// The sides of a sample are counted by what comes before it and what comes after.
pub proof fn law_sides_are_counted(members: Seq<usize>, i: int)
    ensures
        sides(members, i).0 == members.filter(|m: usize| m < i).len(),
        sides(members, i).1 == members.filter(|m: usize| m > i).len(),
    decreases members.len(),
{
    reveal(Seq::filter);
    if members.len() > 0 {
        law_sides_are_counted(members.drop_last(), i);
    }
}

/// A step interrupts if it takes more than 0.04 s, moves by more than 0.08 m or turns by
/// more than 0.8 rad.
pub proof fn law_interruptions(s: WindowStep)
    ensures
        interrupts(s) <==> (Double { bits: SG_MAX_GAP }).lt(s.gap) || (Double { bits: ROBOT_JUMP_POS }).lt(
            s.dist,
        ) || (Double { bits: ROBOT_JUMP_ANGLE }).lt(s.turn),
{
}

/// The numbers of samples are as they are said to be.
pub proof fn law_least_numbers()
    ensures
        NEIGHBOURS == 8,
        ROBOT_SG_HALF == 4,
{
}

} // verus!
