//! Dribbling: episodes in which the ball sits in front of a robot's kicker, and how
//! they end.
use vstd::prelude::*;

use crate::double::{Double, lemma_powers};
use crate::logtool::dynamics::load::Team;
use crate::logtool::dynamics::stats::{in_range, law_places_ascend, places, set_places};
use crate::table::Table;

verus! {

/// The mouth starts this far along the heading: 0.05 m.
pub const ZONE_X_MIN: u64 = 0x3FA9_9999_9999_999A;

/// The mouth ends this far along the heading: 0.14 m.
pub const ZONE_X_MAX: u64 = 0x3FC1_EB85_1EB8_51EC;

/// The mouth reaches this far across the heading: 0.05 m.
pub const ZONE_Y: u64 = 0x3FA9_9999_9999_999A;

/// Largest gap between samples inside one episode: 0.15 s.
pub const MAX_GAP: u64 = 0x3FC3_3333_3333_3333;

/// Least duration of an episode: 0.3 s.
pub const MIN_DURATION: u64 = 0x3FD3_3333_3333_3333;

/// Least number of samples of an episode.
pub const MIN_SAMPLES: usize = 10;

/// The robot must get faster than this for the ball to be carried: 0.5 m/s.
pub const CARRY_SPEED: u64 = 0x3FE0_0000_0000_0000;

/// A robot slower than this holds the ball still: 0.3 m/s.
pub const STATIC_SPEED: u64 = 0x3FD3_3333_3333_3333;

/// A robot that accelerates less than this holds the ball still: 1 m/s^2.
pub const STATIC_ACCEL: u64 = 0x3FF0_0000_0000_0000;

/// A robot still faster than this at the end has lost the ball: 0.4 m/s.
pub const LOSS_ROBOT_SPEED: u64 = 0x3FD9_9999_9999_999A;

/// A kick from this time before the end on ends the episode: -0.25 s.
pub const LOSS_KICK_FROM: u64 = 0xBFD0_0000_0000_0000;

/// A kick up to this time after the end ends the episode: 0.1 s.
pub const LOSS_KICK_TO: u64 = 0x3FB9_9999_9999_999A;

/// A ball at least this far along the heading is away: 0.17 m.
pub const LOSS_BALL_X: u64 = 0x3FC5_C28F_5C28_F5C3;

/// A ball at least this far across the heading is away: 0.08 m.
pub const LOSS_BALL_Y: u64 = 0x3FB4_7AE1_47AE_147B;

/// Samples nearer than this are of one frame: 0.0001 s.
pub const SAME_FRAME: u64 = 0x3F1A_36E2_EB1C_432D;

/// Farthest sample that stands for a frame without one: 0.03 s.
pub const NEAR_FRAME: u64 = 0x3F9E_B851_EB85_1EB8;

/// Samples slower than this do not count as moving: 0.3 m/s.
pub const MOVING_SPEED: u64 = 0x3FD3_3333_3333_3333;

// ---------------------------------------------------------------- robots

/// A robot of a team as a key, in the order of teams and ids.
pub open spec fn robot_key(team: Team, id: u32) -> u64 {
    (match team {
        Team::Yellow => 0int,
        Team::Blue => 0x1_0000_0000,
    } + id) as u64
}

/// A robot of a team as a key.
pub fn key_of(team: Team, id: u32) -> (res: u64)
    ensures
        res == robot_key(team, id),
{
    match team {
        Team::Yellow => id as u64,
        Team::Blue => 0x1_0000_0000 + id as u64,
    }
}

/// The robot of a key.
pub fn robot_of(key: u64) -> (res: (Team, u32))
    requires
        key < 0x2_0000_0000,
    ensures
        robot_key(res.0, res.1) == key,
{
    if key < 0x1_0000_0000 {
        (Team::Yellow, key as u32)
    } else {
        (Team::Blue, (key - 0x1_0000_0000) as u32)
    }
}

/// Keys are in the order of teams, yellow first, and ids; different robots have
/// different keys.
pub proof fn law_keys_keep_the_order(team: Team, id: u32, other: Team, other_id: u32)
    ensures
        robot_key(team, id) < 0x2_0000_0000,
        robot_key(team, id) == robot_key(other, other_id) <==> team == other && id == other_id,
        team == other ==> (robot_key(team, id) < robot_key(other, other_id) <==> id < other_id),
        team is Yellow && other is Blue ==> robot_key(team, id) < robot_key(other, other_id),
{
}

/// A robot sample near a ball sample.
#[derive(Clone, Copy, Debug, PartialEq, Eq, Structural)]
pub struct NearSample {
    /// Its camera.
    pub cam: u32,
    /// Its distance in time.
    pub apart: Double,
}

/// Of the same camera and frame.
pub open spec fn same_frame(s: NearSample, cam: u32) -> bool {
    s.cam == cam && s.apart.lt(Double { bits: SAME_FRAME })
}

/// The robot sample for a ball sample of a camera, among those around it: the first
/// one of the same camera and frame, else the nearest one if that is near enough.
pub fn robot_sample(s: &Vec<NearSample>, nearest: usize, cam: u32) -> (res: Option<usize>)
    requires
        nearest < s@.len(),
    ensures
        match res {
            Some(i) => i < s@.len() && ((same_frame(s@[i as int], cam) && forall|j: int|
                0 <= j < i ==> !same_frame(#[trigger] s@[j], cam)) || (i == nearest
                && s@[i as int].apart.lt(Double { bits: NEAR_FRAME }) && forall|j: int|
                0 <= j < s@.len() ==> !same_frame(#[trigger] s@[j], cam))),
            None => !s@[nearest as int].apart.lt(Double { bits: NEAR_FRAME }) && forall|j: int|
                0 <= j < s@.len() ==> !same_frame(#[trigger] s@[j], cam),
        },
{
    let mut i: usize = 0;
    while i < s.len()
        invariant
            i <= s@.len(),
            forall|j: int| 0 <= j < i ==> !same_frame(#[trigger] s@[j], cam),
        decreases s.len() - i,
    {
        if s[i].cam == cam && s[i].apart.is_less(Double::from_bits(SAME_FRAME)) {
            return Some(i);
        }
        i += 1;
    }
    if s[nearest].apart.is_less(Double::from_bits(NEAR_FRAME)) {
        Some(nearest)
    } else {
        None
    }
}

/// Whether a robot sample is of the ball sample's camera and frame.
pub fn pairs_up(cam: u32, ball_cam: u32, apart: Double) -> (res: bool)
    ensures
        res == (cam == ball_cam && !(Double { bits: SAME_FRAME }).lt(apart)),
{
    cam == ball_cam && !Double::from_bits(SAME_FRAME).is_less(apart)
}

/// Whether the ball is in a robot's mouth.
pub fn in_zone(lx: Double, ly: Double) -> (res: bool)
    ensures
        res == (!lx.lt(Double { bits: ZONE_X_MIN }) && !(Double { bits: ZONE_X_MAX }).lt(lx) && !(
        Double { bits: ZONE_Y }).lt(ly)),
{
    !lx.is_less(Double::from_bits(ZONE_X_MIN)) && !Double::from_bits(ZONE_X_MAX).is_less(lx)
        && !Double::from_bits(ZONE_Y).is_less(ly)
}

/// Whether the ball is clearly outside a robot's mouth.
pub fn is_away(lx: Double, ly: Double) -> (res: bool)
    ensures
        res == ((Double { bits: LOSS_BALL_X }).le(lx) || (Double { bits: LOSS_BALL_Y }).le(ly)
            || lx.lt(Double::zero())),
{
    Double::from_bits(LOSS_BALL_X).is_at_most(lx) || Double::from_bits(LOSS_BALL_Y).is_at_most(ly)
        || lx.is_less(Double::zero())
}

// ---------------------------------------------------------------- episodes

/// One moment of holding the ball.
#[derive(Clone, Copy, Debug, PartialEq, Eq, Structural)]
pub struct Held {
    /// Time.
    pub t: Double,
    /// Ball along the heading.
    pub lx: Double,
    /// Ball across the heading.
    pub ly: Double,
    /// Robot speed.
    pub speed: Double,
    /// Acceleration along the heading.
    pub a_h: Double,
    /// Acceleration across the heading.
    pub a_l: Double,
    /// Acceleration.
    pub a_abs: Double,
    /// Angular speed.
    pub omega: Double,
}

/// An episode: the robot's key and its samples.
#[derive(Clone, Debug)]
pub struct Episode {
    /// The robot's key.
    pub key: u64,
    /// The samples.
    pub samples: Vec<Held>,
}

/// The episodes that are under way, by robot.
#[derive(Clone, Debug)]
pub struct Dribbling {
    /// Samples by robot.
    pub open: Table<Vec<Held>>,
}

/// The entries whose flag is `want`.
pub open spec fn chosen(e: Seq<(u64, Vec<Held>)>, stale: Seq<bool>, want: bool) -> Seq<
    (u64, Vec<Held>),
>
    decreases e.len(),
{
    if e.len() == 0 {
        seq![]
    } else {
        let before = chosen(e.drop_last(), stale, want);
        if stale[e.len() - 1] == want {
            before.push(e.last())
        } else {
            before
        }
    }
}

/// Which ages are too old.
pub open spec fn stale_flags(ages: Seq<Double>) -> Seq<bool> {
    Seq::new(ages.len(), |i: int| (Double { bits: MAX_GAP }).lt(ages[i]))
}

/// Episodes as entries.
pub open spec fn entries_of(e: Seq<Episode>) -> Seq<(u64, Vec<Held>)> {
    e.map_values(|x: Episode| (x.key, x.samples))
}

impl Dribbling {
    /// Every open episode has a sample.
    pub open spec fn wf(&self) -> bool {
        &&& self.open.wf()
        &&& forall|i: int|
            0 <= i < self.open.entries().len() ==> (#[trigger] self.open.entries()[i]).1@.len() > 0
    }

    /// Nothing under way.
    pub fn new() -> (res: Self)
        ensures
            res.wf(),
            res.open.entries().len() == 0,
            res.open@ == Map::<u64, Vec<Held>>::empty(),
    {
        Dribbling { open: Table::new() }
    }

    /// Time of the last sample of each open episode, in the order of the robots.
    pub fn last_times(&self) -> (res: Vec<Double>)
        requires
            self.wf(),
        ensures
            res@.len() == self.open.entries().len(),
            forall|i: int|
                0 <= i < res@.len() ==> #[trigger] res@[i] == self.open.entries()[i].1@.last().t,
    {
        let total: usize = self.open.len();
        let mut out: Vec<Double> = Vec::new();
        let mut i: usize = 0;
        while i < total
            invariant
                i <= total,
                total == self.open.entries().len(),
                self.wf(),
                out@.len() == i,
                forall|j: int|
                    0 <= j < i ==> #[trigger] out@[j] == self.open.entries()[j].1@.last().t,
            decreases total - i,
        {
            let (_, v) = self.open.at(i);
            assert(self.open.entries()[i as int].1@.len() > 0);
            out.push(v[v.len() - 1].t);
            i += 1;
        }
        out
    }

    /// Close the episodes whose last sample is too old; `ages` holds how old each
    /// is, in the order of the robots. Returns them in that order.
    pub fn close_stale(&mut self, ages: &Vec<Double>) -> (res: Vec<Episode>)
        requires
            old(self).wf(),
            ages@.len() == old(self).open.entries().len(),
        ensures
            final(self).wf(),
            entries_of(res@) == chosen(old(self).open.entries(), stale_flags(ages@), true),
            final(self).open.entries() == chosen(
                old(self).open.entries(),
                stale_flags(ages@),
                false,
            ),
    {
        let ghost start = self.open.entries();
        let ghost flags = stale_flags(ages@);
        let ghost view = |x: Episode| (x.key, x.samples);
        let total: usize = ages.len();
        let mut out: Vec<Episode> = Vec::new();
        let mut kept: usize = 0;
        let mut a: usize = 0;
        assert(start.skip(0) =~= start);
        assert(out@.map_values(view) =~= chosen(start.take(0), flags, true));
        assert(chosen(start.take(0), flags, false) + start.skip(0) =~= start);
        while a < total
            invariant
                a <= total,
                total == ages@.len() == start.len(),
                flags == stale_flags(ages@),
                view == (|x: Episode| (x.key, x.samples)),
                self.wf(),
                kept == chosen(start.take(a as int), flags, false).len(),
                kept <= a,
                self.open.entries() == chosen(start.take(a as int), flags, false) + start.skip(
                    a as int,
                ),
                out@.map_values(view) == chosen(start.take(a as int), flags, true),
            decreases total - a,
        {
            let ghost now = self.open.entries();
            let ghost left = chosen(start.take(a as int), flags, false);
            assert(start.take(a + 1).drop_last() =~= start.take(a as int));
            assert(now[kept as int] == start[a as int]);
            assert(now.len() == left.len() + start.len() - a);
            if Double::from_bits(MAX_GAP).is_less(ages[a]) {
                assert(flags[a as int]);
                let (key, samples) = self.open.remove_at(kept);
                let ghost before = out@;
                out.push(Episode { key, samples });
                proof {
                    assert(out@.map_values(view) =~= before.map_values(view).push(
                        start[a as int],
                    ));
                    assert(self.open.entries() =~= left + start.skip(a + 1));
                    assert forall|i: int| 0 <= i < self.open.entries().len() implies (
                    #[trigger] self.open.entries()[i]).1@.len() > 0 by {
                        if i < kept {
                            assert(self.open.entries()[i] == now[i]);
                        } else {
                            assert(self.open.entries()[i] == now[i + 1]);
                        }
                    }
                }
            } else {
                assert(!flags[a as int]);
                kept += 1;
                assert(self.open.entries() =~= left.push(start[a as int]) + start.skip(a + 1));
            }
            a += 1;
        }
        assert(start.take(a as int) =~= start);
        assert(self.open.entries() =~= chosen(start, flags, false));
        out
    }

    fn find(&self, key: u64) -> (res: Option<usize>)
        ensures
            match res {
                Some(i) => i < self.open.entries().len() && self.open.entries()[i as int].0 == key,
                None => forall|j: int|
                    0 <= j < self.open.entries().len() ==> (#[trigger] self.open.entries()[j]).0
                        != key,
            },
    {
        let total: usize = self.open.len();
        let mut i: usize = 0;
        while i < total
            invariant
                i <= total,
                total == self.open.entries().len(),
                forall|j: int| 0 <= j < i ==> (#[trigger] self.open.entries()[j]).0 != key,
            decreases total - i,
        {
            if self.open.at(i).0 == key {
                return Some(i);
            }
            i += 1;
        }
        None
    }

    /// Add a sample to a robot's episode, which it opens if there is none.
    pub fn hold(&mut self, key: u64, s: Held)
        requires
            old(self).wf(),
        ensures
            final(self).wf(),
            final(self).open@.dom() == old(self).open@.dom().insert(key),
            final(self).open@[key]@ == (if old(self).open@.contains_key(key) {
                old(self).open@[key]@
            } else {
                Seq::empty()
            }).push(s),
            forall|k: u64|
                k != key && old(self).open@.contains_key(k) ==> #[trigger] final(self).open@[k]
                    == old(self).open@[k],
    {
        let ghost before = self.open@;
        let mut samples: Vec<Held> = Vec::new();
        let place = self.find(key);
        if let Some(i) = place {
            proof {
                crate::table::law_entries_are_the_map(self.open, i as int);
            }
            let (_, v) = self.open.remove_at(i);
            samples = v;
        } else {
            assert(!crate::table::has_key(self.open.entries(), key));
        }
        samples.push(s);
        let ghost rest = self.open;
        proof {
            assert forall|j: int| 0 <= j < rest.entries().len() implies (
            #[trigger] rest.entries()[j]).1@.len() > 0 by {
                if place is Some {
                    let i = place->0 as int;
                    let was = old(self).open.entries();
                    assert(rest.entries() =~= was.remove(i));
                    if j < i {
                        assert(rest.entries()[j] == was[j]);
                    } else {
                        assert(rest.entries()[j] == was[j + 1]);
                    }
                }
            }
        }
        self.open.insert(key, samples);
        proof {
            assert(self.open@.dom() =~= before.dom().insert(key));
            assert forall|j: int| 0 <= j < self.open.entries().len() implies (
            #[trigger] self.open.entries()[j]).1@.len() > 0 by {
                crate::table::law_entries_are_the_map(self.open, j);
                let k = self.open.entries()[j].0;
                if k != key {
                    assert(rest@.contains_key(k));
                    let m = choose|m: int| 0 <= m < rest.entries().len() && (
                    #[trigger] rest.entries()[m]).0 == k;
                    crate::table::law_entries_are_the_map(rest, m);
                    assert(rest.entries()[m].1@.len() > 0);
                }
            }
        }
    }
}

/// The largest of some numbers that are above zero, or zero.
pub open spec fn max_of(s: Seq<Double>) -> Double
    decreases s.len(),
{
    if s.len() == 0 {
        Double::zero()
    } else {
        let before = max_of(s.drop_last());
        if before.lt(s.last()) {
            s.last()
        } else {
            before
        }
    }
}

/// The largest of some numbers that are above zero, or zero.
pub fn largest(s: &Vec<Double>) -> (res: Double)
    ensures
        res == max_of(s@),
{
    let mut best = Double::zero();
    let mut i: usize = 0;
    while i < s.len()
        invariant
            i <= s@.len(),
            best == max_of(s@.take(i as int)),
        decreases s.len() - i,
    {
        assert(s@.take(i + 1).drop_last() =~= s@.take(i as int));
        if best.is_less(s[i]) {
            best = s[i];
        }
        i += 1;
    }
    assert(s@.take(i as int) =~= s@);
    best
}

/// Whether a closed episode counts: enough samples, long enough, and the robot got
/// fast enough.
pub fn is_episode(n: usize, duration: Double, max_speed: Double) -> (res: bool)
    ensures
        res == (n >= MIN_SAMPLES && !duration.lt(Double { bits: MIN_DURATION }) && (Double {
            bits: CARRY_SPEED,
        }).lt(max_speed)),
{
    n >= MIN_SAMPLES && !duration.is_less(Double::from_bits(MIN_DURATION)) && Double::from_bits(
        CARRY_SPEED,
    ).is_less(max_speed)
}

/// How an episode ends.
#[derive(Clone, Copy, Debug, PartialEq, Eq, Structural)]
pub enum End {
    /// With a kick.
    Kick,
    /// The ball got away from a moving robot.
    Loss,
    /// The ball got away from a slow robot.
    Release,
    /// The ball was not seen after it.
    Occluded,
    /// None of these.
    Unknown,
}

impl End {
    /// Its name.
    pub open spec fn spec_name(self) -> Seq<char> {
        match self {
            End::Kick => "kick"@,
            End::Loss => "loss"@,
            End::Release => "release"@,
            End::Occluded => "occluded"@,
            End::Unknown => "unknown"@,
        }
    }

    /// Its name.
    pub fn name(self) -> (res: &'static str)
        ensures
            res@ == self.spec_name(),
    {
        match self {
            End::Kick => "kick",
            End::Loss => "loss",
            End::Release => "release",
            End::Occluded => "occluded",
            End::Unknown => "unknown",
        }
    }
}

/// Some kick is around the end of an episode; `after` holds how long after the end
/// each kick is.
pub open spec fn any_kick(after: Seq<Double>) -> bool {
    exists|i: int|
        0 <= i < after.len() && (Double { bits: LOSS_KICK_FROM }).le(#[trigger] after[i])
            && after[i].le(Double { bits: LOSS_KICK_TO })
}

/// Whether a kick ends an episode.
pub fn is_kicked(after: &Vec<Double>) -> (res: bool)
    ensures
        res == any_kick(after@),
{
    let mut i: usize = 0;
    while i < after.len()
        invariant
            i <= after@.len(),
            forall|j: int|
                0 <= j < i ==> !((Double { bits: LOSS_KICK_FROM }).le(#[trigger] after@[j])
                    && after@[j].le(Double { bits: LOSS_KICK_TO })),
        decreases after.len() - i,
    {
        if Double::from_bits(LOSS_KICK_FROM).is_at_most(after[i]) && after[i].is_at_most(
            Double::from_bits(LOSS_KICK_TO),
        ) {
            assert((Double { bits: LOSS_KICK_FROM }).le(after@[i as int]));
            return true;
        }
        i += 1;
    }
    false
}

/// How an episode ends, from whether a kick is around its end, whether the ball was
/// seen and seen away after it, and the robot's speed.
pub fn classify_end(kicked: bool, away: bool, seen: bool, end_speed: Double) -> (res: End)
    ensures
        res == if kicked {
            End::Kick
        } else if away && (Double { bits: LOSS_ROBOT_SPEED }).lt(end_speed) {
            End::Loss
        } else if away {
            End::Release
        } else if !seen {
            End::Occluded
        } else {
            End::Unknown
        },
{
    if kicked {
        End::Kick
    } else if away && Double::from_bits(LOSS_ROBOT_SPEED).is_less(end_speed) {
        End::Loss
    } else if away {
        End::Release
    } else if !seen {
        End::Occluded
    } else {
        End::Unknown
    }
}

// ---------------------------------------------------------------- many samples

/// What held samples are selected for.
#[derive(Clone, Copy, Debug, PartialEq, Eq, Structural)]
pub enum Pool {
    /// Held still.
    Still,
    /// The robot moves.
    Moving,
}

/// What a held sample is selected by.
#[derive(Clone, Copy, Debug, PartialEq, Eq, Structural)]
pub struct HeldFact {
    /// Robot speed.
    pub speed: Double,
    /// Acceleration along the heading.
    pub a_h: Double,
    /// Acceleration.
    pub a_abs: Double,
}

/// Whether a held sample belongs to a pool.
pub open spec fn belongs(h: HeldFact, p: Pool) -> bool {
    match p {
        Pool::Still => h.speed.lt(Double { bits: STATIC_SPEED }) && h.a_abs.lt(
            Double { bits: STATIC_ACCEL },
        ),
        Pool::Moving => (Double { bits: MOVING_SPEED }).lt(h.speed),
    }
}

/// The held samples of a pool.
pub fn select_held(h: &Vec<HeldFact>, p: Pool) -> (res: Vec<usize>)
    ensures
        res@ == set_places(Seq::new(h@.len(), |i: int| belongs(h@[i], p))),
{
    let mut flags: Vec<bool> = Vec::new();
    let mut i: usize = 0;
    while i < h.len()
        invariant
            i <= h@.len(),
            flags@.len() == i,
            forall|j: int| 0 <= j < i ==> #[trigger] flags@[j] == belongs(h@[j], p),
        decreases h.len() - i,
    {
        flags.push(
            match p {
                Pool::Still => h[i].speed.is_less(Double::from_bits(STATIC_SPEED))
                    && h[i].a_abs.is_less(Double::from_bits(STATIC_ACCEL)),
                Pool::Moving => Double::from_bits(MOVING_SPEED).is_less(h[i].speed),
            },
        );
        i += 1;
    }
    assert(flags@ =~= Seq::new(h@.len(), |i: int| belongs(h@[i], p)));
    places(&flags)
}

/// The held samples whose acceleration along the heading is within `[lo, hi)`; none
/// if there are fewer than thirty.
pub fn select_by_accel(h: &Vec<HeldFact>, lo: Double, hi: Double) -> (res: Option<Vec<usize>>)
    ensures
        ({
            let all = set_places(Seq::new(h@.len(), |i: int| in_range(h@[i].a_h, lo, hi)));
            match res {
                Some(p) => p@ == all && all.len() >= 30,
                None => all.len() < 30,
            }
        }),
{
    let mut flags: Vec<bool> = Vec::new();
    let mut i: usize = 0;
    while i < h.len()
        invariant
            i <= h@.len(),
            flags@.len() == i,
            forall|j: int| 0 <= j < i ==> #[trigger] flags@[j] == in_range(h@[j].a_h, lo, hi),
        decreases h.len() - i,
    {
        flags.push(lo.is_at_most(h[i].a_h) && h[i].a_h.is_less(hi));
        i += 1;
    }
    assert(flags@ =~= Seq::new(h@.len(), |i: int| in_range(h@[i].a_h, lo, hi)));
    let p = places(&flags);
    if p.len() >= 30 {
        Some(p)
    } else {
        None
    }
}

/// How many numbers are at least (or, from above, at most) a threshold.
pub open spec fn beyond(s: Seq<Double>, th: Double, above: bool) -> nat
    decreases s.len(),
{
    if s.len() == 0 {
        0
    } else {
        beyond(s.drop_last(), th, above) + if (above && th.le(s.last())) || (!above
            && s.last().le(th)) {
            1nat
        } else {
            0nat
        }
    }
}

/// How many numbers are at least a threshold, if `above`, or at most, if not.
pub fn count_beyond(s: &Vec<Double>, th: Double, above: bool) -> (res: usize)
    ensures
        res == beyond(s@, th, above),
{
    let mut n: usize = 0;
    let mut i: usize = 0;
    while i < s.len()
        invariant
            i <= s@.len(),
            n <= i,
            n == beyond(s@.take(i as int), th, above),
        decreases s.len() - i,
    {
        assert(s@.take(i + 1).drop_last() =~= s@.take(i as int));
        if (above && th.is_at_most(s[i])) || (!above && s[i].is_at_most(th)) {
            n += 1;
        }
        i += 1;
    }
    assert(s@.take(i as int) =~= s@);
    n
}

/// A stricter threshold leaves no more samples: survival counts fall.
pub proof fn law_survival_falls(s: Seq<Double>, a: Double, b: Double)
    requires
        a.le(b),
    ensures
        beyond(s, b, true) <= beyond(s, a, true),
    decreases s.len(),
{
    if s.len() > 0 {
        law_survival_falls(s.drop_last(), a, b);
    }
}

/// The limits are the decimal numbers that they are said to be.
pub proof fn law_limits_in_decimals()
    ensures
        (Double { bits: ZONE_X_MIN }).reads(5, 100),
        !(Double { bits: ZONE_X_MIN }).negative(),
        (Double { bits: ZONE_X_MAX }).reads(14, 100),
        !(Double { bits: ZONE_X_MAX }).negative(),
        (Double { bits: ZONE_Y }).reads(5, 100),
        !(Double { bits: ZONE_Y }).negative(),
        (Double { bits: MAX_GAP }).reads(15, 100),
        !(Double { bits: MAX_GAP }).negative(),
        (Double { bits: MIN_DURATION }).reads(3, 10),
        !(Double { bits: MIN_DURATION }).negative(),
        (Double { bits: CARRY_SPEED }).reads(5, 10),
        !(Double { bits: CARRY_SPEED }).negative(),
        (Double { bits: STATIC_SPEED }).reads(3, 10),
        !(Double { bits: STATIC_SPEED }).negative(),
        (Double { bits: STATIC_ACCEL }).reads(1, 1),
        !(Double { bits: STATIC_ACCEL }).negative(),
        (Double { bits: LOSS_ROBOT_SPEED }).reads(4, 10),
        !(Double { bits: LOSS_ROBOT_SPEED }).negative(),
        (Double { bits: LOSS_KICK_FROM }).reads(25, 100),
        (Double { bits: LOSS_KICK_FROM }).negative(),
        (Double { bits: LOSS_KICK_TO }).reads(1, 10),
        !(Double { bits: LOSS_KICK_TO }).negative(),
        (Double { bits: LOSS_BALL_X }).reads(17, 100),
        !(Double { bits: LOSS_BALL_X }).negative(),
        (Double { bits: LOSS_BALL_Y }).reads(8, 100),
        !(Double { bits: LOSS_BALL_Y }).negative(),
        (Double { bits: SAME_FRAME }).reads(1, 10000),
        !(Double { bits: SAME_FRAME }).negative(),
        (Double { bits: NEAR_FRAME }).reads(3, 100),
        !(Double { bits: NEAR_FRAME }).negative(),
        (Double { bits: MOVING_SPEED }).reads(3, 10),
        !(Double { bits: MOVING_SPEED }).negative(),
{
    lemma_powers();
}

/// A robot sample is of the ball sample's frame if it is of the same camera and less
/// than 0.0001 s away.
pub proof fn law_same_frame_is_same_camera(s: NearSample, cam: u32)
    ensures
        same_frame(s, cam) <==> s.cam == cam && s.apart.lt(Double { bits: SAME_FRAME }),
{
}

/// The entries chosen are those at the places whose flag is the one wanted, in order.
pub proof fn law_chosen_by_place(e: Seq<(u64, Vec<Held>)>, stale: Seq<bool>, want: bool)
    requires
        stale.len() == e.len() <= usize::MAX,
    ensures
        ({
            let p = set_places(Seq::new(e.len(), |i: int| stale[i] == want));
            chosen(e, stale, want) == Seq::new(p.len(), |k: int| e[p[k] as int])
        }),
        chosen(e, stale, true).len() + chosen(e, stale, false).len() == e.len(),
    decreases e.len(),
{
    lemma_chosen(e, stale, want);
    lemma_chosen_split(e, stale);
}

proof fn lemma_chosen(e: Seq<(u64, Vec<Held>)>, stale: Seq<bool>, want: bool)
    requires
        stale.len() >= e.len(),
        e.len() <= usize::MAX,
    ensures
        ({
            let p = set_places(Seq::new(e.len(), |i: int| stale[i] == want));
            chosen(e, stale, want) == Seq::new(p.len(), |k: int| e[p[k] as int])
        }),
    decreases e.len(),
{
    let flags = Seq::new(e.len(), |i: int| stale[i] == want);
    let p = set_places(flags);
    if e.len() > 0 {
        let rest = e.drop_last();
        let fewer = Seq::new(rest.len(), |i: int| stale[i] == want);
        let q = set_places(fewer);
        lemma_chosen(rest, stale, want);
        assert(flags.drop_last() =~= fewer);
        law_places_ascend(fewer);
        assert forall|k: int| 0 <= k < q.len() implies e[q[k] as int] == rest[#[trigger] q[k] as int] by {
            assert(q[k] < rest.len());
        }
    }
    assert(chosen(e, stale, want) =~= Seq::new(p.len(), |k: int| e[p[k] as int]));
}

proof fn lemma_chosen_split(e: Seq<(u64, Vec<Held>)>, stale: Seq<bool>)
    ensures
        chosen(e, stale, true).len() + chosen(e, stale, false).len() == e.len(),
    decreases e.len(),
{
    if e.len() > 0 {
        lemma_chosen_split(e.drop_last(), stale);
    }
}

/// An episode is stale if its last sample is older than 0.15 s, and keeps its robot and
/// its samples when it is closed.
pub proof fn law_old_episodes_are_stale(ages: Seq<Double>, e: Seq<Episode>, i: int)
    ensures
        stale_flags(ages).len() == ages.len(),
        0 <= i < ages.len() ==> (stale_flags(ages)[i] <==> (Double { bits: MAX_GAP }).lt(ages[i])),
        entries_of(e).len() == e.len(),
        0 <= i < e.len() ==> entries_of(e)[i].0 == e[i].key && entries_of(e)[i].1 == e[i].samples,
{
}

/// Nothing is larger than the largest, which is zero or one of the numbers.
pub proof fn law_largest_bounds(s: Seq<Double>)
    ensures
        !max_of(s).nan() && !max_of(s).lt(Double::zero()),
        forall|i: int| 0 <= i < s.len() ==> !max_of(s).lt(#[trigger] s[i]),
        max_of(s) == Double::zero() || exists|i: int| 0 <= i < s.len() && #[trigger] s[i] == max_of(s),
    decreases s.len(),
{
    if s.len() > 0 {
        let rest = s.drop_last();
        law_largest_bounds(rest);
        assert forall|i: int| 0 <= i < s.len() implies !max_of(s).lt(#[trigger] s[i]) by {
            if i < rest.len() {
                assert(!max_of(rest).lt(rest[i]));
            }
        }
        if max_of(s) != Double::zero() {
            if max_of(rest).lt(s.last()) {
                assert(s[s.len() - 1] == max_of(s));
            } else {
                let i = choose|i: int| 0 <= i < rest.len() && #[trigger] rest[i] == max_of(rest);
                assert(s[i] == max_of(s));
            }
        }
    }
}

/// Each end has its own name.
pub proof fn law_ends_have_names(e: End)
    ensures
        e.spec_name() == "kick"@ <==> e is Kick,
        e.spec_name() == "loss"@ <==> e is Loss,
        e.spec_name() == "release"@ <==> e is Release,
        e.spec_name() == "occluded"@ <==> e is Occluded,
        e.spec_name() == "unknown"@ <==> e is Unknown,
{
    reveal_strlit("kick");
    reveal_strlit("loss");
    reveal_strlit("release");
    reveal_strlit("occluded");
    reveal_strlit("unknown");
    let name = e.spec_name();
    assert(name.len() == match e {
        End::Kick => 4int,
        End::Loss => 4int,
        End::Release => 7int,
        End::Occluded => 8int,
        End::Unknown => 7int,
    });
    assert(name[0] == match e {
        End::Kick => 'k',
        End::Loss => 'l',
        End::Release => 'r',
        End::Occluded => 'o',
        End::Unknown => 'u',
    });
}

/// A kick ends an episode if it is from 0.25 s before its end to 0.1 s after it.
pub proof fn law_kicks_around_the_end(after: Seq<Double>)
    ensures
        any_kick(after) <==> exists|i: int|
            0 <= i < after.len() && !(#[trigger] after[i]).nan() && !after[i].lt(
                Double { bits: LOSS_KICK_FROM },
            ) && !(Double { bits: LOSS_KICK_TO }).lt(after[i]),
{
    if any_kick(after) {
        let i = choose|i: int|
            0 <= i < after.len() && (Double { bits: LOSS_KICK_FROM }).le(#[trigger] after[i])
                && after[i].le(Double { bits: LOSS_KICK_TO });
        assert(!after[i].nan());
    }
    if exists|i: int|
        0 <= i < after.len() && !(#[trigger] after[i]).nan() && !after[i].lt(
            Double { bits: LOSS_KICK_FROM },
        ) && !(Double { bits: LOSS_KICK_TO }).lt(after[i]) {
        let i = choose|i: int|
            0 <= i < after.len() && !(#[trigger] after[i]).nan() && !after[i].lt(
                Double { bits: LOSS_KICK_FROM },
            ) && !(Double { bits: LOSS_KICK_TO }).lt(after[i]);
        assert((Double { bits: LOSS_KICK_FROM }).le(after[i]));
    }
}

/// A robot holds the ball still below 0.3 m/s and 1 m/s^2, and moves above 0.3 m/s:
/// never both.
pub proof fn law_pools_of_held_samples(h: HeldFact)
    ensures
        belongs(h, Pool::Still) <==> h.speed.lt(Double { bits: STATIC_SPEED }) && h.a_abs.lt(
            Double { bits: STATIC_ACCEL },
        ),
        belongs(h, Pool::Moving) <==> (Double { bits: MOVING_SPEED }).lt(h.speed),
        !(belongs(h, Pool::Still) && belongs(h, Pool::Moving)),
{
}

/// The count is that of the numbers at or beyond the threshold.
pub proof fn law_beyond_is_counted(s: Seq<Double>, th: Double)
    ensures
        beyond(s, th, true) == s.filter(|x: Double| th.lt(x) || th.same(x)).len(),
        beyond(s, th, false) == s.filter(|x: Double| x.lt(th) || x.same(th)).len(),
    decreases s.len(),
{
    reveal(Seq::filter);
    if s.len() > 0 {
        law_beyond_is_counted(s.drop_last(), th);
    }
}

/// The numbers of samples are as they are said to be.
pub proof fn law_least_numbers()
    ensures
        MIN_SAMPLES == 10,
{
}

} // verus!
