//! What a camera shows of what the tracker says is there.
//!
//! Distances and bins are computed by the caller; here they are weighed against
//! the limits and counted.
use vstd::prelude::*;

use crate::double::{Double, INFINITY_BITS, lemma_powers};
use crate::logtool::frames::{shows, SLOTS};
use crate::logtool::select::{
    any_within, closest, closest_within, law_closest_is_the_first_least,
};
use crate::logtool::stats::{clamped_bin, no_rates, BinnedRate, Rate};

verus! {

/// Distance from a camera's nadir inside which it certainly has the object in
/// view: 5 m.
pub const CORE_NADIR: u64 = 0x4014_0000_0000_0000;

/// Height below which a tracked ball is on the ground: 0.05 m.
pub const LOW_BALL: u64 = 0x3FA9_9999_9999_999A;

/// A raw ball detection is the tracked ball within this distance: 0.15 m.
pub const BALL_MATCH: u64 = 0x3FC3_3333_3333_3333;

/// The square of [`BALL_MATCH`].
pub const BALL_MATCH_SQUARED: u64 = 0x3F97_0A3D_70A3_D70A;

/// A robot within 0.6 m, squared.
pub const ROBOT_NEAR_SQUARED: u64 = 0x3FD7_0A3D_70A3_D70A;

/// A ball farther than this from every robot is free, an extra ball nearer than
/// this belongs to the robot: 0.3 m.
pub const NEAR_ROBOT: u64 = 0x3FD3_3333_3333_3333;

/// A ball slower than this is slow: 0.5 m/s.
pub const SLOW_BALL: u64 = 0x3FE0_0000_0000_0000;

/// Ball centre within this distance of a robot centre counts as dribbled: 0.11 m.
pub const DRIBBLE_RADIUS: u64 = 0x3FBC_28F5_C28F_5C29;

/// Position differences beyond this are identity mismatches: 0.15 m.
pub const MATCH_OUTLIER: u64 = 0x3FC3_3333_3333_3333;

/// Orientation differences beyond this are gross: 0.5 rad.
pub const GROSS_PHI: u64 = 0x3FE0_0000_0000_0000;

/// Stands for the distance to the nearest robot when there is none: 10 m.
pub const FAR: u64 = 0x4024_0000_0000_0000;

/// Bins over the distance to a camera's nadir.
pub const NADIR_BINS: usize = 20;

/// Distance of a point from the camera's nadir and its bin.
#[derive(Clone, Copy, Debug, PartialEq, Eq, Structural)]
pub struct Nadir {
    /// The distance.
    pub dist: Double,
    /// Its bin.
    pub bin: i64,
}

/// What is known of a tracked robot.
#[derive(Clone, Copy, Debug, PartialEq, Eq, Structural)]
pub struct RobotFact {
    /// Its slot.
    pub slot: u32,
    /// Whether this camera owns the point, if all cameras are calibrated.
    pub owns: Option<bool>,
    /// Where it is with respect to this camera's nadir.
    pub nadir: Option<Nadir>,
}

/// A tracked robot that may be dribbling.
#[derive(Clone, Copy, Debug, PartialEq, Eq, Structural)]
pub struct Dribbler {
    /// Its slot.
    pub slot: u32,
    /// Distance from the ball.
    pub dist: Double,
    /// Whether the ball is in front of it.
    pub ahead: bool,
}

/// What is known of a tracked ball.
#[derive(Clone, Debug)]
pub struct BallFact {
    /// Its height above or below the ground.
    pub height: Double,
    /// Its speed.
    pub speed: Double,
    /// The bin of its speed.
    pub speed_bin: i64,
    /// Whether this camera owns the point, if all cameras are calibrated.
    pub owns: Option<bool>,
    /// Where it is with respect to this camera's nadir.
    pub nadir: Option<Nadir>,
    /// Squared distance of each detected ball.
    pub balls: Vec<Double>,
    /// Squared distance of each detected robot.
    pub robots: Vec<Double>,
    /// Distance to the nearest tracked robot.
    pub nearest: Double,
    /// The bin of that distance.
    pub nearest_bin: i64,
    /// The tracked robots.
    pub dribblers: Vec<Dribbler>,
}

/// Some distance is below a limit.
pub open spec fn some_within(d: Seq<Double>, limit: Double) -> bool {
    exists|i: int| 0 <= i < d.len() && (#[trigger] d[i]).lt(limit)
}

/// A robot holds the ball in front of it and is shown.
pub open spec fn dribbles(d: Dribbler, mask: u32) -> bool {
    !(Double { bits: DRIBBLE_RADIUS }).lt(d.dist) && d.ahead && shows(mask, d.slot)
}

impl BallFact {
    /// Whether a detection is the tracked ball.
    pub open spec fn seen(&self) -> bool {
        some_within(self.balls@, Double { bits: BALL_MATCH_SQUARED })
    }

    /// Whether the ball is on the ground.
    pub open spec fn low(&self) -> bool {
        self.height.lt(Double { bits: LOW_BALL })
    }

    /// Whether this camera must show the ball. With calibrated cameras: it owns
    /// the point and has it well inside its view. Without: it shows a robot
    /// nearby.
    pub open spec fn covered(&self) -> bool {
        match (self.owns, self.nadir) {
            (Some(o), Some(n)) => o && n.dist.lt(Double { bits: CORE_NADIR }),
            _ => some_within(self.robots@, Double { bits: ROBOT_NEAR_SQUARED }),
        }
    }

    /// Whether a shown robot dribbles the ball.
    pub open spec fn dribbled(&self, mask: u32) -> bool {
        exists|i: int|
            0 <= i < self.dribblers@.len() && dribbles(#[trigger] self.dribblers@[i], mask)
    }

    /// Whether the ball is away from every robot.
    pub open spec fn free(&self) -> bool {
        (Double { bits: NEAR_ROBOT }).lt(self.nearest)
    }

    /// Whether the speed is known and low.
    pub open spec fn slow(&self) -> bool {
        self.speed.finite() && self.speed.lt(Double { bits: SLOW_BALL })
    }

    /// Slots are in range.
    pub open spec fn wf(&self) -> bool {
        forall|i: int| 0 <= i < self.dribblers@.len() ==> (#[trigger] self.dribblers@[i]).slot < SLOTS
    }
}

/// Rates per bin after one more trial.
pub open spec fn binned(bins: Seq<Rate>, bin: i64, hit: bool) -> Seq<Rate> {
    let i = clamped_bin(bin, bins.len() as int);
    bins.update(i, bins[i].pushed(hit))
}

/// No bin has more trials than `limit`.
pub open spec fn within(bins: Seq<Rate>, limit: int) -> bool {
    forall|i: int| 0 <= i < bins.len() ==> (#[trigger] bins[i]).trials <= limit
}

/// Rates of how often tracked robots were seen.
#[verifier::ext_equal]
pub struct RobotSeen {
    /// In the camera's region.
    pub in_region: Rate,
    /// Well inside its view.
    pub core: Rate,
    /// By distance from its nadir.
    pub vs_nadir: Seq<Rate>,
}

/// The rates after one more tracked robot.
pub open spec fn robot_recorded(r: RobotSeen, f: RobotFact, mask: u32) -> RobotSeen {
    let seen = shows(mask, f.slot);
    if f.owns == Some(true) {
        match f.nadir {
            Some(n) => RobotSeen {
                in_region: r.in_region.pushed(seen),
                core: if n.dist.lt(Double { bits: CORE_NADIR }) {
                    r.core.pushed(seen)
                } else {
                    r.core
                },
                vs_nadir: binned(r.vs_nadir, n.bin, seen),
            },
            None => RobotSeen { in_region: r.in_region.pushed(seen), ..r },
        }
    } else {
        r
    }
}

/// The rates after some tracked robots.
pub open spec fn robots_recorded(r: RobotSeen, f: Seq<RobotFact>, mask: u32) -> RobotSeen
    decreases f.len(),
{
    if f.len() == 0 {
        r
    } else {
        robot_recorded(robots_recorded(r, f.drop_last(), mask), f.last(), mask)
    }
}

/// How often a camera shows what it should.
#[derive(Clone, Debug)]
pub struct RegionRates {
    /// Ball dropouts by the distance to the nearest robot.
    pub ball_drop_vs_robot_dist: BinnedRate,
    /// Ball seen by the distance to the nearest robot.
    pub ball_seen_vs_robot_dist: BinnedRate,
    /// Dribbled ball seen.
    pub dribbled_ball_seen: Rate,
    /// Free ball seen.
    pub free_ball_seen: Rate,
    /// Robot seen in the camera's region.
    pub robot_seen_in_region: Rate,
    /// Robot seen well inside the view.
    pub robot_seen_core: Rate,
    /// Robot seen by the distance from the nadir.
    pub robot_seen_vs_nadir: BinnedRate,
    /// Ball seen in the camera's region.
    pub ball_seen_in_region: Rate,
    /// Ball seen well inside the view.
    pub ball_seen_core: Rate,
    /// Ball seen by the distance from the nadir.
    pub ball_seen_vs_nadir: BinnedRate,
    /// Ball seen by its speed.
    pub ball_seen_vs_speed: BinnedRate,
    /// Free and slow ball seen.
    pub ball_seen_free_at_rest: Rate,
}

impl RegionRates {
    /// Layouts are as made and rates make sense.
    pub open spec fn wf(&self) -> bool {
        &&& self.ball_drop_vs_robot_dist.wf() && self.ball_drop_vs_robot_dist.bins@.len() == 24
        &&& self.ball_seen_vs_robot_dist.wf() && self.ball_seen_vs_robot_dist.bins@.len() == 30
        &&& self.robot_seen_vs_nadir.wf() && self.robot_seen_vs_nadir.bins@.len() == NADIR_BINS
        &&& self.ball_seen_vs_nadir.wf() && self.ball_seen_vs_nadir.bins@.len() == NADIR_BINS
        &&& self.ball_seen_vs_speed.wf() && self.ball_seen_vs_speed.bins@.len() == 32
        &&& self.dribbled_ball_seen.wf()
        &&& self.free_ball_seen.wf()
        &&& self.robot_seen_in_region.wf()
        &&& self.robot_seen_core.wf()
        &&& self.ball_seen_in_region.wf()
        &&& self.ball_seen_core.wf()
        &&& self.ball_seen_free_at_rest.wf()
    }

    /// No rate has more trials than `limit`.
    pub open spec fn bounded(&self, limit: int) -> bool {
        &&& within(self.ball_drop_vs_robot_dist.bins@, limit)
        &&& within(self.ball_seen_vs_robot_dist.bins@, limit)
        &&& within(self.robot_seen_vs_nadir.bins@, limit)
        &&& within(self.ball_seen_vs_nadir.bins@, limit)
        &&& within(self.ball_seen_vs_speed.bins@, limit)
        &&& self.dribbled_ball_seen.trials <= limit
        &&& self.free_ball_seen.trials <= limit
        &&& self.robot_seen_in_region.trials <= limit
        &&& self.robot_seen_core.trials <= limit
        &&& self.ball_seen_in_region.trials <= limit
        &&& self.ball_seen_core.trials <= limit
        &&& self.ball_seen_free_at_rest.trials <= limit
    }

    /// The rates of tracked robots.
    pub open spec fn robot_seen(&self) -> RobotSeen {
        RobotSeen {
            in_region: self.robot_seen_in_region,
            core: self.robot_seen_core,
            vs_nadir: self.robot_seen_vs_nadir.bins@,
        }
    }

    /// No trials yet.
    pub fn new() -> (res: Self)
        ensures
            res.wf(),
            res.bounded(0),
            res.ball_drop_vs_robot_dist.bins@ == no_rates(24),
            res.ball_seen_vs_robot_dist.bins@ == no_rates(30),
            res.dribbled_ball_seen == Rate::spec_none(),
            res.free_ball_seen == Rate::spec_none(),
            res.robot_seen_in_region == Rate::spec_none(),
            res.robot_seen_core == Rate::spec_none(),
            res.robot_seen_vs_nadir.bins@ == no_rates(NADIR_BINS as nat),
            res.ball_seen_in_region == Rate::spec_none(),
            res.ball_seen_core == Rate::spec_none(),
            res.ball_seen_vs_nadir.bins@ == no_rates(NADIR_BINS as nat),
            res.ball_seen_vs_speed.bins@ == no_rates(32),
            res.ball_seen_free_at_rest == Rate::spec_none(),
    {
        RegionRates {
            ball_drop_vs_robot_dist: BinnedRate::new(24),
            ball_seen_vs_robot_dist: BinnedRate::new(30),
            dribbled_ball_seen: Rate::none(),
            free_ball_seen: Rate::none(),
            robot_seen_in_region: Rate::none(),
            robot_seen_core: Rate::none(),
            robot_seen_vs_nadir: BinnedRate::new(NADIR_BINS),
            ball_seen_in_region: Rate::none(),
            ball_seen_core: Rate::none(),
            ball_seen_vs_nadir: BinnedRate::new(NADIR_BINS),
            ball_seen_vs_speed: BinnedRate::new(32),
            ball_seen_free_at_rest: Rate::none(),
        }
    }

    /// Record the tracked robots of a frame that shows the robots in `mask`.
    pub fn record_robots(&mut self, facts: &Vec<RobotFact>, mask: u32)
        requires
            old(self).wf(),
            old(self).bounded(u64::MAX - facts@.len()),
            forall|i: int| 0 <= i < facts@.len() ==> (#[trigger] facts@[i]).slot < SLOTS,
        ensures
            final(self).wf(),
            final(self).robot_seen() == robots_recorded(old(self).robot_seen(), facts@, mask),
            *final(self) == (RegionRates {
                robot_seen_in_region: final(self).robot_seen_in_region,
                robot_seen_core: final(self).robot_seen_core,
                robot_seen_vs_nadir: final(self).robot_seen_vs_nadir,
                ..*old(self)
            }),
    {
        let total: usize = facts.len();
        let mut i: usize = 0;
        while i < facts.len()
            invariant
                i <= facts@.len(),
                total == facts@.len(),
                self.wf(),
                forall|j: int| 0 <= j < facts@.len() ==> (#[trigger] facts@[j]).slot < SLOTS,
                self.robot_seen_in_region.trials <= u64::MAX - total + i,
                self.robot_seen_core.trials <= u64::MAX - total + i,
                within(self.robot_seen_vs_nadir.bins@, u64::MAX - total + i),
                self.robot_seen() == robots_recorded(
                    old(self).robot_seen(),
                    facts@.take(i as int),
                    mask,
                ),
                *self == (RegionRates {
                    robot_seen_in_region: self.robot_seen_in_region,
                    robot_seen_core: self.robot_seen_core,
                    robot_seen_vs_nadir: self.robot_seen_vs_nadir,
                    ..*old(self)
                }),
            decreases facts.len() - i,
        {
            assert(facts@.take(i + 1).drop_last() =~= facts@.take(i as int));
            let f = facts[i];
            assert(facts@[i as int].slot < SLOTS);
            let owned = match f.owns {
                Some(o) => o,
                None => false,
            };
            if owned {
                let seen = mask & (1u32 << f.slot) != 0;
                let mut r = self.robot_seen_in_region;
                r.push(seen);
                self.robot_seen_in_region = r;
                if let Some(n) = f.nadir {
                    self.robot_seen_vs_nadir.push(n.bin, seen);
                    if n.dist.is_less(Double::from_bits(CORE_NADIR)) {
                        let mut c = self.robot_seen_core;
                        c.push(seen);
                        self.robot_seen_core = c;
                    }
                }
            }
            i += 1;
        }
        assert(facts@.take(i as int) =~= facts@);
    }

    /// Record a tracked ball in a frame that shows the robots in `mask`.
    pub fn record_ball(&mut self, b: &BallFact, mask: u32)
        requires
            old(self).wf(),
            old(self).bounded(u64::MAX - 1),
            b.wf(),
        ensures
            final(self).wf(),
            final(self).ball_drop_vs_robot_dist == old(self).ball_drop_vs_robot_dist,
            final(self).robot_seen() == old(self).robot_seen(),
            // in the camera's region
            final(self).ball_seen_in_region == if b.low() && b.owns == Some(true) {
                old(self).ball_seen_in_region.pushed(b.seen())
            } else {
                old(self).ball_seen_in_region
            },
            final(self).ball_seen_vs_nadir.bins@ == if b.low() && b.owns == Some(true)
                && b.nadir is Some {
                binned(old(self).ball_seen_vs_nadir.bins@, b.nadir->0.bin, b.seen())
            } else {
                old(self).ball_seen_vs_nadir.bins@
            },
            final(self).ball_seen_core == if b.low() && b.owns == Some(true) && b.nadir is Some
                && b.nadir->0.dist.lt(Double { bits: CORE_NADIR }) {
                old(self).ball_seen_core.pushed(b.seen())
            } else {
                old(self).ball_seen_core
            },
            // where it must be seen
            final(self).ball_seen_vs_robot_dist.bins@ == if b.low() && b.covered() {
                binned(old(self).ball_seen_vs_robot_dist.bins@, b.nearest_bin, b.seen())
            } else {
                old(self).ball_seen_vs_robot_dist.bins@
            },
            final(self).ball_seen_vs_speed.bins@ == if b.low() && b.covered() && b.speed.finite() {
                binned(old(self).ball_seen_vs_speed.bins@, b.speed_bin, b.seen())
            } else {
                old(self).ball_seen_vs_speed.bins@
            },
            final(self).free_ball_seen == if b.low() && b.covered() && b.free() {
                old(self).free_ball_seen.pushed(b.seen())
            } else {
                old(self).free_ball_seen
            },
            final(self).ball_seen_free_at_rest == if b.low() && b.covered() && b.free()
                && b.slow() {
                old(self).ball_seen_free_at_rest.pushed(b.seen())
            } else {
                old(self).ball_seen_free_at_rest
            },
            final(self).dribbled_ball_seen == if b.low() && b.covered() && b.dribbled(mask) {
                old(self).dribbled_ball_seen.pushed(b.seen())
            } else {
                old(self).dribbled_ball_seen
            },
    {
        if !b.height.is_less(Double::from_bits(LOW_BALL)) {
            return ;
        }
        let seen = any_within(&b.balls, Double::from_bits(BALL_MATCH_SQUARED));
        let owned = match b.owns {
            Some(o) => o,
            None => false,
        };
        if owned {
            let mut r = self.ball_seen_in_region;
            r.push(seen);
            self.ball_seen_in_region = r;
            if let Some(n) = b.nadir {
                self.ball_seen_vs_nadir.push(n.bin, seen);
                if n.dist.is_less(Double::from_bits(CORE_NADIR)) {
                    let mut c = self.ball_seen_core;
                    c.push(seen);
                    self.ball_seen_core = c;
                }
            }
        }
        let covered = match (b.owns, b.nadir) {
            (Some(o), Some(n)) => o && n.dist.is_less(Double::from_bits(CORE_NADIR)),
            _ => any_within(&b.robots, Double::from_bits(ROBOT_NEAR_SQUARED)),
        };
        if covered {
            self.ball_seen_vs_robot_dist.push(b.nearest_bin, seen);
            if b.speed.is_finite() {
                self.ball_seen_vs_speed.push(b.speed_bin, seen);
            }
            if Double::from_bits(NEAR_ROBOT).is_less(b.nearest) {
                let mut r = self.free_ball_seen;
                r.push(seen);
                self.free_ball_seen = r;
                if b.speed.is_finite() && b.speed.is_less(Double::from_bits(SLOW_BALL)) {
                    let mut s = self.ball_seen_free_at_rest;
                    s.push(seen);
                    self.ball_seen_free_at_rest = s;
                }
            }
            if any_dribbles(&b.dribblers, mask) {
                let mut r = self.dribbled_ball_seen;
                r.push(seen);
                self.dribbled_ball_seen = r;
            }
        }
    }

    /// Record the numbers of balls in a frame between its neighbours, with a tracked
    /// ball whose nearest robot is at a distance in the given bin: where both
    /// neighbours show a ball, a frame without one is a dropout.
    pub fn record_drop(&mut self, before: u32, balls: u32, after: u32, nearest_bin: i64)
        requires
            old(self).wf(),
            old(self).bounded(u64::MAX - 1),
        ensures
            final(self).wf(),
            final(self).ball_drop_vs_robot_dist.bins@ == if before > 0 && after > 0 {
                binned(old(self).ball_drop_vs_robot_dist.bins@, nearest_bin, balls == 0)
            } else {
                old(self).ball_drop_vs_robot_dist.bins@
            },
            *final(self) == (RegionRates {
                ball_drop_vs_robot_dist: final(self).ball_drop_vs_robot_dist,
                ..*old(self)
            }),
    {
        if before > 0 && after > 0 {
            self.ball_drop_vs_robot_dist.push(nearest_bin, balls == 0);
        }
    }

    /// Fold the rates of another camera in.
    pub fn merge(&mut self, o: &Self)
        requires
            old(self).wf(),
            o.wf(),
            old(self).bounded(0x7FFF_FFFF_FFFF_FFFF),
            o.bounded(0x7FFF_FFFF_FFFF_FFFF),
        ensures
            final(self).wf(),
            final(self).dribbled_ball_seen == old(self).dribbled_ball_seen.merged(
                o.dribbled_ball_seen,
            ),
            final(self).free_ball_seen == old(self).free_ball_seen.merged(o.free_ball_seen),
            final(self).robot_seen_in_region == old(self).robot_seen_in_region.merged(
                o.robot_seen_in_region,
            ),
            final(self).robot_seen_core == old(self).robot_seen_core.merged(o.robot_seen_core),
            final(self).ball_seen_in_region == old(self).ball_seen_in_region.merged(
                o.ball_seen_in_region,
            ),
            final(self).ball_seen_core == old(self).ball_seen_core.merged(o.ball_seen_core),
            final(self).ball_seen_free_at_rest == old(self).ball_seen_free_at_rest.merged(
                o.ball_seen_free_at_rest,
            ),
            bins_merged(
                final(self).ball_drop_vs_robot_dist.bins@,
                old(self).ball_drop_vs_robot_dist.bins@,
                o.ball_drop_vs_robot_dist.bins@,
            ),
            bins_merged(
                final(self).ball_seen_vs_robot_dist.bins@,
                old(self).ball_seen_vs_robot_dist.bins@,
                o.ball_seen_vs_robot_dist.bins@,
            ),
            bins_merged(
                final(self).robot_seen_vs_nadir.bins@,
                old(self).robot_seen_vs_nadir.bins@,
                o.robot_seen_vs_nadir.bins@,
            ),
            bins_merged(
                final(self).ball_seen_vs_nadir.bins@,
                old(self).ball_seen_vs_nadir.bins@,
                o.ball_seen_vs_nadir.bins@,
            ),
            bins_merged(
                final(self).ball_seen_vs_speed.bins@,
                old(self).ball_seen_vs_speed.bins@,
                o.ball_seen_vs_speed.bins@,
            ),
    {
        self.ball_drop_vs_robot_dist.merge(&o.ball_drop_vs_robot_dist);
        self.ball_seen_vs_robot_dist.merge(&o.ball_seen_vs_robot_dist);
        self.robot_seen_vs_nadir.merge(&o.robot_seen_vs_nadir);
        self.ball_seen_vs_nadir.merge(&o.ball_seen_vs_nadir);
        self.ball_seen_vs_speed.merge(&o.ball_seen_vs_speed);
        let mut r = self.dribbled_ball_seen;
        r.merge(&o.dribbled_ball_seen);
        self.dribbled_ball_seen = r;
        r = self.free_ball_seen;
        r.merge(&o.free_ball_seen);
        self.free_ball_seen = r;
        r = self.robot_seen_in_region;
        r.merge(&o.robot_seen_in_region);
        self.robot_seen_in_region = r;
        r = self.robot_seen_core;
        r.merge(&o.robot_seen_core);
        self.robot_seen_core = r;
        r = self.ball_seen_in_region;
        r.merge(&o.ball_seen_in_region);
        self.ball_seen_in_region = r;
        r = self.ball_seen_core;
        r.merge(&o.ball_seen_core);
        self.ball_seen_core = r;
        r = self.ball_seen_free_at_rest;
        r.merge(&o.ball_seen_free_at_rest);
        self.ball_seen_free_at_rest = r;
    }
}

/// Each bin holds the trials and hits of both.
pub open spec fn bins_merged(all: Seq<Rate>, a: Seq<Rate>, b: Seq<Rate>) -> bool {
    &&& all.len() == a.len() == b.len()
    &&& forall|i: int| 0 <= i < all.len() ==> #[trigger] all[i] == a[i].merged(b[i])
}

fn any_dribbles(d: &Vec<Dribbler>, mask: u32) -> (res: bool)
    requires
        forall|i: int| 0 <= i < d@.len() ==> (#[trigger] d@[i]).slot < SLOTS,
    ensures
        res == exists|i: int| 0 <= i < d@.len() && dribbles(#[trigger] d@[i], mask),
{
    let mut i: usize = 0;
    while i < d.len()
        invariant
            i <= d@.len(),
            forall|j: int| 0 <= j < d@.len() ==> (#[trigger] d@[j]).slot < SLOTS,
            forall|j: int| 0 <= j < i ==> !dribbles(#[trigger] d@[j], mask),
        decreases d.len() - i,
    {
        let r = d[i];
        assert(d@[i as int].slot < SLOTS);
        if !Double::from_bits(DRIBBLE_RADIUS).is_less(r.dist) && r.ahead && mask & (1u32 << r.slot)
            != 0 {
            assert(dribbles(d@[i as int], mask));
            return true;
        }
        i += 1;
    }
    false
}

/// The least of some distances, or 10 m when none is finite.
pub fn nearest_robot_dist(d: &Vec<Double>) -> (res: Double)
    ensures
        res == match closest(d@) {
            Some(i) => if d@[i].finite() {
                d@[i]
            } else {
                Double { bits: FAR }
            },
            None => Double { bits: FAR },
        },
{
    match closest_within(d, Double::from_bits(INFINITY_BITS)) {
        Some(i) => if d[i].is_finite() {
            d[i]
        } else {
            Double::from_bits(FAR)
        },
        None => {
            proof {
                crate::logtool::select::law_closest_is_the_first_least(d@);
            }
            Double::from_bits(FAR)
        },
    }
}

// ---------------------------------------------------------------- extra balls

/// Counts of frames with several balls, and of the balls that are not the tracked
/// one.
#[derive(Clone, Copy, Debug, PartialEq, Eq, Structural)]
pub struct ExtraBalls {
    /// Frames with several balls.
    pub frames_multi_ball: u64,
    /// Those of them in which no ball is the tracked one.
    pub multi_ball_unattributed: u64,
    /// Balls beside the tracked one.
    pub extra_balls: u64,
    /// Those of them near a robot.
    pub extra_near_robot: u64,
}

/// For each ball of a frame: nothing for the tracked one, else the robot that it
/// belongs to, if one is near.
pub open spec fn is_extra(balls: int, tracked_ball: Option<usize>, b: int) -> bool {
    balls > 1 && tracked_ball is Some && tracked_ball != Some(b as usize)
}

/// The robot near an extra ball: the closest one, if it is near enough.
pub open spec fn robot_near(d: Seq<Double>) -> Option<int> {
    match closest(d) {
        Some(r) => if d[r].lt(Double { bits: NEAR_ROBOT }) {
            Some(r)
        } else {
            None
        },
        None => None,
    }
}

/// How many of the first `n` balls are extra.
pub open spec fn extra_count(balls: int, tracked_ball: Option<usize>, n: nat) -> nat
    decreases n,
{
    if n == 0 {
        0
    } else {
        extra_count(balls, tracked_ball, (n - 1) as nat) + if is_extra(balls, tracked_ball, n - 1) {
            1nat
        } else {
            0nat
        }
    }
}

/// How many of the first `n` balls are extra and near a robot.
pub open spec fn near_count(d: Seq<Vec<Double>>, tracked_ball: Option<usize>, n: nat) -> nat
    decreases n,
{
    if n == 0 {
        0
    } else {
        near_count(d, tracked_ball, (n - 1) as nat) + if is_extra(d.len() as int, tracked_ball, n - 1)
            && robot_near(d[n - 1]@) is Some {
            1nat
        } else {
            0nat
        }
    }
}

/// An extra ball: which ball it is and the robot near it, if any.
#[derive(Clone, Copy, Debug, PartialEq, Eq, Structural)]
pub struct Extra {
    /// The ball.
    pub ball: usize,
    /// The robot.
    pub robot: Option<usize>,
}

/// The extra balls of a frame.
pub open spec fn extras(d: Seq<Vec<Double>>, tracked_ball: Option<usize>, n: nat) -> Seq<(int, Option<int>)>
    decreases n,
{
    if n == 0 {
        seq![]
    } else {
        let before = extras(d, tracked_ball, (n - 1) as nat);
        if is_extra(d.len() as int, tracked_ball, n - 1) {
            before.push((n - 1, robot_near(d[n - 1]@)))
        } else {
            before
        }
    }
}

/// An extra ball as integers.
pub open spec fn extra_view(e: Extra) -> (int, Option<int>) {
    (
        e.ball as int,
        match e.robot {
            Some(r) => Some(r as int),
            None => None,
        },
    )
}

impl ExtraBalls {
    /// No frames yet.
    pub fn new() -> (res: Self)
        ensures
            res == (ExtraBalls {
                frames_multi_ball: 0,
                multi_ball_unattributed: 0,
                extra_balls: 0,
                extra_near_robot: 0,
            }),
    {
        ExtraBalls {
            frames_multi_ball: 0,
            multi_ball_unattributed: 0,
            extra_balls: 0,
            extra_near_robot: 0,
        }
    }

    /// Record a frame whose `d[b]` holds the distance of ball `b` to each robot;
    /// `tracked_ball` is the tracked ball, if it is among them. Returns the extra balls.
    pub fn record(&mut self, d: &Vec<Vec<Double>>, tracked_ball: Option<usize>) -> (res: Vec<Extra>)
        requires
            old(self).frames_multi_ball < u64::MAX,
            old(self).multi_ball_unattributed < u64::MAX,
            old(self).extra_balls + d@.len() <= u64::MAX,
            old(self).extra_near_robot + d@.len() <= u64::MAX,
        ensures
            final(self).frames_multi_ball == old(self).frames_multi_ball + (if d@.len() > 1 {
                1int
            } else {
                0
            }),
            final(self).multi_ball_unattributed == old(self).multi_ball_unattributed + (
            if d@.len() > 1 && tracked_ball is None {
                1int
            } else {
                0
            }),
            final(self).extra_balls == old(self).extra_balls + extra_count(
                d@.len() as int,
                tracked_ball,
                d@.len(),
            ),
            final(self).extra_near_robot == old(self).extra_near_robot + near_count(
                d@,
                tracked_ball,
                d@.len(),
            ),
            res@.map_values(|e: Extra| extra_view(e)) == extras(d@, tracked_ball, d@.len()),
    {
        let total: usize = d.len();
        let mut res: Vec<Extra> = Vec::new();
        let ghost view = |e: Extra| extra_view(e);
        if d.len() > 1 {
            self.frames_multi_ball = self.frames_multi_ball + 1;
            if tracked_ball.is_none() {
                self.multi_ball_unattributed = self.multi_ball_unattributed + 1;
            }
        }
        let mut b: usize = 0;
        while b < d.len()
            invariant
                b <= d@.len(),
                total == d@.len(),
                view == (|e: Extra| extra_view(e)),
                self.frames_multi_ball == old(self).frames_multi_ball + (if d@.len() > 1 {
                    1int
                } else {
                    0
                }),
                self.multi_ball_unattributed == old(self).multi_ball_unattributed + (if d@.len() > 1
                    && tracked_ball is None {
                    1int
                } else {
                    0
                }),
                old(self).extra_balls + d@.len() <= u64::MAX,
                old(self).extra_near_robot + d@.len() <= u64::MAX,
                extra_count(d@.len() as int, tracked_ball, b as nat) <= b,
                near_count(d@, tracked_ball, b as nat) <= b,
                self.extra_balls == old(self).extra_balls + extra_count(
                    d@.len() as int,
                    tracked_ball,
                    b as nat,
                ),
                self.extra_near_robot == old(self).extra_near_robot + near_count(
                    d@,
                    tracked_ball,
                    b as nat,
                ),
                res@.map_values(view) == extras(d@, tracked_ball, b as nat),
            decreases d.len() - b,
        {
            let other = match tracked_ball {
                Some(r) => r != b,
                None => false,
            };
            if total > 1 && other {
                assert(is_extra(d@.len() as int, tracked_ball, b as int));
                self.extra_balls = self.extra_balls + 1;
                let robot = closest_within(&d[b], Double::from_bits(NEAR_ROBOT));
                if robot.is_some() {
                    self.extra_near_robot = self.extra_near_robot + 1;
                }
                let ghost before = res@;
                let e = Extra { ball: b, robot };
                res.push(e);
                proof {
                    assert(robot_near(d@[b as int]@) == extra_view(e).1);
                    assert(res@.map_values(view) =~= before.map_values(view).push(extra_view(e)));
                }
            } else {
                assert(!is_extra(d@.len() as int, tracked_ball, b as int));
            }
            b += 1;
        }
        res
    }

    /// Fold the counts of another log in.
    pub fn merge(&mut self, o: &Self)
        requires
            old(self).frames_multi_ball + o.frames_multi_ball <= u64::MAX,
            old(self).multi_ball_unattributed + o.multi_ball_unattributed <= u64::MAX,
            old(self).extra_balls + o.extra_balls <= u64::MAX,
            old(self).extra_near_robot + o.extra_near_robot <= u64::MAX,
        ensures
            final(self).frames_multi_ball == old(self).frames_multi_ball + o.frames_multi_ball,
            final(self).multi_ball_unattributed == old(self).multi_ball_unattributed
                + o.multi_ball_unattributed,
            final(self).extra_balls == old(self).extra_balls + o.extra_balls,
            final(self).extra_near_robot == old(self).extra_near_robot + o.extra_near_robot,
    {
        self.frames_multi_ball = self.frames_multi_ball + o.frames_multi_ball;
        self.multi_ball_unattributed = self.multi_ball_unattributed + o.multi_ball_unattributed;
        self.extra_balls = self.extra_balls + o.extra_balls;
        self.extra_near_robot = self.extra_near_robot + o.extra_near_robot;
    }
}

/// Without a tracked ball among the detections no ball is extra; with one, every
/// other ball is, and at most all of them are near a robot.
pub proof fn law_extra_balls_are_the_others(d: Seq<Vec<Double>>, tracked_ball: Option<usize>)
    requires
        tracked_ball matches Some(r) ==> r < d.len(),
        d.len() <= usize::MAX,
    ensures
        extra_count(d.len() as int, tracked_ball, d.len()) == if tracked_ball is Some && d.len() > 1 {
            d.len() - 1
        } else {
            0
        },
        near_count(d, tracked_ball, d.len()) <= extra_count(d.len() as int, tracked_ball, d.len()),
{
    lemma_extra_counts(d, tracked_ball, d.len());
}

proof fn lemma_extra_counts(d: Seq<Vec<Double>>, tracked_ball: Option<usize>, n: nat)
    requires
        tracked_ball matches Some(r) ==> r < d.len(),
        d.len() <= usize::MAX,
        n <= d.len(),
    ensures
        extra_count(d.len() as int, tracked_ball, n) == if tracked_ball is Some && d.len() > 1 {
            if n > tracked_ball->0 {
                n - 1
            } else {
                n as int
            }
        } else {
            0
        },
        near_count(d, tracked_ball, n) <= extra_count(d.len() as int, tracked_ball, n),
    decreases n,
{
    if n > 0 {
        lemma_extra_counts(d, tracked_ball, (n - 1) as nat);
    }
}

// ---------------------------------------------------------------- two cameras

/// Where a slot first stands in a list.
pub open spec fn is_first(slots: Seq<u32>, slot: u32, i: int) -> bool {
    &&& 0 <= i < slots.len()
    &&& slots[i] == slot
    &&& forall|j: int| 0 <= j < i ==> slots[j] != slot
}

/// Where a slot first stands in a list.
pub fn find_slot(slots: &Vec<u32>, slot: u32) -> (res: Option<usize>)
    ensures
        match res {
            Some(i) => is_first(slots@, slot, i as int),
            None => !slots@.contains(slot),
        },
{
    let mut i: usize = 0;
    while i < slots.len()
        invariant
            i <= slots@.len(),
            forall|j: int| 0 <= j < i ==> slots@[j] != slot,
        decreases slots.len() - i,
    {
        if slots[i] == slot {
            return Some(i);
        }
        i += 1;
    }
    None
}

/// A robot seen by two cameras: its place in either frame.
#[derive(Clone, Copy, Debug, PartialEq, Eq, Structural)]
pub struct Shared {
    /// Place in the first camera's frame.
    pub mine: usize,
    /// Place in the second camera's frame.
    pub theirs: usize,
}

/// The robots that both of two frames show: every robot of the first frame whose
/// slot the second one has too, with the first robot of that slot there.
pub fn shared_robots(mine: &Vec<u32>, theirs: &Vec<u32>) -> (res: Vec<Shared>)
    ensures
        forall|k: int|
            0 <= k < res@.len() ==> {
                &&& (#[trigger] res@[k]).mine < mine@.len()
                &&& is_first(theirs@, mine@[res@[k].mine as int], res@[k].theirs as int)
            },
        forall|k: int, l: int| 0 <= k < l < res@.len() ==> res@[k].mine < res@[l].mine,
        forall|i: int|
            0 <= i < mine@.len() && theirs@.contains(#[trigger] mine@[i]) ==> exists|k: int|
                0 <= k < res@.len() && (#[trigger] res@[k]).mine == i,
{
    let mut res: Vec<Shared> = Vec::new();
    let mut i: usize = 0;
    while i < mine.len()
        invariant
            i <= mine@.len(),
            forall|k: int|
                0 <= k < res@.len() ==> {
                    &&& (#[trigger] res@[k]).mine < i
                    &&& is_first(theirs@, mine@[res@[k].mine as int], res@[k].theirs as int)
                },
            forall|k: int, l: int| 0 <= k < l < res@.len() ==> res@[k].mine < res@[l].mine,
            forall|j: int|
                0 <= j < i && theirs@.contains(#[trigger] mine@[j]) ==> exists|k: int|
                    0 <= k < res@.len() && (#[trigger] res@[k]).mine == j,
        decreases mine.len() - i,
    {
        let ghost before = res@;
        if let Some(o) = find_slot(theirs, mine[i]) {
            res.push(Shared { mine: i, theirs: o });
            assert(res@[before.len() as int].mine == i);
        }
        proof {
            assert forall|j: int|
                0 <= j < i + 1 && theirs@.contains(#[trigger] mine@[j]) implies exists|k: int|
                0 <= k < res@.len() && (#[trigger] res@[k]).mine == j by {
                if j < i {
                    let k = choose|k: int| 0 <= k < before.len() && (#[trigger] before[k]).mine == j;
                    assert(res@[k] == before[k]);
                }
            }
        }
        i += 1;
    }
    res
}

/// Whether two sightings are too far apart to be of the same robot.
pub fn is_mismatch(dist: Double) -> (res: bool)
    ensures
        res == (Double { bits: MATCH_OUTLIER }).lt(dist),
{
    Double::from_bits(MATCH_OUTLIER).is_less(dist)
}

/// A robot must be this far from the camera's nadir to tell outward from
/// sideways: 0.2 m.
pub const RADIAL_MIN: u64 = 0x3FC9_9999_9999_999A;

/// Whether an offset this far from the camera's nadir is split into outward and
/// sideways.
pub fn has_radial(dist: Double) -> (res: bool)
    ensures
        res == (Double { bits: RADIAL_MIN }).lt(dist),
{
    Double::from_bits(RADIAL_MIN).is_less(dist)
}

/// Counts of a camera pair.
#[derive(Clone, Copy, Debug, PartialEq, Eq, Structural)]
pub struct PairCounts {
    /// Pairs rejected as identity mismatches.
    pub outliers: u64,
    /// Accepted pairs whose orientations disagree grossly.
    pub gross_phi: u64,
}

impl PairCounts {
    /// No pairs yet.
    pub fn new() -> (res: Self)
        ensures
            res == (PairCounts { outliers: 0, gross_phi: 0 }),
    {
        PairCounts { outliers: 0, gross_phi: 0 }
    }

    /// Record a robot seen by both, `dist` apart with orientations `turn` apart;
    /// returns whether it is the same robot.
    pub fn record(&mut self, dist: Double, turn: Double) -> (res: bool)
        requires
            old(self).outliers < u64::MAX,
            old(self).gross_phi < u64::MAX,
        ensures
            res == !(Double { bits: MATCH_OUTLIER }).lt(dist),
            *final(self) == if !res {
                PairCounts { outliers: (old(self).outliers + 1) as u64, ..*old(self) }
            } else if (Double { bits: GROSS_PHI }).lt(turn) {
                PairCounts { gross_phi: (old(self).gross_phi + 1) as u64, ..*old(self) }
            } else {
                *old(self)
            },
    {
        if Double::from_bits(MATCH_OUTLIER).is_less(dist) {
            self.outliers = self.outliers + 1;
            return false;
        }
        if Double::from_bits(GROSS_PHI).is_less(turn) {
            self.gross_phi = self.gross_phi + 1;
        }
        true
    }

    /// Fold the counts of another pair in.
    pub fn merge(&mut self, o: &Self)
        requires
            old(self).outliers + o.outliers <= u64::MAX,
            old(self).gross_phi + o.gross_phi <= u64::MAX,
        ensures
            final(self).outliers == old(self).outliers + o.outliers,
            final(self).gross_phi == old(self).gross_phi + o.gross_phi,
    {
        self.outliers = self.outliers + o.outliers;
        self.gross_phi = self.gross_phi + o.gross_phi;
    }
}

/// Two frames can be compared when they were captured at nearly the same time:
/// not more than `limit` apart.
pub fn same_capture(apart: Double, limit: Double) -> (res: bool)
    ensures
        res == !limit.lt(apart),
{
    !limit.is_less(apart)
}

/// The limits are the decimal numbers that they are said to be.
pub proof fn law_limits_in_decimals()
    ensures
        (Double { bits: CORE_NADIR }).reads(5, 1),
        !(Double { bits: CORE_NADIR }).negative(),
        (Double { bits: LOW_BALL }).reads(5, 100),
        !(Double { bits: LOW_BALL }).negative(),
        (Double { bits: BALL_MATCH }).reads(15, 100),
        !(Double { bits: BALL_MATCH }).negative(),
        (Double { bits: BALL_MATCH_SQUARED }).reads(225, 10000),
        !(Double { bits: BALL_MATCH_SQUARED }).negative(),
        (Double { bits: ROBOT_NEAR_SQUARED }).reads(36, 100),
        !(Double { bits: ROBOT_NEAR_SQUARED }).negative(),
        (Double { bits: NEAR_ROBOT }).reads(3, 10),
        !(Double { bits: NEAR_ROBOT }).negative(),
        (Double { bits: SLOW_BALL }).reads(5, 10),
        !(Double { bits: SLOW_BALL }).negative(),
        (Double { bits: DRIBBLE_RADIUS }).reads(11, 100),
        !(Double { bits: DRIBBLE_RADIUS }).negative(),
        (Double { bits: MATCH_OUTLIER }).reads(15, 100),
        !(Double { bits: MATCH_OUTLIER }).negative(),
        (Double { bits: GROSS_PHI }).reads(5, 10),
        !(Double { bits: GROSS_PHI }).negative(),
        (Double { bits: FAR }).reads(10, 1),
        !(Double { bits: FAR }).negative(),
        (Double { bits: RADIAL_MIN }).reads(2, 10),
        !(Double { bits: RADIAL_MIN }).negative(),
{
    lemma_powers();
}

/// A ball is seen if a detection is within 0.15 m, squared; low below 0.05 m; free if no
/// robot is within 0.3 m; slow if its speed is known and below 0.5 m/s; dribbled if a
/// robot that is shown has it in front of it within 0.11 m.
pub proof fn law_balls_are_judged_by_distance(b: BallFact, mask: u32)
    ensures
        b.seen() <==> exists|i: int|
            0 <= i < b.balls@.len() && (#[trigger] b.balls@[i]).lt(Double { bits: BALL_MATCH_SQUARED }),
        b.low() <==> b.height.lt(Double { bits: LOW_BALL }),
        b.free() <==> (Double { bits: NEAR_ROBOT }).lt(b.nearest),
        b.slow() <==> b.speed.finite() && b.speed.lt(Double { bits: SLOW_BALL }),
        b.dribbled(mask) <==> exists|i: int| #![trigger b.dribblers@[i]]
            0 <= i < b.dribblers@.len() && b.dribblers@[i].ahead && !(Double { bits: DRIBBLE_RADIUS }).lt(
                b.dribblers@[i].dist,
            ) && shows(mask, b.dribblers@[i].slot),
{
    if b.dribbled(mask) {
        let i = choose|i: int|
            0 <= i < b.dribblers@.len() && dribbles(#[trigger] b.dribblers@[i], mask);
        assert(b.dribblers@[i].ahead);
    }
    if exists|i: int| #![trigger b.dribblers@[i]]
        0 <= i < b.dribblers@.len() && b.dribblers@[i].ahead && !(Double { bits: DRIBBLE_RADIUS }).lt(
            b.dribblers@[i].dist,
        ) && shows(mask, b.dribblers@[i].slot) {
        let i = choose|i: int| #![trigger b.dribblers@[i]]
            0 <= i < b.dribblers@.len() && b.dribblers@[i].ahead && !(Double { bits: DRIBBLE_RADIUS }).lt(
                b.dribblers@[i].dist,
            ) && shows(mask, b.dribblers@[i].slot);
        assert(dribbles(b.dribblers@[i], mask));
    }
}

/// A camera of a calibrated set must show the ball if it owns the point and has it
/// within 5 m of its nadir; any other one if it shows a robot within 0.6 m of it,
/// squared.
pub proof fn law_balls_that_must_be_shown(b: BallFact)
    ensures
        b.owns is Some && b.nadir is Some ==> (b.covered() <==> b.owns == Some(true) && (b.nadir->0).dist.lt(
            Double { bits: CORE_NADIR },
        )),
        b.owns is None || b.nadir is None ==> (b.covered() <==> exists|i: int|
            0 <= i < b.robots@.len() && (#[trigger] b.robots@[i]).lt(Double { bits: ROBOT_NEAR_SQUARED })),
{
}

/// A trial goes into the bin it falls into, the first or last one if it is outside, and
/// into no other.
pub proof fn law_trials_go_into_their_bin(bins: Seq<Rate>, bin: i64, hit: bool, i: int)
    requires
        0 <= i < bins.len(),
        bins[i].trials < u64::MAX,
        bins[i].hits < u64::MAX,
    ensures
        ({
            let all = binned(bins, bin, hit);
            let own = i == bin || (bin < 0 && i == 0) || (bin >= bins.len() && i == bins.len() - 1);
            &&& all.len() == bins.len()
            &&& own ==> all[i].trials == bins[i].trials + 1 && all[i].hits == bins[i].hits + (if hit {
                1int
            } else {
                0
            })
            &&& !own ==> all[i] == bins[i]
        }),
{
}

/// A tracked robot counts if this camera owns its place: in the region always, in the
/// core within 5 m of the nadir, and by distance where the nadir is known. Else nothing
/// changes.
pub proof fn law_robots_count_where_they_must_be_shown(r: RobotSeen, f: RobotFact, mask: u32)
    ensures
        ({
            let s = robot_recorded(r, f, mask);
            let seen = shows(mask, f.slot);
            let owned = f.owns == Some(true);
            &&& s.in_region == if owned {
                r.in_region.pushed(seen)
            } else {
                r.in_region
            }
            &&& s.core == if owned && f.nadir is Some && (f.nadir->0).dist.lt(
                Double { bits: CORE_NADIR },
            ) {
                r.core.pushed(seen)
            } else {
                r.core
            }
            &&& s.vs_nadir == if owned && f.nadir is Some {
                binned(r.vs_nadir, (f.nadir->0).bin, seen)
            } else {
                r.vs_nadir
            }
        }),
{
}

/// The robots of a frame are recorded one after the other.
pub proof fn law_robots_are_recorded_in_order(r: RobotSeen, f: Seq<RobotFact>, x: RobotFact, mask: u32)
    ensures
        robots_recorded(r, Seq::empty(), mask) == r,
        robots_recorded(r, f.push(x), mask) == robot_recorded(robots_recorded(r, f, mask), x, mask),
{
    assert(f.push(x).drop_last() =~= f);
}

/// Merged bins hold the trials and hits of both.
pub proof fn law_merged_bins_add_up(all: Seq<Rate>, a: Seq<Rate>, b: Seq<Rate>, i: int)
    requires
        bins_merged(all, a, b),
        0 <= i < a.len(),
        a[i].trials + b[i].trials <= u64::MAX,
        a[i].hits + b[i].hits <= u64::MAX,
    ensures
        all.len() == a.len() && b.len() == a.len(),
        all[i].trials == a[i].trials + b[i].trials,
        all[i].hits == a[i].hits + b[i].hits,
{
}

/// A ball is extra if it is not alone, the tracked ball is among the balls, and it is
/// not that one.
pub proof fn law_extra_balls_are_not_the_tracked_one(balls: int, tracked_ball: Option<usize>, b: usize)
    ensures
        is_extra(balls, tracked_ball, b as int) <==> balls >= 2 && (tracked_ball matches Some(t) && t
            != b),
{
}

/// A robot is near a ball if it is the closest one, the first of equally close ones, and
/// within 0.3 m.
pub proof fn law_near_robots_are_closest(d: Seq<Double>)
    ensures
        robot_near(d) matches Some(r) ==> 0 <= r < d.len() && d[r].lt(Double { bits: NEAR_ROBOT }) && (
        forall|j: int| 0 <= j < d.len() ==> !(#[trigger] d[j]).lt(d[r])) && (forall|j: int|
            0 <= j < r ==> (#[trigger] d[j]).nan() || d[r].lt(d[j])),
        robot_near(d) is None ==> forall|j: int|
            0 <= j < d.len() ==> !(#[trigger] d[j]).lt(Double { bits: NEAR_ROBOT }),
{
    law_closest_is_the_first_least(d);
    if robot_near(d) is None {
        assert forall|j: int| 0 <= j < d.len() implies !(#[trigger] d[j]).lt(
            Double { bits: NEAR_ROBOT },
        ) by {
            if let Some(r) = closest(d) {
                assert(!d[j].lt(d[r]));
            } else {
                assert(!d[j].lt(Double { bits: INFINITY_BITS }));
            }
        }
    }
}

/// The extra balls are listed in order, each with the robot near it, and counted; those
/// with a robot are counted as near one.
pub proof fn law_extra_balls_are_listed(d: Seq<Vec<Double>>, tracked_ball: Option<usize>, n: nat)
    requires
        n <= d.len(),
    ensures
        ({
            let e = extras(d, tracked_ball, n);
            &&& e.len() == extra_count(d.len() as int, tracked_ball, n)
            &&& e.filter(|x: (int, Option<int>)| x.1 is Some).len() == near_count(d, tracked_ball, n)
            &&& forall|k: int|
                0 <= k < e.len() ==> 0 <= (#[trigger] e[k]).0 < n && is_extra(
                    d.len() as int,
                    tracked_ball,
                    e[k].0,
                ) && e[k].1 == robot_near(d[e[k].0]@)
            &&& forall|k: int, l: int| 0 <= k < l < e.len() ==> e[k].0 < e[l].0
        }),
    decreases n,
{
    reveal(Seq::filter);
    if n > 0 {
        law_extra_balls_are_listed(d, tracked_ball, (n - 1) as nat);
        let p = extras(d, tracked_ball, (n - 1) as nat);
        let e = extras(d, tracked_ball, n);
        let f = |x: (int, Option<int>)| x.1 is Some;
        if e.len() > p.len() {
            assert(e.drop_last() =~= p);
            assert(e.last() == (n - 1, robot_near(d[n - 1]@)));
        }
        assert forall|k: int| 0 <= k < e.len() implies 0 <= (#[trigger] e[k]).0 < n && is_extra(
            d.len() as int,
            tracked_ball,
            e[k].0,
        ) && e[k].1 == robot_near(d[e[k].0]@) by {
            if k < p.len() {
                assert(e[k] == p[k]);
            }
        }
        assert forall|k: int, l: int| 0 <= k < l < e.len() implies e[k].0 < e[l].0 by {
            assert(e[k] == p[k]);
            if l < p.len() {
                assert(e[l] == p[l]);
            }
        }
    }
}

/// An extra ball as integers is the ball and the robot.
pub proof fn law_extra_views(e: Extra)
    ensures
        extra_view(e).0 == e.ball,
        e.robot matches Some(r) ==> extra_view(e).1 == Some(r as int),
        e.robot is None ==> extra_view(e).1 is None,
{
}

/// Where a slot first stands it is, and not before.
pub proof fn law_first_place_of_a_slot(slots: Seq<u32>, slot: u32, i: int, j: int)
    requires
        is_first(slots, slot, i),
    ensures
        0 <= i < slots.len(),
        slots[i] == slot,
        0 <= j < i ==> slots[j] != slot,
{
}

/// There are twenty bins over the distance from the nadir.
pub proof fn law_nadir_bins()
    ensures
        NADIR_BINS == 20,
{
}

/// The rates of tracked robots are those in the region, in the core and by distance.
pub proof fn law_robot_rates(r: RegionRates)
    ensures
        r.robot_seen().in_region == r.robot_seen_in_region,
        r.robot_seen().core == r.robot_seen_core,
        r.robot_seen().vs_nadir == r.robot_seen_vs_nadir.bins@,
{
}

} // verus!
