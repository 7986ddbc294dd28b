//! Legacy grSim packet adapter: `grSim_Packet` in on UDP 20011,
//! `Robots_Status` out to the sender's address on 30011 (blue) / 30012
//! (yellow).
//!
//! # Wheel order
//!
//! grSim builds its wheels in the order of the mounting angles
//! `60°, 135°, 225°, 300°` measured counter-clockwise from the robot's forward
//! direction, so `wheel1` is the front left one, `wheel2` the back left one,
//! `wheel3` the back right one and `wheel4` the front right one: exactly the
//! reverse of the SSL simulation protocol's order.
use vstd::prelude::*;

use crate::double::{Double, MICRO_BITS, MILLI_BITS, lemma_powers};
use crate::net::world::{
    MoveCommand, RobotCommand, RobotId, RobotSpecs, Team, TeleportBall, TeleportRobot, Vec2, Vec3,
};
use crate::table::Table;

verus! {

/// Default UDP port the legacy `grSim_Packet` listener binds.
pub const LEGACY_COMMAND_PORT: u16 = 20011;

/// Default `Robots_Status` port for the blue team.
pub const LEGACY_STATUS_PORT_BLUE: u16 = 30011;

/// Default `Robots_Status` port for the yellow team.
pub const LEGACY_STATUS_PORT_YELLOW: u16 = 30012;

/// Bit pattern of `10000.0`, the dribbler speed in rpm when the robot's specs
/// are unknown.
pub const DEFAULT_DRIBBLER_RPM_BITS: u64 = 0x40C3_8800_0000_0000;

/// A kick counts as "recent" for `Robots_Status` for this many vision frames,
/// matching grSim's frame counter.
pub const KICK_STATUS_FRAMES: u64 = 10;

/// A legacy commands block, as far as its addressee is concerned.
#[derive(Clone, Copy, Debug, PartialEq, Eq, Structural)]
pub struct GrSimCommands {
    /// Whether the yellow team is addressed.
    pub isteamyellow: bool,
}

/// The team that a legacy flag stands for.
pub open spec fn flagged_team(yellow: bool) -> Team {
    if yellow {
        Team::Yellow
    } else {
        Team::Blue
    }
}

/// Team addressed by a legacy commands block.
pub fn team_of(cmds: &GrSimCommands) -> (res: Team)
    ensures
        res == flagged_team(cmds.isteamyellow),
{
    if cmds.isteamyellow {
        Team::Yellow
    } else {
        Team::Blue
    }
}

/// Status port for a team.
pub fn status_port(team: Team) -> (res: u16)
    ensures
        res == match team {
            Team::Blue => LEGACY_STATUS_PORT_BLUE,
            Team::Yellow => LEGACY_STATUS_PORT_YELLOW,
        },
{
    match team {
        Team::Blue => LEGACY_STATUS_PORT_BLUE,
        Team::Yellow => LEGACY_STATUS_PORT_YELLOW,
    }
}

/// The robot that a legacy number names; numbers over 255 are taken as 255.
pub open spec fn numbered(team: Team, id: u32) -> RobotId {
    RobotId { team, number: if id > 255 { 255 } else { id as u8 } }
}

/// The robot that a legacy number names; numbers over 255 are taken as 255.
pub fn robot_of(team: Team, id: u32) -> (res: RobotId)
    ensures
        res == numbered(team, id),
{
    if id > 255 {
        RobotId::new(team, 255)
    } else {
        RobotId::new(team, id as u8)
    }
}

/// `grSim_Robot_Command`. The wheel speeds are those of the rim in m/s, 0 where
/// the message has none; the kick is given by its speed and its angle in degrees
/// above the field.
#[derive(Clone, Copy, Debug, PartialEq, Eq, Structural)]
pub struct GrSimRobotCommand {
    /// Robot number.
    pub id: u32,
    /// Kick speed.
    pub kick_speed: Double,
    /// Kick angle in degrees.
    pub kick_angle_deg: Double,
    /// Forward velocity.
    pub veltangent: Double,
    /// Velocity to the left.
    pub velnormal: Double,
    /// Angular velocity.
    pub velangular: Double,
    /// Whether the dribbler turns.
    pub spinner: bool,
    /// Whether the wheel speeds count.
    pub wheelsspeed: bool,
    /// Front left wheel.
    pub wheel1: Double,
    /// Back left wheel.
    pub wheel2: Double,
    /// Back right wheel.
    pub wheel3: Double,
    /// Front right wheel.
    pub wheel4: Double,
}

/// The slowest kick that counts: `0.000001` m/s.
pub open spec fn least_kick() -> Double {
    Double { bits: MICRO_BITS }
}

/// The command that a legacy command stands for, for a robot whose dribbler has
/// the given full speed, if that is known.
pub open spec fn grsim_command(cmd: GrSimRobotCommand, max_rpm: Option<Double>) -> RobotCommand {
    RobotCommand {
        movement: Some(
            if cmd.wheelsspeed {
                MoveCommand::WheelVelocity {
                    front_right: cmd.wheel4,
                    back_right: cmd.wheel3,
                    back_left: cmd.wheel2,
                    front_left: cmd.wheel1,
                }
            } else {
                MoveCommand::LocalVelocity {
                    forward: cmd.veltangent,
                    left: cmd.velnormal,
                    angular: cmd.velangular,
                }
            },
        ),
        kick_speed: if least_kick().lt(cmd.kick_speed) {
            Some(cmd.kick_speed)
        } else {
            None
        },
        kick_angle_deg: if least_kick().lt(cmd.kick_speed) {
            cmd.kick_angle_deg
        } else {
            Double::zero()
        },
        dribbler_rpm: if cmd.spinner {
            Some(
                match max_rpm {
                    Some(r) => r,
                    None => Double { bits: DEFAULT_DRIBBLER_RPM_BITS },
                },
            )
        } else {
            None
        },
    }
}

/// Convert one legacy robot command. `specs` is the target robot's spec, used
/// for the dribbler's full speed.
pub fn robot_command_from_grsim(cmd: &GrSimRobotCommand, specs: Option<&RobotSpecs>) -> (res:
    RobotCommand)
    ensures
        res == grsim_command(
            *cmd,
            match specs {
                Some(s) => Some(s.dribbler_max_rpm),
                None => None,
            },
        ),
{
    let max_rpm = match specs {
        Some(s) => s.dribbler_max_rpm,
        None => Double::from_bits(DEFAULT_DRIBBLER_RPM_BITS),
    };
    let movement = if cmd.wheelsspeed {
        Some(
            MoveCommand::WheelVelocity {
                front_right: cmd.wheel4,
                back_right: cmd.wheel3,
                back_left: cmd.wheel2,
                front_left: cmd.wheel1,
            },
        )
    } else {
        Some(
            MoveCommand::LocalVelocity {
                forward: cmd.veltangent,
                left: cmd.velnormal,
                angular: cmd.velangular,
            },
        )
    };
    let kicks = Double::from_bits(MICRO_BITS).is_less(cmd.kick_speed);
    RobotCommand {
        movement,
        kick_speed: if kicks {
            Some(cmd.kick_speed)
        } else {
            None
        },
        kick_angle_deg: if kicks {
            cmd.kick_angle_deg
        } else {
            Double::zero()
        },
        dribbler_rpm: if cmd.spinner {
            Some(max_rpm)
        } else {
            None
        },
    }
}

/// `grSim_BallReplacement`.
#[derive(Clone, Copy, Debug, PartialEq, Eq, Structural)]
pub struct GrSimBallReplacement {
    /// Position along the field.
    pub x: Option<Double>,
    /// Position across the field.
    pub y: Option<Double>,
    /// Velocity along the field.
    pub vx: Option<Double>,
    /// Velocity across the field.
    pub vy: Option<Double>,
}

/// The teleport that a legacy ball replacement asks for: a position only when
/// both coordinates are there, a velocity when either is, with 0 for the other.
pub open spec fn grsim_ball(b: GrSimBallReplacement) -> TeleportBall {
    TeleportBall {
        position: match (b.x, b.y) {
            (Some(x), Some(y)) => Some(Vec3 { x, y, z: Double::zero() }),
            _ => None,
        },
        velocity: if b.vx is None && b.vy is None {
            None
        } else {
            Some(
                Vec3 {
                    x: match b.vx {
                        Some(v) => v,
                        None => Double::zero(),
                    },
                    y: match b.vy {
                        Some(v) => v,
                        None => Double::zero(),
                    },
                    z: Double::zero(),
                },
            )
        },
        teleport_safely: false,
        roll: false,
        by_force: false,
    }
}

/// Convert a legacy ball replacement (metres) to a teleport.
pub fn teleport_ball_from_grsim(b: &GrSimBallReplacement) -> (res: TeleportBall)
    ensures
        res == grsim_ball(*b),
{
    let position = match (b.x, b.y) {
        (Some(x), Some(y)) => Some(Vec3 { x, y, z: Double::zero() }),
        _ => None,
    };
    let velocity = match (b.vx, b.vy) {
        (None, None) => None,
        (vx, vy) => Some(
            Vec3 {
                x: vx.unwrap_or(Double::zero()),
                y: vy.unwrap_or(Double::zero()),
                z: Double::zero(),
            },
        ),
    };
    TeleportBall { position, velocity, teleport_safely: false, roll: false, by_force: false }
}

/// `grSim_RobotReplacement`, with the direction in radians.
#[derive(Clone, Copy, Debug, PartialEq, Eq, Structural)]
pub struct GrSimRobotReplacement {
    /// Position along the field.
    pub x: Double,
    /// Position across the field.
    pub y: Double,
    /// Direction.
    pub dir: Double,
    /// Robot number.
    pub id: u32,
    /// Whether the robot is yellow.
    pub yellowteam: bool,
    /// Whether the robot is on the field.
    pub turnon: Option<bool>,
}

/// The teleport that a legacy robot replacement asks for: the robot stands still
/// at the given place, present unless it is turned off.
pub open spec fn grsim_robot(r: GrSimRobotReplacement) -> TeleportRobot {
    TeleportRobot {
        id: numbered(flagged_team(r.yellowteam), r.id),
        position: Some(Vec2 { x: r.x, y: r.y }),
        orientation: Some(r.dir),
        velocity: Some(Vec2 { x: Double::zero(), y: Double::zero() }),
        angular_velocity: Some(Double::zero()),
        present: Some(r.turnon != Some(false)),
        by_force: false,
    }
}

/// Convert a legacy robot replacement (metres, radians) to a teleport. `turnon`
/// maps to `present`.
pub fn teleport_robot_from_grsim(r: &GrSimRobotReplacement) -> (res: TeleportRobot)
    ensures
        res == grsim_robot(*r),
{
    let team = if r.yellowteam {
        Team::Yellow
    } else {
        Team::Blue
    };
    TeleportRobot {
        id: robot_of(team, r.id),
        position: Some(Vec2 { x: r.x, y: r.y }),
        orientation: Some(r.dir),
        velocity: Some(Vec2 { x: Double::zero(), y: Double::zero() }),
        angular_velocity: Some(Double::zero()),
        present: Some(r.turnon.unwrap_or(true)),
        by_force: false,
    }
}

// ---------------------------------------------------------------- status

/// One robot's legacy status.
#[derive(Clone, Copy, Debug, PartialEq, Eq, Structural)]
pub struct LegacyStatus {
    /// Break beam: a ball is seated at the dribbler.
    pub infrared: bool,
    /// A straight kick happened within the last [`KICK_STATUS_FRAMES`] frames.
    pub flat_kick: bool,
    /// A chip kick happened within the last [`KICK_STATUS_FRAMES`] frames.
    pub chip_kick: bool,
}

/// `Robot_Status`.
#[derive(Clone, Copy, Debug, PartialEq, Eq, Structural)]
pub struct RobotStatus {
    /// Robot number.
    pub robot_id: i32,
    /// Break beam.
    pub infrared: bool,
    /// Recent straight kick.
    pub flat_kick: bool,
    /// Recent chip kick.
    pub chip_kick: bool,
}

/// What happened in the world during a step, as far as the status goes.
#[derive(Clone, Copy, Debug, PartialEq, Eq, Structural)]
pub enum Event {
    /// A robot kicked.
    Kick {
        /// Which robot.
        robot: RobotId,
        /// Kick angle in degrees.
        angle_deg: Double,
    },
    /// Anything else.
    Other,
}

/// A kick above this angle (0.001 degrees) is a chip.
pub open spec fn is_chip(angle_deg: Double) -> bool {
    Double { bits: MILLI_BITS }.lt(angle_deg)
}

/// Key of a robot in the tables.
pub open spec fn key(id: RobotId) -> u64 {
    match id.team {
        Team::Blue => id.number as u64,
        Team::Yellow => (256 + id.number) as u64,
    }
}

fn key_of(id: RobotId) -> (res: u64)
    ensures
        res == key(id),
{
    match id.team {
        Team::Blue => id.number as u64,
        Team::Yellow => 256 + id.number as u64,
    }
}

/// Last kicks: the frame and whether it was a chip, by robot.
pub type Kicks = Map<u64, (u64, bool)>;

/// The last kicks after some events at frame `now`: each kick replaces the
/// robot's last one.
pub open spec fn kicks_after(kicks: Kicks, events: Seq<Event>, now: u64) -> Kicks
    decreases events.len(),
{
    if events.len() == 0 {
        kicks
    } else {
        let before = kicks_after(kicks, events.drop_last(), now);
        match events.last() {
            Event::Kick { robot, angle_deg } => before.insert(
                key(robot),
                (now, is_chip(angle_deg)),
            ),
            Event::Other => before,
        }
    }
}

/// Whether a kick at frame `f` still counts at frame `now`.
pub open spec fn recent(f: u64, now: int) -> bool {
    now - f < KICK_STATUS_FRAMES
}

/// The kicks that still count at frame `now`.
pub open spec fn recent_kicks(kicks: Kicks, now: int) -> Kicks {
    Map::new(
        |k: u64| kicks.contains_key(k) && recent(kicks[k].0, now),
        |k: u64| kicks[k],
    )
}

/// A robot's status, given the kicks that count and its break beam.
pub open spec fn status(kicks: Kicks, id: RobotId, ball_contact: bool) -> LegacyStatus {
    let k = key(id);
    LegacyStatus {
        infrared: ball_contact,
        flat_kick: kicks.contains_key(k) && !kicks[k].1,
        chip_kick: kicks.contains_key(k) && kicks[k].1,
    }
}

/// A robot's row of the status message.
pub open spec fn row(id: RobotId, s: LegacyStatus) -> RobotStatus {
    RobotStatus {
        robot_id: id.number as i32,
        infrared: s.infrared,
        flat_kick: s.flat_kick,
        chip_kick: s.chip_kick,
    }
}

/// The statuses that count as sent after `robots` were reported to `team`.
pub open spec fn sent_after(
    sent: Map<u64, LegacyStatus>,
    kicks: Kicks,
    team: Team,
    robots: Seq<(RobotId, bool)>,
) -> Map<u64, LegacyStatus>
    decreases robots.len(),
{
    if robots.len() == 0 {
        sent
    } else {
        let before = sent_after(sent, kicks, team, robots.drop_last());
        let (id, contact) = robots.last();
        if id.team == team {
            before.insert(key(id), status(kicks, id, contact))
        } else {
            before
        }
    }
}

/// The rows for the robots of `team` whose status is not the one last sent, in
/// order.
pub open spec fn changes(
    sent: Map<u64, LegacyStatus>,
    kicks: Kicks,
    team: Team,
    robots: Seq<(RobotId, bool)>,
) -> Seq<RobotStatus>
    decreases robots.len(),
{
    if robots.len() == 0 {
        seq![]
    } else {
        let rest = robots.drop_last();
        let before = changes(sent, kicks, team, rest);
        let known = sent_after(sent, kicks, team, rest);
        let (id, contact) = robots.last();
        let s = status(kicks, id, contact);
        if id.team == team && !(known.contains_key(key(id)) && known[key(id)] == s) {
            before.push(row(id, s))
        } else {
            before
        }
    }
}

/// Tracks per-robot legacy status and reports changes.
///
/// Kick flags stay set for [`KICK_STATUS_FRAMES`] vision frames after the kick.
#[derive(Clone, Debug)]
pub struct StatusTracker {
    frame: u64,
    kicks: Table<(u64, bool)>,
    last_sent: Table<LegacyStatus>,
}

impl StatusTracker {
    /// Vision frames seen so far; kick ages are measured against this.
    pub closed spec fn frame(&self) -> u64 {
        self.frame
    }

    /// The last kick of each robot that still counts.
    pub closed spec fn kicks(&self) -> Kicks {
        self.kicks@
    }

    /// What was last sent of each robot.
    pub closed spec fn sent(&self) -> Map<u64, LegacyStatus> {
        self.last_sent@
    }

    /// Every kick held is from a frame that has been seen and still counts.
    pub closed spec fn wf(&self) -> bool {
        &&& self.kicks.wf()
        &&& self.last_sent.wf()
        &&& forall|k: u64|
            #![trigger self.kicks@.contains_key(k)]
            self.kicks@.contains_key(k) ==> self.kicks@[k].0 <= self.frame && recent(
                self.kicks@[k].0,
                self.frame as int,
            )
    }

    /// New empty tracker.
    pub fn new() -> (res: Self)
        ensures
            res.wf(),
            res.frame() == 0,
            res.kicks() == Map::<u64, (u64, bool)>::empty(),
            res.sent() == Map::<u64, LegacyStatus>::empty(),
    {
        StatusTracker { frame: 0, kicks: Table::new(), last_sent: Table::new() }
    }

    /// Record simulation events; `Kick` events set the per-robot kick flag.
    pub fn record_events(&mut self, events: &[Event])
        requires
            old(self).wf(),
        ensures
            final(self).wf(),
            final(self).frame() == old(self).frame(),
            final(self).sent() == old(self).sent(),
            final(self).kicks() == kicks_after(old(self).kicks(), events@, old(self).frame()),
    {
        let ghost start = self.kicks@;
        let ghost frame0 = self.frame;
        let ghost sent0 = self.last_sent@;
        let mut i: usize = 0;
        while i < events.len()
            invariant
                i <= events@.len(),
                self.wf(),
                self.frame == frame0,
                self.last_sent@ == sent0,
                self.kicks@ == kicks_after(start, events@.take(i as int), frame0),
            decreases events.len() - i,
        {
            assert(events@.take(i + 1).drop_last() =~= events@.take(i as int));
            if let Event::Kick { robot, angle_deg } = events[i] {
                let chip = Double::from_bits(MILLI_BITS).is_less(angle_deg);
                self.kicks.insert(key_of(robot), (self.frame, chip));
            }
            i += 1;
        }
        assert(events@.take(i as int) =~= events@);
    }

    /// Advance the vision-frame counter (call once per published vision frame).
    pub fn advance_frame(&mut self)
        requires
            old(self).wf(),
            old(self).frame() < u64::MAX,
        ensures
            final(self).wf(),
            final(self).frame() == old(self).frame() + 1,
            final(self).sent() == old(self).sent(),
            final(self).kicks() == recent_kicks(old(self).kicks(), old(self).frame() + 1),
    {
        self.frame = self.frame + 1;
        let now = self.frame;
        let ghost start = self.kicks@;
        let ghost sent0 = self.last_sent@;
        let mut i: usize = 0;
        while i < self.kicks.len()
            invariant
                self.kicks.wf(),
                self.last_sent.wf(),
                self.frame == now,
                self.last_sent@ == sent0,
                i <= self.kicks.entries().len(),
                forall|k: u64|
                    #![trigger self.kicks@.contains_key(k)]
                    self.kicks@.contains_key(k) ==> start.contains_key(k) && self.kicks@[k]
                        == start[k],
                forall|k: u64|
                    #![trigger start.contains_key(k)]
                    start.contains_key(k) && recent(start[k].0, now as int)
                        ==> self.kicks@.contains_key(k),
                forall|k: u64|
                    #![trigger start.contains_key(k)]
                    start.contains_key(k) ==> start[k].0 <= now,
                forall|j: int|
                    0 <= j < i ==> recent((#[trigger] self.kicks.entries()[j]).1.0, now as int),
            decreases self.kicks.entries().len() - i,
        {
            let ghost before = self.kicks;
            let e = self.kicks.at(i);
            let f: u64 = e.1.0;
            proof {
                crate::table::law_entries_are_the_map(self.kicks, i as int);
                assert(start[e.0].0 <= now);
            }
            if now - f < KICK_STATUS_FRAMES {
                i += 1;
            } else {
                let gone = self.kicks.remove_at(i);
                proof {
                    assert forall|k: u64|
                        #![trigger self.kicks@.contains_key(k)]
                        self.kicks@.contains_key(k) implies start.contains_key(k) && self.kicks@[k]
                        == start[k] by {
                        assert(before@.contains_key(k) && before@[k] == self.kicks@[k]);
                    }
                    assert forall|k: u64|
                        #![trigger start.contains_key(k)]
                        start.contains_key(k) && recent(
                            start[k].0,
                            now as int,
                        ) implies self.kicks@.contains_key(k) by {
                        assert(before@.contains_key(k));
                        assert(before@[k] == start[k]);
                    }
                    assert forall|j: int| 0 <= j < i implies recent(
                        (#[trigger] self.kicks.entries()[j]).1.0,
                        now as int,
                    ) by {
                        assert(self.kicks.entries()[j] == before.entries()[j]);
                    }
                }
            }
        }
        proof {
            assert forall|k: u64|
                #![trigger self.kicks@.contains_key(k)]
                self.kicks@.contains_key(k) implies recent(self.kicks@[k].0, now as int) by {
                let s = self.kicks.entries();
                let j = choose|j: int| 0 <= j < s.len() && (#[trigger] s[j]).0 == k;
                crate::table::law_entries_are_the_map(self.kicks, j);
                assert(recent(s[j].1.0, now as int));
            }
            assert forall|k: u64| self.kicks@.contains_key(k) <==> recent_kicks(
                start,
                now as int,
            ).contains_key(k) by {
                if self.kicks@.contains_key(k) {
                    assert(self.kicks@[k] == start[k]);
                }
                if recent_kicks(start, now as int).contains_key(k) {
                    assert(start[k] == start[k]);
                }
            }
            assert(self.kicks@ =~= recent_kicks(start, now as int));
        }
    }

    /// Current status of one robot given its break-beam state.
    pub fn status_of(&self, id: RobotId, ball_contact: bool) -> (res: LegacyStatus)
        requires
            self.wf(),
        ensures
            res == status(self.kicks(), id, ball_contact),
    {
        let (flat, chip) = match self.kicks.get(key_of(id)) {
            Some(k) => (!k.1, k.1),
            None => (false, false),
        };
        LegacyStatus { infrared: ball_contact, flat_kick: flat, chip_kick: chip }
    }

    /// Build the rows of a `Robots_Status` message for `team` containing only the
    /// robots whose status changed since the last call, and remember what was
    /// sent. Returns `None` when nothing changed.
    pub fn changed_status(&mut self, team: Team, robots: &[(RobotId, bool)]) -> (res: Option<
        Vec<RobotStatus>,
    >)
        requires
            old(self).wf(),
        ensures
            final(self).wf(),
            final(self).frame() == old(self).frame(),
            final(self).kicks() == old(self).kicks(),
            final(self).sent() == sent_after(old(self).sent(), old(self).kicks(), team, robots@),
            match res {
                Some(rows) => rows@.len() > 0 && rows@ == changes(
                    old(self).sent(),
                    old(self).kicks(),
                    team,
                    robots@,
                ),
                None => changes(old(self).sent(), old(self).kicks(), team, robots@).len() == 0,
            },
    {
        let ghost sent0 = self.last_sent@;
        let ghost kicks0 = self.kicks@;
        let ghost frame0 = self.frame;
        let mut out: Vec<RobotStatus> = Vec::new();
        let mut i: usize = 0;
        while i < robots.len()
            invariant
                i <= robots@.len(),
                self.wf(),
                self.frame == frame0,
                self.kicks@ == kicks0,
                self.last_sent@ == sent_after(sent0, kicks0, team, robots@.take(i as int)),
                out@ == changes(sent0, kicks0, team, robots@.take(i as int)),
            decreases robots.len() - i,
        {
            assert(robots@.take(i + 1).drop_last() =~= robots@.take(i as int));
            let (id, ball_contact) = robots[i];
            if id.team == team {
                let s = self.status_of(id, ball_contact);
                let k = key_of(id);
                let same = match self.last_sent.get(k) {
                    Some(l) => *l == s,
                    None => false,
                };
                if same {
                    assert(self.last_sent@.insert(k, s) =~= self.last_sent@);
                } else {
                    self.last_sent.insert(k, s);
                    out.push(
                        RobotStatus {
                            robot_id: id.number as i32,
                            infrared: s.infrared,
                            flat_kick: s.flat_kick,
                            chip_kick: s.chip_kick,
                        },
                    );
                }
            }
            i += 1;
        }
        assert(robots@.take(i as int) =~= robots@);
        if out.len() == 0 {
            None
        } else {
            Some(out)
        }
    }
}

/// The kicks that count `n` frames after frame `now`, when nobody kicks in
/// between.
pub open spec fn kicks_later(kicks: Kicks, now: int, n: nat) -> Kicks
    decreases n,
{
    if n == 0 {
        kicks
    } else {
        recent_kicks(kicks_later(kicks, now, (n - 1) as nat), now + n)
    }
}

/// Different robots have different keys.
pub proof fn law_keys_are_unique(a: RobotId, b: RobotId)
    ensures
        key(a) == key(b) <==> a == b,
{
}

/// A kick at frame `now` sets exactly one of the two kick flags, the chip flag
/// when its angle is over 0.001 degrees; the flag stays set for
/// [`KICK_STATUS_FRAMES`] frames and no longer, and no other robot's flags are
/// touched.
pub proof fn law_kick_flag_lasts(
    kicks: Kicks,
    robot: RobotId,
    angle_deg: Double,
    now: u64,
    n: nat,
    contact: bool,
)
    ensures
        ({
            let kicked = kicks_after(kicks, seq![Event::Kick { robot, angle_deg }], now);
            let s = status(kicks_later(kicked, now as int, n), robot, contact);
            &&& s.infrared == contact
            &&& s.flat_kick == (n < KICK_STATUS_FRAMES && !is_chip(angle_deg))
            &&& s.chip_kick == (n < KICK_STATUS_FRAMES && is_chip(angle_deg))
        }),
        forall|other: RobotId|
            other != robot ==> #[trigger] status(
                kicks_after(kicks, seq![Event::Kick { robot, angle_deg }], now),
                other,
                contact,
            ) == status(kicks, other, contact),
    decreases n,
{
    let events = seq![Event::Kick { robot, angle_deg }];
    reveal_with_fuel(kicks_after, 2);
    assert(events.drop_last() =~= Seq::<Event>::empty());
    let kicked = kicks_after(kicks, events, now);
    assert(kicked == kicks.insert(key(robot), (now, is_chip(angle_deg))));
    lemma_kept(kicked, key(robot), now as int, n);
    assert forall|other: RobotId| other != robot implies #[trigger] status(kicked, other, contact)
        == status(kicks, other, contact) by {
        law_keys_are_unique(other, robot);
    }
}

proof fn lemma_kept(kicks: Kicks, k: u64, now: int, n: nat)
    requires
        kicks.contains_key(k),
        kicks[k].0 == now,
    ensures
        kicks_later(kicks, now, n).contains_key(k) <==> n < KICK_STATUS_FRAMES,
        n < KICK_STATUS_FRAMES ==> kicks_later(kicks, now, n)[k] == kicks[k],
    decreases n,
{
    if n > 0 {
        lemma_kept(kicks, k, now, (n - 1) as nat);
    }
}

/// No robot is listed twice.
pub open spec fn listed_once(robots: Seq<(RobotId, bool)>) -> bool {
    forall|i: int, j: int|
        0 <= i < j < robots.len() ==> (#[trigger] robots[i]).0 != (#[trigger] robots[j]).0
}

proof fn lemma_sent_holds(
    sent: Map<u64, LegacyStatus>,
    kicks: Kicks,
    team: Team,
    robots: Seq<(RobotId, bool)>,
    i: int,
)
    requires
        listed_once(robots),
        0 <= i < robots.len(),
        robots[i].0.team == team,
    ensures
        ({
            let m = sent_after(sent, kicks, team, robots);
            m.contains_key(key(robots[i].0)) && m[key(robots[i].0)] == status(
                kicks,
                robots[i].0,
                robots[i].1,
            )
        }),
    decreases robots.len(),
{
    let rest = robots.drop_last();
    if i < rest.len() {
        assert forall|a: int, b: int| 0 <= a < b < rest.len() implies (#[trigger] rest[a]).0 != (
        #[trigger] rest[b]).0 by {
            assert(robots[a].0 != robots[b].0);
        }
        lemma_sent_holds(sent, kicks, team, rest, i);
        assert(robots[i].0 != robots[robots.len() - 1].0);
        law_keys_are_unique(robots[i].0, robots.last().0);
    }
}

proof fn lemma_nothing_new(
    sent: Map<u64, LegacyStatus>,
    kicks: Kicks,
    team: Team,
    robots: Seq<(RobotId, bool)>,
)
    requires
        forall|i: int|
            0 <= i < robots.len() && (#[trigger] robots[i]).0.team == team ==> sent.contains_key(
                key(robots[i].0),
            ) && sent[key(robots[i].0)] == status(kicks, robots[i].0, robots[i].1),
    ensures
        changes(sent, kicks, team, robots).len() == 0,
        sent_after(sent, kicks, team, robots) == sent,
    decreases robots.len(),
{
    if robots.len() > 0 {
        let rest = robots.drop_last();
        assert forall|i: int| 0 <= i < rest.len() && (#[trigger] rest[i]).0.team
            == team implies sent.contains_key(key(rest[i].0)) && sent[key(rest[i].0)] == status(
            kicks,
            rest[i].0,
            rest[i].1,
        ) by {
            assert(robots[i] == rest[i]);
        }
        lemma_nothing_new(sent, kicks, team, rest);
        let (id, contact) = robots.last();
        assert(robots[robots.len() - 1] == robots.last());
        if id.team == team {
            assert(sent.insert(key(id), status(kicks, id, contact)) =~= sent);
        }
    }
}

/// A status is only sent again when it changed: reporting the same robots in the
/// same state a second time gives nothing, and leaves what was sent as it is.
pub proof fn law_unchanged_status_is_not_sent_again(
    sent: Map<u64, LegacyStatus>,
    kicks: Kicks,
    team: Team,
    robots: Seq<(RobotId, bool)>,
)
    requires
        listed_once(robots),
    ensures
        ({
            let m = sent_after(sent, kicks, team, robots);
            changes(m, kicks, team, robots).len() == 0 && sent_after(m, kicks, team, robots) == m
        }),
{
    let m = sent_after(sent, kicks, team, robots);
    assert forall|i: int| 0 <= i < robots.len() && (#[trigger] robots[i]).0.team
        == team implies m.contains_key(key(robots[i].0)) && m[key(robots[i].0)] == status(
        kicks,
        robots[i].0,
        robots[i].1,
    ) by {
        lemma_sent_holds(sent, kicks, team, robots, i);
    }
    lemma_nothing_new(m, kicks, team, robots);
}

/// Reporting to one team neither sends nor remembers anything of the other.
pub proof fn law_teams_are_reported_separately(
    sent: Map<u64, LegacyStatus>,
    kicks: Kicks,
    team: Team,
    robots: Seq<(RobotId, bool)>,
    other: RobotId,
)
    requires
        other.team != team,
    ensures
        sent_after(sent, kicks, team, robots).contains_key(key(other)) == sent.contains_key(
            key(other),
        ),
        sent.contains_key(key(other)) ==> sent_after(sent, kicks, team, robots)[key(other)]
            == sent[key(other)],
        changes(sent, kicks, team, robots).len() <= robots.len(),
    decreases robots.len(),
{
    if robots.len() > 0 {
        law_teams_are_reported_separately(sent, kicks, team, robots.drop_last(), other);
        law_keys_are_unique(robots.last().0, other);
    }
}

/// The dribbler turns ten thousand times a minute by default.
pub proof fn law_default_rpm_in_decimals()
    ensures
        (Double { bits: DEFAULT_DRIBBLER_RPM_BITS }).reads(10000, 1),
        !(Double { bits: DEFAULT_DRIBBLER_RPM_BITS }).negative(),
{
    lemma_powers();
}

/// The yellow flag means yellow, and a legacy number is the robot's, 255 at most.
pub proof fn law_legacy_robots(yellow: bool, team: Team, id: u32)
    ensures
        flagged_team(yellow) is Yellow <==> yellow,
        numbered(team, id).team == team,
        id <= 255 ==> numbered(team, id).number == id,
        id >= 255 ==> numbered(team, id).number == 255,
{
}

/// A legacy command drives the wheels if it says so: its first wheel is the front left
/// one, then back left, back right, front right. Else it drives the robot: forward by
/// the tangential speed, left by the normal one.
pub proof fn law_legacy_movements(cmd: GrSimRobotCommand, max_rpm: Option<Double>)
    ensures
        ({
            let m = grsim_command(cmd, max_rpm).movement;
            &&& cmd.wheelsspeed ==> (m matches Some(
                MoveCommand::WheelVelocity { front_right, back_right, back_left, front_left },
            ) && front_left == cmd.wheel1 && back_left == cmd.wheel2 && back_right == cmd.wheel3
                && front_right == cmd.wheel4)
            &&& !cmd.wheelsspeed ==> (m matches Some(
                MoveCommand::LocalVelocity { forward, left, angular },
            ) && forward == cmd.veltangent && left == cmd.velnormal && angular == cmd.velangular)
        }),
{
}

/// A legacy command kicks with its speed and angle if the speed is above a millionth,
/// else not at all; its spinner turns at full speed, ten thousand if that is unknown.
pub proof fn law_legacy_kicks_and_spinner(cmd: GrSimRobotCommand, max_rpm: Option<Double>)
    ensures
        ({
            let c = grsim_command(cmd, max_rpm);
            let kicks = (Double { bits: MICRO_BITS }).lt(cmd.kick_speed);
            &&& kicks ==> c.kick_speed == Some(cmd.kick_speed) && c.kick_angle_deg == cmd.kick_angle_deg
            &&& !kicks ==> c.kick_speed is None && c.kick_angle_deg.bits == 0
            &&& !cmd.spinner ==> c.dribbler_rpm is None
            &&& cmd.spinner && max_rpm is Some ==> c.dribbler_rpm == max_rpm
            &&& cmd.spinner && max_rpm is None ==> (c.dribbler_rpm matches Some(r) && r.bits
                == DEFAULT_DRIBBLER_RPM_BITS)
        }),
{
}

/// A legacy ball is put on the ground where both coordinates are given, and moves along
/// the ground by those velocities that are given.
pub proof fn law_legacy_balls(b: GrSimBallReplacement)
    ensures
        ({
            let t = grsim_ball(b);
            &&& t.position is Some <==> b.x is Some && b.y is Some
            &&& t.position matches Some(p) ==> Some(p.x) == b.x && Some(p.y) == b.y && p.z.bits == 0
            &&& t.velocity is Some <==> b.vx is Some || b.vy is Some
            &&& t.velocity matches Some(v) ==> {
                &&& b.vx matches Some(x) ==> v.x == x
                &&& b.vx is None ==> v.x.bits == 0
                &&& b.vy matches Some(y) ==> v.y == y
                &&& b.vy is None ==> v.y.bits == 0
                &&& v.z.bits == 0
            }
            &&& !t.teleport_safely && !t.roll && !t.by_force
        }),
{
}

/// A legacy robot is put where it is said to be, facing as it is said to, at rest, and
/// present unless it is turned off.
pub proof fn law_legacy_replacements(r: GrSimRobotReplacement)
    ensures
        ({
            let t = grsim_robot(r);
            &&& t.id.team is Yellow <==> r.yellowteam
            &&& r.id <= 255 ==> t.id.number == r.id
            &&& t.position matches Some(p) && p.x == r.x && p.y == r.y
            &&& t.orientation == Some(r.dir)
            &&& t.velocity matches Some(v) && v.x.bits == 0 && v.y.bits == 0
            &&& t.angular_velocity matches Some(w) && w.bits == 0
            &&& t.present == Some(r.turnon is None || r.turnon->0)
            &&& !t.by_force
        }),
{
}

/// A kick above a thousandth of a degree is a chip, and a kick counts for ten frames.
pub proof fn law_legacy_kick_limits(angle_deg: Double, f: u64, now: int)
    ensures
        is_chip(angle_deg) <==> (Double { bits: MILLI_BITS }).lt(angle_deg),
        recent(f, now) <==> now < f + 10,
{
}

/// One more event notes a kick at this frame for its robot and changes nothing else.
pub proof fn law_kicks_are_noted_in_order(kicks: Kicks, events: Seq<Event>, e: Event, now: u64, k: u64)
    ensures
        kicks_after(kicks, Seq::empty(), now) == kicks,
        ({
            let before = kicks_after(kicks, events, now);
            let after = kicks_after(kicks, events.push(e), now);
            &&& e is Other ==> after == before
            &&& e matches Event::Kick { robot, angle_deg } ==> {
                &&& after.contains_key(key(robot))
                &&& after[key(robot)].0 == now
                &&& after[key(robot)].1 <==> (Double { bits: MILLI_BITS }).lt(angle_deg)
                &&& k != key(robot) ==> (after.contains_key(k) <==> before.contains_key(k))
                &&& k != key(robot) && before.contains_key(k) ==> after[k] == before[k]
            }
        }),
{
    assert(events.push(e).drop_last() =~= events);
}

/// A status shows the break beam and the robot's kick that counts, as flat or as chip;
/// its row carries it under the robot's number.
pub proof fn law_status_shows_beam_and_kick(kicks: Kicks, id: RobotId, ball_contact: bool)
    ensures
        ({
            let s = status(kicks, id, ball_contact);
            let r = row(id, s);
            &&& s.infrared == ball_contact
            &&& s.chip_kick <==> kicks.contains_key(key(id)) && kicks[key(id)].1
            &&& s.flat_kick <==> kicks.contains_key(key(id)) && !kicks[key(id)].1
            &&& r.robot_id == id.number
            &&& r.infrared == s.infrared
            &&& r.flat_kick == s.flat_kick
            &&& r.chip_kick == s.chip_kick
        }),
{
}

proof fn lemma_unlisted_is_untouched(
    sent: Map<u64, LegacyStatus>,
    kicks: Kicks,
    team: Team,
    robots: Seq<(RobotId, bool)>,
    id: RobotId,
)
    requires
        forall|i: int| 0 <= i < robots.len() ==> (#[trigger] robots[i]).0 != id,
    ensures
        sent_after(sent, kicks, team, robots).contains_key(key(id)) <==> sent.contains_key(key(id)),
        sent.contains_key(key(id)) ==> sent_after(sent, kicks, team, robots)[key(id)] == sent[key(id)],
    decreases robots.len(),
{
    if robots.len() > 0 {
        let rest = robots.drop_last();
        assert forall|i: int| 0 <= i < rest.len() implies (#[trigger] rest[i]).0 != id by {
            assert(rest[i] == robots[i]);
        }
        lemma_unlisted_is_untouched(sent, kicks, team, rest, id);
        assert(robots[robots.len() - 1].0 != id);
        law_keys_are_unique(robots.last().0, id);
    }
}

/// The status of a robot of the team was last sent as this.
pub open spec fn is_known(sent: Map<u64, LegacyStatus>, id: RobotId, s: LegacyStatus) -> bool {
    sent.contains_key(key(id)) && sent[key(id)] == s
}

/// A robot of the team is reported exactly if its status is not the one last sent; and
/// nothing else is reported.
pub proof fn law_changed_statuses_are_sent(
    sent: Map<u64, LegacyStatus>,
    kicks: Kicks,
    team: Team,
    robots: Seq<(RobotId, bool)>,
)
    requires
        listed_once(robots),
    ensures
        forall|i: int|
            0 <= i < robots.len() && (#[trigger] robots[i]).0.team == team && !is_known(
                sent,
                robots[i].0,
                status(kicks, robots[i].0, robots[i].1),
            ) ==> changes(sent, kicks, team, robots).contains(
                row(robots[i].0, status(kicks, robots[i].0, robots[i].1)),
            ),
        forall|k: int|
            0 <= k < changes(sent, kicks, team, robots).len() ==> exists|i: int|
                0 <= i < robots.len() && (#[trigger] robots[i]).0.team == team && !is_known(
                    sent,
                    robots[i].0,
                    status(kicks, robots[i].0, robots[i].1),
                ) && #[trigger] changes(sent, kicks, team, robots)[k] == row(
                    robots[i].0,
                    status(kicks, robots[i].0, robots[i].1),
                ),
    decreases robots.len(),
{
    if robots.len() > 0 {
        let rest = robots.drop_last();
        let n = rest.len() as int;
        assert forall|i: int| 0 <= i < n implies #[trigger] rest[i] == robots[i] by {}
        assert(listed_once(rest));
        law_changed_statuses_are_sent(sent, kicks, team, rest);
        let p = changes(sent, kicks, team, rest);
        let q = changes(sent, kicks, team, robots);
        let (id, contact) = robots[n];
        let s = status(kicks, id, contact);
        assert forall|i: int| 0 <= i < n implies (#[trigger] rest[i]).0 != id by {
            assert(robots[i].0 != robots[n].0);
        }
        lemma_unlisted_is_untouched(sent, kicks, team, rest, id);
        assert forall|i: int| 0 <= i < robots.len() && (#[trigger] robots[i]).0.team == team && !is_known(
            sent,
            robots[i].0,
            status(kicks, robots[i].0, robots[i].1),
        ) implies q.contains(row(robots[i].0, status(kicks, robots[i].0, robots[i].1))) by {
            let x = row(robots[i].0, status(kicks, robots[i].0, robots[i].1));
            if i < n {
                assert(rest[i] == robots[i]);
                let k = choose|k: int| 0 <= k < p.len() && p[k] == x;
                assert(q[k] == x);
            } else {
                assert(q[q.len() - 1] == x);
            }
        }
        assert forall|k: int| 0 <= k < q.len() implies exists|i: int|
            0 <= i < robots.len() && (#[trigger] robots[i]).0.team == team && !is_known(
                sent,
                robots[i].0,
                status(kicks, robots[i].0, robots[i].1),
            ) && #[trigger] q[k] == row(robots[i].0, status(kicks, robots[i].0, robots[i].1)) by {
            if k < p.len() {
                assert(q[k] == p[k]);
                let i = choose|i: int|
                    0 <= i < rest.len() && (#[trigger] rest[i]).0.team == team && !is_known(
                        sent,
                        rest[i].0,
                        status(kicks, rest[i].0, rest[i].1),
                    ) && p[k] == row(rest[i].0, status(kicks, rest[i].0, rest[i].1));
                assert(robots[i] == rest[i]);
            } else {
                assert(robots[n].0.team == team);
            }
        }
    }
}

/// The legacy ports and how long a kick is shown.
pub proof fn law_legacy_numbers()
    ensures
        LEGACY_COMMAND_PORT == 20011,
        LEGACY_STATUS_PORT_BLUE == 30011,
        LEGACY_STATUS_PORT_YELLOW == LEGACY_STATUS_PORT_BLUE + 1,
        KICK_STATUS_FRAMES == 10,
{
}

/// After a frame exactly the kicks of the last ten frames still count, as they were.
pub proof fn law_old_kicks_are_forgotten(kicks: Kicks, now: int, k: u64)
    ensures
        recent_kicks(kicks, now).contains_key(k) <==> kicks.contains_key(k) && now - kicks[k].0 < 10,
        recent_kicks(kicks, now).contains_key(k) ==> recent_kicks(kicks, now)[k] == kicks[k],
{
}

} // verus!
