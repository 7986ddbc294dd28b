//! Applying a `SimulatorCommand`.
//!
//! What a command asks of the world and what is reported back is decided here;
//! the caller hands the requests to the world and its replies back.
use vstd::prelude::*;

use crate::double::Double;
use crate::net::convert;
use crate::net::geometry::{
    cameras_from_geometry, cameras_of, CalibrationPosition, CameraConfig,
};
use crate::net::sim;
use crate::net::world::{Realism, RobotId, RobotSpecs, SimError, TeleportBall, TeleportRobot};
use crate::text;

verus! {

/// Side effects of a `SimulatorCommand` that the runner (not the world) owns.
#[derive(Clone, Debug, PartialEq, Eq)]
pub struct ControlOutcome {
    /// Errors to report back to the sender.
    pub errors: Vec<sim::SimulatorError>,
    /// New real-time scaling; `0.0` pauses the simulation.
    pub simulation_speed: Option<Double>,
    /// New vision publish port.
    pub vision_port: Option<u16>,
}

/// Code and message of each error.
pub type ErrorList = Seq<(Option<Seq<char>>, Option<Seq<char>>)>;

/// An outcome as errors, scaling and port.
pub type Outcome = (ErrorList, Option<Double>, Option<u16>);

/// Two outcomes one after the other: all errors, and the later values where
/// there are any.
pub open spec fn merged(a: Outcome, b: Outcome) -> Outcome {
    (a.0 + b.0, convert::first_set(b.1, a.1), convert::first_set(b.2, a.2))
}

impl View for ControlOutcome {
    type V = Outcome;

    open spec fn view(&self) -> Outcome {
        (self.error_list(), self.simulation_speed, self.vision_port)
    }
}

impl ControlOutcome {
    /// No errors, nothing changed.
    pub fn new() -> (res: Self)
        ensures
            res.errors@.len() == 0,
            res.simulation_speed is None,
            res.vision_port is None,
    {
        ControlOutcome { errors: Vec::new(), simulation_speed: None, vision_port: None }
    }

    /// Code and message of each error.
    pub open spec fn error_list(&self) -> ErrorList {
        sim::errors_view(self.errors@)
    }

    /// Merge another outcome into this one (later values win).
    pub fn merge(&mut self, other: ControlOutcome)
        ensures
            final(self)@ == merged(old(self)@, other@),
    {
        let ghost before = self.errors@;
        let mut more = other.errors;
        self.errors.append(&mut more);
        assert(self.error_list() =~= sim::errors_view(before) + other.error_list());
        if other.simulation_speed.is_some() {
            self.simulation_speed = other.simulation_speed;
        }
        if other.vision_port.is_some() {
            self.vision_port = other.vision_port;
        }
    }

    /// The wire response.
    pub fn response(&self) -> (res: sim::SimulatorResponse)
        ensures
            sim::errors_view(res.errors@) == self.error_list(),
    {
        sim::SimulatorResponse { errors: sim::copy_errors(&self.errors) }
    }

    fn report(&mut self, e: sim::SimulatorError)
        ensures
            final(self).error_list() == old(self).error_list().push(e@),
            final(self).simulation_speed == old(self).simulation_speed,
            final(self).vision_port == old(self).vision_port,
    {
        let ghost before = self.errors@;
        self.errors.push(e);
        assert(self.error_list() =~= sim::errors_view(before).push(e@));
    }
}

// ---------------------------------------------------------------- order

/// One part of a `SimulatorCommand`.
#[derive(Clone, Copy, Debug, PartialEq, Eq, Structural)]
pub enum Phase {
    /// The `SimulatorControl`.
    Control,
    /// The geometry of the `SimulatorConfig`.
    Geometry,
    /// The robot specs at this place in the `SimulatorConfig`.
    Specs(usize),
    /// The realism settings of the `SimulatorConfig`.
    Realism,
    /// The vision port of the `SimulatorConfig`.
    VisionPort,
}

/// A list of one element when a condition holds, else of none.
pub open spec fn present<T>(condition: bool, t: T) -> Seq<T> {
    if condition {
        seq![t]
    } else {
        seq![]
    }
}

/// The parts of a command in the order in which they are applied: control
/// before configuration, and in the configuration geometry, specs, realism, port.
pub open spec fn phases(cmd: sim::SimulatorCommand) -> Seq<Phase> {
    let control = present(cmd.control is Some, Phase::Control);
    match cmd.config {
        None => control,
        Some(c) => control + present(c.geometry is Some, Phase::Geometry) + Seq::new(
            c.robot_specs@.len(),
            |i: int| Phase::Specs(i as usize),
        ) + present(c.realism_config is Some, Phase::Realism) + present(
            c.vision_port is Some,
            Phase::VisionPort,
        ),
    }
}

/// The parts of a command in the order in which they are applied.
pub fn apply_simulator_command(cmd: &sim::SimulatorCommand) -> (res: Vec<Phase>)
    ensures
        res@ == phases(*cmd),
{
    let mut out: Vec<Phase> = Vec::new();
    if cmd.control.is_some() {
        out.push(Phase::Control);
    }
    let ghost first = present(cmd.control is Some, Phase::Control);
    assert(out@ =~= first);
    if let Some(c) = &cmd.config {
        if c.geometry.is_some() {
            out.push(Phase::Geometry);
        }
        let ghost second = first + present(c.geometry is Some, Phase::Geometry);
        assert(out@ =~= second);
        let mut i: usize = 0;
        while i < c.robot_specs.len()
            invariant
                i <= c.robot_specs@.len(),
                out@ == second + Seq::new(i as nat, |j: int| Phase::Specs(j as usize)),
            decreases c.robot_specs.len() - i,
        {
            out.push(Phase::Specs(i));
            i += 1;
            assert(out@ =~= second + Seq::new(i as nat, |j: int| Phase::Specs(j as usize)));
        }
        let ghost third = out@;
        if c.realism_config.is_some() {
            out.push(Phase::Realism);
        }
        assert(out@ =~= third + present(c.realism_config is Some, Phase::Realism));
        let ghost fourth = out@;
        if c.vision_port.is_some() {
            out.push(Phase::VisionPort);
        }
        assert(out@ =~= fourth + present(c.vision_port is Some, Phase::VisionPort));
    }
    out
}

// ---------------------------------------------------------------- control

/// Whether a real-time scaling is one that can be set.
pub open spec fn valid_speed(speed: Double) -> bool {
    speed.finite() && Double::zero().le(speed)
}

/// What is asked of the world for a `SimulatorControl`.
#[derive(Clone, Debug, PartialEq, Eq)]
pub struct ControlRequests {
    /// The ball to move.
    pub ball: Option<TeleportBall>,
    /// The robots to move, in order.
    pub robots: Vec<TeleportRobot>,
}

/// The robot teleports of a list that are accepted, in order.
pub open spec fn robot_requests(t: Seq<sim::TeleportRobot>) -> Seq<TeleportRobot>
    decreases t.len(),
{
    if t.len() == 0 {
        seq![]
    } else if convert::robot_refusal(t.last()) is None {
        robot_requests(t.drop_last()).push(convert::robot_request(t.last()))
    } else {
        robot_requests(t.drop_last())
    }
}

/// The ball teleport, when there is one and it is accepted.
pub open spec fn ball_request(t: Option<sim::TeleportBall>) -> Option<TeleportBall> {
    match t {
        Some(b) => if convert::ball_refusal(b) is None {
            Some(convert::ball_request(b))
        } else {
            None
        },
        None => None,
    }
}

/// The error that a ball teleport gives: its refusal, or what the world said.
pub open spec fn ball_errors(t: Option<sim::TeleportBall>, reply: Option<SimError>) -> ErrorList {
    match t {
        Some(b) => match convert::ball_refusal(b) {
            Some((code, message)) => seq![convert::error_view(code, message)],
            None => match reply {
                Some(e) => seq![convert::sim_error_view(e)],
                None => seq![],
            },
        },
        None => seq![],
    }
}

/// The errors that robot teleports give, in order: refusals, and what the world
/// said to each accepted one.
pub open spec fn robot_errors(t: Seq<sim::TeleportRobot>, replies: Seq<Option<SimError>>) -> ErrorList
    decreases t.len(),
{
    if t.len() == 0 {
        seq![]
    } else {
        let rest = t.drop_last();
        let before = robot_errors(rest, replies);
        match convert::robot_refusal(t.last()) {
            Some((code, message)) => before.push(convert::error_view(code, message)),
            None => match replies[robot_requests(rest).len() as int] {
                Some(e) => before.push(convert::sim_error_view(e)),
                None => before,
            },
        }
    }
}

/// The error that a real-time scaling gives; `shown` is the scaling as text.
pub open spec fn speed_errors(speed: Option<Double>, shown: Seq<char>) -> ErrorList {
    match speed {
        Some(s) => if valid_speed(s) {
            seq![]
        } else {
            seq![
                convert::error_view(
                    "UNSUPPORTED"@,
                    ("simulation_speed "@ + shown) + " is not a valid scaling"@,
                ),
            ]
        },
        None => seq![],
    }
}

proof fn lemma_requests_grow(t: Seq<sim::TeleportRobot>, n: int)
    requires
        0 <= n <= t.len(),
    ensures
        robot_requests(t.take(n)).len() <= robot_requests(t).len(),
    decreases t.len(),
{
    if n == t.len() {
        assert(t.take(n) =~= t);
    } else {
        assert(t.take(n) =~= t.drop_last().take(n));
        lemma_requests_grow(t.drop_last(), n);
    }
}

/// What is asked of the world for a `SimulatorControl`.
pub fn control_requests(control: &sim::SimulatorControl) -> (res: ControlRequests)
    ensures
        res.ball == ball_request(control.teleport_ball),
        res.robots@ == robot_requests(control.teleport_robot@),
{
    let ball = match &control.teleport_ball {
        Some(t) => match convert::teleport_ball_from_proto(t) {
            Ok(r) => Some(r),
            Err(_) => None,
        },
        None => None,
    };
    let mut robots: Vec<TeleportRobot> = Vec::new();
    let list = &control.teleport_robot;
    let mut i: usize = 0;
    while i < list.len()
        invariant
            i <= list@.len(),
            robots@ == robot_requests(list@.take(i as int)),
        decreases list.len() - i,
    {
        assert(list@.take(i + 1).drop_last() =~= list@.take(i as int));
        if let Ok(r) = convert::teleport_robot_from_proto(&list[i]) {
            robots.push(r);
        }
        i += 1;
    }
    assert(list@.take(i as int) =~= list@);
    ControlRequests { ball, robots }
}

/// Account for a `SimulatorControl` in `out`. `ball_reply` is the world's error
/// to the ball teleport of [`control_requests`], `robot_replies` its errors to
/// the robot teleports (`None` each where it had none), `shown_speed` the
/// real-time scaling as text.
pub fn apply_control(
    control: &sim::SimulatorControl,
    shown_speed: &str,
    ball_reply: Option<SimError>,
    robot_replies: &Vec<Option<SimError>>,
    out: &mut ControlOutcome,
)
    requires
        robot_replies@.len() == robot_requests(control.teleport_robot@).len(),
    ensures
        final(out).error_list() == old(out).error_list() + speed_errors(
            control.simulation_speed,
            shown_speed@,
        ) + ball_errors(control.teleport_ball, ball_reply) + robot_errors(
            control.teleport_robot@,
            robot_replies@,
        ),
        final(out).simulation_speed == match control.simulation_speed {
            Some(s) => if valid_speed(s) {
                Some(s)
            } else {
                old(out).simulation_speed
            },
            None => old(out).simulation_speed,
        },
        final(out).vision_port == old(out).vision_port,
{
    let ghost start = out.error_list();
    let ghost port = out.vision_port;
    if let Some(speed) = control.simulation_speed {
        if speed.is_finite() && Double::zero().is_at_most(speed) {
            out.simulation_speed = Some(speed);
        } else {
            let head = text::join("simulation_speed ", shown_speed);
            let message = text::join(head.as_str(), " is not a valid scaling");
            out.report(convert::error("UNSUPPORTED", message.as_str()));
        }
    }
    let ghost first = speed_errors(control.simulation_speed, shown_speed@);
    assert(out.error_list() =~= start + first);
    if let Some(t) = &control.teleport_ball {
        match convert::teleport_ball_from_proto(t) {
            Ok(_) => {
                if let Some(e) = &ball_reply {
                    out.report(convert::sim_error(e));
                }
            },
            Err(e) => {
                out.report(convert::sim_error(&e));
            },
        }
    }
    let ghost second = ball_errors(control.teleport_ball, ball_reply);
    assert(out.error_list() =~= start + first + second);
    let ghost speed_now = out.simulation_speed;
    let list = &control.teleport_robot;
    let mut i: usize = 0;
    let mut next: usize = 0;
    while i < list.len()
        invariant
            i <= list@.len(),
            list@ == control.teleport_robot@,
            robot_replies@.len() == robot_requests(list@).len(),
            next == robot_requests(list@.take(i as int)).len(),
            next <= i,
            next <= robot_replies@.len(),
            out.error_list() == start + first + second + robot_errors(
                list@.take(i as int),
                robot_replies@,
            ),
            out.simulation_speed == speed_now,
            out.vision_port == port,
        decreases list.len() - i,
    {
        proof {
            assert(list@.take(i + 1).drop_last() =~= list@.take(i as int));
            lemma_requests_grow(list@, i + 1);
        }
        match convert::teleport_robot_from_proto(&list[i]) {
            Ok(_) => {
                if let Some(e) = &robot_replies[next] {
                    out.report(convert::sim_error(e));
                }
                next += 1;
            },
            Err(e) => {
                out.report(convert::sim_error(&e));
            },
        }
        i += 1;
        assert(out.error_list() =~= start + first + second + robot_errors(
            list@.take(i as int),
            robot_replies@,
        ));
    }
    assert(list@.take(i as int) =~= list@);
}

// ---------------------------------------------------------------- configuration

/// Where the application of one `RobotSpecs` stands; each state but the last
/// says what the world is asked next.
#[derive(Clone, Copy, Debug, PartialEq, Eq, Structural)]
pub enum SpecState {
    /// Read the specs of the robot, if it is there.
    ReadRobot(RobotId),
    /// Set the specs of the robot.
    SetRobot(RobotId, RobotSpecs),
    /// Read the default specs of the robot's team.
    ReadDefault(RobotId),
    /// Set the default specs of the robot's team.
    SetDefault(RobotId, RobotSpecs),
    /// Nothing is left to do.
    Done,
}

/// The world's reply to what a [`SpecState`] asks.
#[derive(Clone, Debug, PartialEq, Eq)]
pub enum SpecReply {
    /// The robot's specs, if it is there.
    Robot(Option<RobotSpecs>),
    /// The team's default specs.
    Default(RobotSpecs),
    /// What setting the specs gave.
    Outcome(Option<SimError>),
}

/// Whether a reply is one to what a state asks.
pub open spec fn answers(state: SpecState, reply: SpecReply) -> bool {
    match state {
        SpecState::ReadRobot(_) => reply is Robot,
        SpecState::SetRobot(_, _) => reply is Outcome,
        SpecState::ReadDefault(_) => reply is Default,
        SpecState::SetDefault(_, _) => reply is Outcome,
        SpecState::Done => false,
    }
}

/// The state that one `RobotSpecs` message starts in.
pub open spec fn spec_start(spec: sim::RobotSpecs) -> SpecState {
    if convert::id_refusal(spec.id) is None {
        SpecState::ReadRobot(convert::id_of(spec.id))
    } else {
        SpecState::Done
    }
}

/// The errors that a `RobotSpecs` message starts with.
pub open spec fn spec_start_errors(spec: sim::RobotSpecs) -> ErrorList {
    match convert::id_refusal(spec.id) {
        Some((code, message)) => seq![convert::error_view(code, message)],
        None => seq![],
    }
}

/// The state after a reply. A spec for a robot applies to that robot and then
/// also becomes the team default for robots created later; when the robot does
/// not exist only the default changes, and when the world refuses the robot's
/// specs the default stays.
pub open spec fn spec_next(
    spec: sim::RobotSpecs,
    state: SpecState,
    reply: SpecReply,
) -> SpecState {
    match (state, reply) {
        (SpecState::ReadRobot(id), SpecReply::Robot(Some(s))) => SpecState::SetRobot(
            id,
            convert::merged_specs(s, spec),
        ),
        (SpecState::ReadRobot(id), SpecReply::Robot(None)) => SpecState::ReadDefault(id),
        (SpecState::SetRobot(id, _), SpecReply::Outcome(None)) => SpecState::ReadDefault(id),
        (SpecState::ReadDefault(id), SpecReply::Default(s)) => SpecState::SetDefault(
            id,
            convert::merged_specs(s, spec),
        ),
        _ => SpecState::Done,
    }
}

/// The errors that a reply adds.
pub open spec fn reply_errors(reply: SpecReply) -> ErrorList {
    match reply {
        SpecReply::Outcome(Some(e)) => seq![convert::sim_error_view(e)],
        _ => seq![],
    }
}

/// Start applying one `RobotSpecs` message.
pub fn start_spec(spec: &sim::RobotSpecs, out: &mut ControlOutcome) -> (res: SpecState)
    ensures
        res == spec_start(*spec),
        final(out).error_list() == old(out).error_list() + spec_start_errors(*spec),
        final(out).simulation_speed == old(out).simulation_speed,
        final(out).vision_port == old(out).vision_port,
{
    let ghost start = out.error_list();
    match convert::robot_id_from_proto(&spec.id) {
        Ok(id) => {
            assert(start =~= start + spec_start_errors(*spec));
            SpecState::ReadRobot(id)
        },
        Err(e) => {
            out.report(convert::sim_error(&e));
            assert(out.error_list() =~= start + spec_start_errors(*spec));
            SpecState::Done
        },
    }
}

/// Go on applying one `RobotSpecs` message with the world's reply.
pub fn step_spec(
    spec: &sim::RobotSpecs,
    state: SpecState,
    reply: &SpecReply,
    out: &mut ControlOutcome,
) -> (res: SpecState)
    requires
        answers(state, *reply),
    ensures
        res == spec_next(*spec, state, *reply),
        final(out).error_list() == old(out).error_list() + reply_errors(*reply),
        final(out).simulation_speed == old(out).simulation_speed,
        final(out).vision_port == old(out).vision_port,
{
    let ghost start = out.error_list();
    if let SpecReply::Outcome(Some(e)) = reply {
        out.report(convert::sim_error(e));
    }
    assert(out.error_list() =~= start + reply_errors(*reply));
    match (state, reply) {
        (SpecState::ReadRobot(id), SpecReply::Robot(Some(s))) => SpecState::SetRobot(
            id,
            convert::merge_robot_specs(*s, spec),
        ),
        (SpecState::ReadRobot(id), SpecReply::Robot(None)) => SpecState::ReadDefault(id),
        (SpecState::SetRobot(id, _), SpecReply::Outcome(None)) => SpecState::ReadDefault(id),
        (SpecState::ReadDefault(id), SpecReply::Default(s)) => SpecState::SetDefault(
            id,
            convert::merge_robot_specs(*s, spec),
        ),
        _ => SpecState::Done,
    }
}

/// The cameras to set for a geometry packet: those its calibrations place, or
/// none when there are none, which keeps the rig.
pub fn rig_request(calib: &Vec<CalibrationPosition>) -> (res: Option<Vec<CameraConfig>>)
    ensures
        match res {
            Some(c) => c@.len() > 0 && c@ == cameras_of(calib@),
            None => cameras_of(calib@).len() == 0,
        },
{
    let cameras = cameras_from_geometry(calib);
    if cameras.len() == 0 {
        None
    } else {
        Some(cameras)
    }
}

/// One error for each ignored realism extension.
pub open spec fn ignored_errors(urls: Seq<Seq<char>>) -> ErrorList {
    Seq::new(
        urls.len(),
        |i: int|
            convert::error_view("UNSUPPORTED"@, "unknown realism custom message "@ + urls[i]),
    )
}

/// The realism settings to set for a `RealismConfig`; every extension that is not
/// understood is reported.
pub fn realism_request(realism: Realism, cfg: &sim::RealismConfig, out: &mut ControlOutcome) -> (res:
    Realism)
    ensures
        res == convert::merged_realism(realism, cfg.custom@),
        final(out).error_list() == old(out).error_list() + ignored_errors(
            convert::ignored_urls(cfg.custom@),
        ),
        final(out).simulation_speed == old(out).simulation_speed,
        final(out).vision_port == old(out).vision_port,
{
    let ghost start = out.error_list();
    let ghost speed = out.simulation_speed;
    let ghost port = out.vision_port;
    let (merged, ignored) = convert::merge_realism(realism, cfg);
    let ghost urls = convert::strings_view(ignored@);
    let mut i: usize = 0;
    while i < ignored.len()
        invariant
            i <= ignored@.len(),
            urls == convert::strings_view(ignored@),
            out.error_list() == start + ignored_errors(urls.take(i as int)),
            out.simulation_speed == speed,
            out.vision_port == port,
        decreases ignored.len() - i,
    {
        let message = text::join("unknown realism custom message ", ignored[i].as_str());
        out.report(convert::error("UNSUPPORTED", message.as_str()));
        i += 1;
        assert(ignored_errors(urls.take(i as int)) =~= ignored_errors(urls.take(i - 1)).push(
            convert::error_view("UNSUPPORTED"@, "unknown realism custom message "@ + urls[i - 1]),
        ));
        assert(out.error_list() =~= start + ignored_errors(urls.take(i as int)));
    }
    assert(urls.take(i as int) =~= urls);
    merged
}

/// The errors that a vision port gives.
pub open spec fn port_errors(port: Option<u32>) -> ErrorList {
    match port {
        Some(p) => if p > 65535 {
            seq![
                convert::error_view(
                    "UNSUPPORTED"@,
                    ("vision_port "@ + text::decimal(p as nat)) + " out of range"@,
                ),
            ]
        } else {
            seq![]
        },
        None => seq![],
    }
}

/// Account for the vision port of a `SimulatorConfig`.
pub fn apply_vision_port(port: Option<u32>, out: &mut ControlOutcome)
    ensures
        final(out).error_list() == old(out).error_list() + port_errors(port),
        final(out).simulation_speed == old(out).simulation_speed,
        final(out).vision_port == match port {
            Some(p) => if p <= 65535 {
                Some(p as u16)
            } else {
                old(out).vision_port
            },
            None => old(out).vision_port,
        },
{
    let ghost start = out.error_list();
    if let Some(p) = port {
        if p > 65535 {
            let digits = text::to_decimal(p as u64);
            let head = text::join("vision_port ", digits.as_str());
            let message = text::join(head.as_str(), " out of range");
            out.report(convert::sim_error(&SimError::Unsupported(message)));
        } else {
            out.vision_port = Some(p as u16);
        }
    }
    assert(out.error_list() =~= start + port_errors(port));
}

/// Merging is associative, and merging an outcome in which nothing happened
/// changes nothing.
pub proof fn law_merge_is_associative(a: Outcome, b: Outcome, c: Outcome)
    ensures
        merged(merged(a, b), c) == merged(a, merged(b, c)),
        merged(a, (Seq::empty(), None, None)) == a,
        merged((Seq::empty(), None, None), a) == a,
{
    assert((a.0 + b.0) + c.0 =~= a.0 + (b.0 + c.0));
    assert(a.0 + Seq::empty() =~= a.0);
    assert(Seq::empty() + a.0 =~= a.0);
}

/// A spec for a robot that does not exist never sets a robot's specs: the
/// default is read and set, and that is all.
pub proof fn law_missing_robot_changes_only_the_default(
    spec: sim::RobotSpecs,
    default: RobotSpecs,
    reply: Option<SimError>,
)
    requires
        convert::id_refusal(spec.id) is None,
    ensures
        ({
            let id = convert::id_of(spec.id);
            let s0 = spec_start(spec);
            let s1 = spec_next(spec, s0, SpecReply::Robot(None));
            let s2 = spec_next(spec, s1, SpecReply::Default(default));
            let s3 = spec_next(spec, s2, SpecReply::Outcome(reply));
            &&& s0 == SpecState::ReadRobot(id)
            &&& s1 == SpecState::ReadDefault(id)
            &&& s2 == SpecState::SetDefault(id, convert::merged_specs(default, spec))
            &&& s3 == SpecState::Done
        }),
{
}

/// A spec for a robot that exists sets the robot's specs first and then, unless
/// the world refused them, the team default.
pub proof fn law_present_robot_sets_robot_and_default(
    spec: sim::RobotSpecs,
    current: RobotSpecs,
    default: RobotSpecs,
    refusal: SimError,
)
    requires
        convert::id_refusal(spec.id) is None,
    ensures
        ({
            let id = convert::id_of(spec.id);
            let s1 = spec_next(spec, spec_start(spec), SpecReply::Robot(Some(current)));
            let s2 = spec_next(spec, s1, SpecReply::Outcome(None));
            let s3 = spec_next(spec, s2, SpecReply::Default(default));
            &&& s1 == SpecState::SetRobot(id, convert::merged_specs(current, spec))
            &&& s2 == SpecState::ReadDefault(id)
            &&& s3 == SpecState::SetDefault(id, convert::merged_specs(default, spec))
            &&& spec_next(spec, s1, SpecReply::Outcome(Some(refusal))) == SpecState::Done
        }),
{
}

/// How many replies a state still waits for at most; every reply brings it down,
/// so applying a spec ends after at most four.
pub open spec fn replies_left(state: SpecState) -> nat {
    match state {
        SpecState::ReadRobot(_) => 4,
        SpecState::SetRobot(_, _) => 3,
        SpecState::ReadDefault(_) => 2,
        SpecState::SetDefault(_, _) => 1,
        SpecState::Done => 0,
    }
}

/// Every reply brings the application of a spec nearer to its end.
pub proof fn law_spec_application_ends(spec: sim::RobotSpecs, state: SpecState, reply: SpecReply)
    requires
        answers(state, reply),
    ensures
        replies_left(spec_next(spec, state, reply)) < replies_left(state),
{
}

/// Of two outcomes one after the other the errors of the first come first, and what the
/// second one sets wins.
pub proof fn law_later_outcomes_win(a: Outcome, b: Outcome, i: int)
    ensures
        merged(a, b).0.len() == a.0.len() + b.0.len(),
        0 <= i < a.0.len() ==> merged(a, b).0[i] == a.0[i],
        0 <= i < b.0.len() ==> merged(a, b).0[a.0.len() + i] == b.0[i],
        merged(a, b).1 == if b.1 is Some {
            b.1
        } else {
            a.1
        },
        merged(a, b).2 == if b.2 is Some {
            b.2
        } else {
            a.2
        },
{
}

/// Where a part of a command with `n` robot specs stands among the others.
pub open spec fn turn(p: Phase, n: int) -> int {
    match p {
        Phase::Control => 0,
        Phase::Geometry => 1,
        Phase::Specs(i) => 2 + i,
        Phase::Realism => 2 + n,
        Phase::VisionPort => 3 + n,
    }
}

/// Each part that a command has is applied once: control before the configuration, and
/// in that the geometry, then the specs in their order, then the realism, then the port.
pub proof fn law_parts_are_applied_in_turn(cmd: sim::SimulatorCommand, i: int, j: int)
    requires
        cmd.config matches Some(c) ==> c.robot_specs@.len() <= usize::MAX,
        0 <= i < j < phases(cmd).len(),
    ensures
        ({
            let n = match cmd.config {
                Some(c) => c.robot_specs@.len() as int,
                None => 0,
            };
            turn(phases(cmd)[i], n) < turn(phases(cmd)[j], n)
        }),
{
    if cmd.config is Some {
        lemma_phase_at(cmd, i);
        lemma_phase_at(cmd, j);
    }
}

/// All parts that a command has are applied, and nothing else.
pub proof fn law_all_parts_are_applied(cmd: sim::SimulatorCommand, i: usize)
    requires
        cmd.config matches Some(c) ==> c.robot_specs@.len() <= usize::MAX,
    ensures
        ({
            let all = phases(cmd);
            &&& all.contains(Phase::Control) <==> cmd.control is Some
            &&& all.contains(Phase::Geometry) <==> cmd.config is Some && (cmd.config->0).geometry is Some
            &&& all.contains(Phase::Realism) <==> cmd.config is Some && (
            cmd.config->0).realism_config is Some
            &&& all.contains(Phase::VisionPort) <==> cmd.config is Some && (
            cmd.config->0).vision_port is Some
            &&& all.contains(Phase::Specs(i)) <==> cmd.config is Some && i < (
            cmd.config->0).robot_specs@.len()
        }),
{
    let all = phases(cmd);
    if let Some(c) = cmd.config {
        let a = if cmd.control is Some {
            1int
        } else {
            0
        };
        let b = a + if c.geometry is Some {
            1int
        } else {
            0
        };
        let e = b + c.robot_specs@.len();
        let f = e + if c.realism_config is Some {
            1int
        } else {
            0
        };
        if cmd.control is Some {
            lemma_phase_at(cmd, 0);
            assert(all[0] is Control);
        }
        if c.geometry is Some {
            lemma_phase_at(cmd, a);
            assert(all[a] is Geometry);
        }
        if c.realism_config is Some {
            lemma_phase_at(cmd, e);
            assert(all[e] is Realism);
        }
        if c.vision_port is Some {
            lemma_phase_at(cmd, f);
            assert(all[f] is VisionPort);
        }
        if i < c.robot_specs@.len() {
            lemma_phase_at(cmd, b + i);
            assert(all[b + i] == Phase::Specs(i));
        }
        if all.contains(Phase::Control) {
            lemma_phase_is_there(cmd, Phase::Control);
        }
        if all.contains(Phase::Geometry) {
            lemma_phase_is_there(cmd, Phase::Geometry);
        }
        if all.contains(Phase::Realism) {
            lemma_phase_is_there(cmd, Phase::Realism);
        }
        if all.contains(Phase::VisionPort) {
            lemma_phase_is_there(cmd, Phase::VisionPort);
        }
        if all.contains(Phase::Specs(i)) {
            lemma_phase_is_there(cmd, Phase::Specs(i));
        }
    } else if cmd.control is Some {
        assert(all[0] is Control);
    }
}

proof fn lemma_phase_is_there(cmd: sim::SimulatorCommand, p: Phase)
    requires
        cmd.config matches Some(c) && c.robot_specs@.len() <= usize::MAX,
        phases(cmd).contains(p),
    ensures
        ({
            let c = cmd.config->0;
            match p {
                Phase::Control => cmd.control is Some,
                Phase::Geometry => c.geometry is Some,
                Phase::Specs(i) => i < c.robot_specs@.len(),
                Phase::Realism => c.realism_config is Some,
                Phase::VisionPort => c.vision_port is Some,
            }
        }),
{
    let k = choose|k: int| 0 <= k < phases(cmd).len() && phases(cmd)[k] == p;
    lemma_phase_at(cmd, k);
}

spec fn phase_at(cmd: sim::SimulatorCommand, c: sim::SimulatorConfig, k: int) -> Phase {
    let a = if cmd.control is Some {
        1int
    } else {
        0
    };
    let b = a + if c.geometry is Some {
        1int
    } else {
        0
    };
    let e = b + c.robot_specs@.len();
    let f = e + if c.realism_config is Some {
        1int
    } else {
        0
    };
    if k < a {
        Phase::Control
    } else if k < b {
        Phase::Geometry
    } else if k < e {
        Phase::Specs((k - b) as usize)
    } else if k < f {
        Phase::Realism
    } else {
        Phase::VisionPort
    }
}

proof fn lemma_phase_at(cmd: sim::SimulatorCommand, k: int)
    requires
        cmd.config is Some,
        0 <= k < phases(cmd).len(),
    ensures
        phases(cmd)[k] == phase_at(cmd, cmd.config->0, k),
        k == phases(cmd).len() - 1 ==> (phase_at(cmd, cmd.config->0, k) is VisionPort <==> (
        cmd.config->0).vision_port is Some),
        phase_at(cmd, cmd.config->0, k) is VisionPort ==> k == phases(cmd).len() - 1,
{
}

/// A scaling can be set if it is a finite number that is not below zero.
pub proof fn law_valid_scalings(speed: Double)
    ensures
        valid_speed(speed) <==> speed.finite() && !speed.lt(Double::zero()),
{
}

/// The robots to move are those of the accepted teleports, in order.
pub proof fn law_accepted_robot_teleports_are_asked_for(t: Seq<sim::TeleportRobot>)
    ensures
        robot_requests(t) == t.filter(|x: sim::TeleportRobot| convert::robot_refusal(x) is None).map_values(
            |x: sim::TeleportRobot| convert::robot_request(x),
        ),
    decreases t.len(),
{
    reveal(Seq::filter);
    if t.len() > 0 {
        law_accepted_robot_teleports_are_asked_for(t.drop_last());
        let f = |x: sim::TeleportRobot| convert::robot_refusal(x) is None;
        let g = |x: sim::TeleportRobot| convert::robot_request(x);
        if convert::robot_refusal(t.last()) is None {
            assert(t.filter(f).map_values(g) =~= t.drop_last().filter(f).map_values(g).push(
                convert::robot_request(t.last()),
            ));
        }
    }
}

/// A ball teleport is either asked of the world or refused; a refused one gives its
/// refusal, whatever is replied, and an accepted one what the world says.
pub proof fn law_ball_teleports_are_asked_or_refused(t: sim::TeleportBall, reply: Option<SimError>)
    ensures
        ball_request(Some(t)) is Some <==> convert::ball_refusal(t) is None,
        ball_request(Some(t)) matches Some(r) ==> r == convert::ball_request(t),
        ball_request(None) is None && ball_errors(None, reply).len() == 0,
        convert::ball_refusal(t) matches Some(r) ==> ball_errors(Some(t), reply).len() == 1
            && ball_errors(Some(t), reply)[0] == (Some(r.0), Some(r.1)),
        convert::ball_refusal(t) is None ==> ball_errors(Some(t), reply).len() == (if reply is Some {
            1int
        } else {
            0
        }) && (reply matches Some(e) ==> ball_errors(Some(t), reply)[0] == convert::sim_error_view(e)),
{
}

/// Each robot teleport adds its refusal, or what the world says to it: the replies are
/// to the accepted ones, in order.
pub proof fn law_robot_teleports_are_answered_in_order(
    t: Seq<sim::TeleportRobot>,
    x: sim::TeleportRobot,
    replies: Seq<Option<SimError>>,
)
    ensures
        robot_errors(Seq::empty(), replies).len() == 0,
        ({
            let before = robot_errors(t, replies);
            let all = robot_errors(t.push(x), replies);
            let reply = replies[t.filter(
                |y: sim::TeleportRobot| convert::robot_refusal(y) is None,
            ).len() as int];
            &&& convert::robot_refusal(x) matches Some(r) ==> all == before.push((Some(r.0), Some(r.1)))
            &&& convert::robot_refusal(x) is None && reply is None ==> all == before
            &&& convert::robot_refusal(x) is None && reply is Some ==> all == before.push(
                convert::sim_error_view(reply->0),
            )
        }),
{
    assert(t.push(x).drop_last() =~= t);
    law_accepted_robot_teleports_are_asked_for(t);
}

/// A scaling gives an error exactly if it is given and cannot be set.
pub proof fn law_bad_scalings_are_reported(speed: Option<Double>, shown: Seq<char>)
    ensures
        speed_errors(speed, shown).len() == (if speed is Some && (!(speed->0).finite() || (speed->0).lt(
            Double::zero(),
        )) {
            1int
        } else {
            0
        }),
        speed_errors(speed, shown).len() == 1 ==> speed_errors(speed, shown)[0].0 == Some("UNSUPPORTED"@),
{
}

/// A spec message starts with reading its robot, or ends at once with the refusal of its
/// id; only a refusal of the world adds an error later.
pub proof fn law_spec_errors(spec: sim::RobotSpecs, reply: SpecReply)
    ensures
        convert::id_refusal(spec.id) is None ==> spec_start(spec) == SpecState::ReadRobot(
            convert::id_of(spec.id),
        ) && spec_start_errors(spec).len() == 0,
        convert::id_refusal(spec.id) matches Some(r) ==> spec_start(spec) is Done && spec_start_errors(spec)
            == seq![(Some(r.0), Some(r.1))],
        reply_errors(reply).len() == (if reply matches SpecReply::Outcome(Some(_)) {
            1int
        } else {
            0
        }),
        reply matches SpecReply::Outcome(Some(e)) ==> reply_errors(reply)[0] == convert::sim_error_view(e),
{
}

/// What is read is answered by what was read, what is set by how that went.
pub proof fn law_replies_fit_what_is_asked(state: SpecState, reply: SpecReply)
    ensures
        answers(state, reply) <==> (state is ReadRobot && reply is Robot) || (state is ReadDefault
            && reply is Default) || ((state is SetRobot || state is SetDefault) && reply is Outcome),
{
}

/// Each realism extension that is not understood is reported with its type, in order.
pub proof fn law_ignored_extensions_are_reported(urls: Seq<Seq<char>>, i: int)
    requires
        0 <= i < urls.len(),
    ensures
        ignored_errors(urls).len() == urls.len(),
        ignored_errors(urls)[i].0 == Some("UNSUPPORTED"@),
        ignored_errors(urls)[i].1 matches Some(m) && m.len() >= urls[i].len() && m.skip(
            m.len() - urls[i].len(),
        ) == urls[i],
{
    let m = "unknown realism custom message "@ + urls[i];
    assert(m.skip(m.len() - urls[i].len()) =~= urls[i]);
}

/// A vision port gives an error exactly if it is above 65535.
pub proof fn law_bad_ports_are_reported(port: Option<u32>)
    ensures
        port_errors(port).len() == (if port is Some && port->0 >= 0x1_0000 {
            1int
        } else {
            0
        }),
        port_errors(port).len() == 1 ==> port_errors(port)[0].0 == Some("UNSUPPORTED"@),
{
}

} // verus!
