//! Conversions between the simulation protocol and the world's own types.
//!
//! * `RobotWheelAngles` is **clockwise** in the protocol; the world uses
//!   counter-clockwise mounting angles, so every angle is negated on the way in
//!   and out.
//! * Wheel order is the protocol order `(front_right, back_right, back_left,
//!   front_left)` in both directions.
use vstd::prelude::*;

use crate::double::Double;
use crate::net::sim;
use crate::net::world::{
    Delay, KickerSpecs, MoveCommand, Realism, RobotCommand, RobotId, RobotLimits, RobotSpecs,
    SimError, Team, TeleportBall, TeleportRobot, Vec2, Vec3, WheelAngles,
};
use crate::text;

verus! {

// ---------------------------------------------------------------- errors

/// The wire error with this code and message.
pub open spec fn error_view(code: Seq<char>, message: Seq<char>) -> (
    Option<Seq<char>>,
    Option<Seq<char>>,
) {
    (Some(code), Some(message))
}

/// The wire error for an error of the world.
pub open spec fn sim_error_view(e: SimError) -> (Option<Seq<char>>, Option<Seq<char>>) {
    error_view(e.spec_code(), e.spec_message())
}

/// Build a `SimulatorError` from a stable code and a message.
pub fn error(code: &str, message: &str) -> (res: sim::SimulatorError)
    ensures
        res@ == error_view(code@, message@),
        res.code matches Some(c) && c@ == code@,
        res.message matches Some(m) && m@ == message@,
{
    sim::SimulatorError { code: Some(code.to_owned()), message: Some(message.to_owned()) }
}

/// Convert a [`SimError`] into the wire error, keeping the stable code.
pub fn sim_error(err: &SimError) -> (res: sim::SimulatorError)
    ensures
        res@ == sim_error_view(*err),
{
    let message = err.message();
    error(err.code(), message.as_str())
}

// ---------------------------------------------------------------- identity

/// The team that a protocol team value stands for, if any.
pub open spec fn team_of(team: Option<i32>) -> Option<Team> {
    if team == Some(sim::TEAM_BLUE) {
        Some(Team::Blue)
    } else if team == Some(sim::TEAM_YELLOW) {
        Some(Team::Yellow)
    } else {
        None
    }
}

/// The protocol value of a team.
pub open spec fn team_value(team: Team) -> i32 {
    match team {
        Team::Blue => sim::TEAM_BLUE,
        Team::Yellow => sim::TEAM_YELLOW,
    }
}

/// Team for a protocol team enum value.
pub fn team_from_proto(team: Option<i32>) -> (res: Option<Team>)
    ensures
        res == team_of(team),
{
    match team {
        Some(t) => if t == sim::TEAM_BLUE {
            Some(Team::Blue)
        } else if t == sim::TEAM_YELLOW {
            Some(Team::Yellow)
        } else {
            None
        },
        None => None,
    }
}

/// Protocol team enum value for a team.
pub fn team_to_proto(team: Team) -> (res: i32)
    ensures
        res == team_value(team),
{
    match team {
        Team::Blue => sim::TEAM_BLUE,
        Team::Yellow => sim::TEAM_YELLOW,
    }
}

/// Code and message with which a protocol robot id is refused, if it is.
pub open spec fn id_refusal(id: sim::RobotId) -> Option<(Seq<char>, Seq<char>)> {
    if team_of(id.team) is None {
        Some(("UNSUPPORTED"@, "RobotId without a known team"@))
    } else {
        match id.id {
            None => Some(("UNSUPPORTED"@, "RobotId without an id"@)),
            Some(n) => if n > u8::MAX {
                Some(
                    (
                        "UNSUPPORTED"@,
                        ("robot id "@ + text::decimal(n as nat)) + " out of range"@,
                    ),
                )
            } else {
                None
            },
        }
    }
}

/// The robot that an accepted protocol robot id names.
pub open spec fn id_of(id: sim::RobotId) -> RobotId {
    RobotId { team: team_of(id.team)->0, number: id.id->0 as u8 }
}

/// Robot id for a protocol `RobotId`. Both fields are required in practice.
pub fn robot_id_from_proto(id: &sim::RobotId) -> (res: Result<RobotId, SimError>)
    ensures
        match res {
            Ok(r) => id_refusal(*id) is None && r == id_of(*id),
            Err(e) => e is Unsupported && id_refusal(*id) == Some(
                (e.spec_code(), e.spec_message()),
            ),
        },
{
    match team_from_proto(id.team) {
        None => Err(SimError::Unsupported("RobotId without a known team".to_owned())),
        Some(team) => match id.id {
            None => Err(SimError::Unsupported("RobotId without an id".to_owned())),
            Some(n) => if n > 255 {
                let digits = text::to_decimal(n as u64);
                let head = text::join("robot id ", digits.as_str());
                Err(SimError::Unsupported(text::join(head.as_str(), " out of range")))
            } else {
                Ok(RobotId::new(team, n as u8))
            },
        },
    }
}

/// The protocol form of a robot id.
pub open spec fn id_message(id: RobotId) -> sim::RobotId {
    sim::RobotId { id: Some(id.number as u32), team: Some(team_value(id.team)) }
}

/// Protocol `RobotId` for a robot id.
pub fn robot_id_to_proto(id: RobotId) -> (res: sim::RobotId)
    ensures
        res == id_message(id),
{
    sim::RobotId { id: Some(id.number as u32), team: Some(team_to_proto(id.team)) }
}

/// Every robot id survives the way to the protocol and back.
pub proof fn law_robot_id_round_trip(id: RobotId)
    ensures
        id_refusal(id_message(id)) is None,
        id_of(id_message(id)) == id,
{
}

/// Two accepted protocol ids name the same robot only when they are the same
/// message.
pub proof fn law_robot_ids_are_unique(a: sim::RobotId, b: sim::RobotId)
    requires
        id_refusal(a) is None,
        id_refusal(b) is None,
        id_of(a) == id_of(b),
    ensures
        a == b,
{
}

// ---------------------------------------------------------------- robot control

/// The world's form of a protocol movement.
pub open spec fn movement_of(m: sim::Move) -> MoveCommand {
    match m {
        sim::Move::LocalVelocity { forward, left, angular } => MoveCommand::LocalVelocity {
            forward,
            left,
            angular,
        },
        sim::Move::GlobalVelocity { x, y, angular } => MoveCommand::GlobalVelocity {
            x,
            y,
            angular,
        },
        sim::Move::WheelVelocity { front_right, back_right, back_left, front_left } =>
            MoveCommand::WheelVelocity { front_right, back_right, back_left, front_left },
    }
}

/// The protocol form of a movement.
pub open spec fn movement_message(m: MoveCommand) -> sim::Move {
    match m {
        MoveCommand::LocalVelocity { forward, left, angular } => sim::Move::LocalVelocity {
            forward,
            left,
            angular,
        },
        MoveCommand::GlobalVelocity { x, y, angular } => sim::Move::GlobalVelocity {
            x,
            y,
            angular,
        },
        MoveCommand::WheelVelocity { front_right, back_right, back_left, front_left } =>
            sim::Move::WheelVelocity { front_right, back_right, back_left, front_left },
    }
}

/// The movement that a protocol robot command asks for, if any.
pub open spec fn asked_move(cmd: sim::RobotCommand) -> Option<sim::Move> {
    match cmd.move_command {
        Some(m) => m.command,
        None => None,
    }
}

/// The value when it is set and greater than zero.
pub open spec fn only_positive(v: Option<Double>) -> Option<Double> {
    match v {
        Some(s) => if Double::zero().lt(s) {
            Some(s)
        } else {
            None
        },
        None => None,
    }
}

/// The world's form of a protocol robot command. A kick speed or dribbler speed
/// that is not positive asks for nothing; a missing kick angle is 0.
pub open spec fn command_of(cmd: sim::RobotCommand) -> RobotCommand {
    RobotCommand {
        movement: match cmd.move_command {
            Some(sim::RobotMoveCommand { command: Some(m) }) => Some(movement_of(m)),
            _ => None,
        },
        kick_speed: only_positive(cmd.kick_speed),
        kick_angle_deg: match cmd.kick_angle {
            Some(a) => a,
            None => Double::zero(),
        },
        dribbler_rpm: only_positive(cmd.dribbler_speed),
    }
}

/// The protocol form of a robot command.
pub open spec fn command_message(number: u8, cmd: RobotCommand) -> sim::RobotCommand {
    sim::RobotCommand {
        id: number as u32,
        move_command: match cmd.movement {
            Some(m) => Some(sim::RobotMoveCommand { command: Some(movement_message(m)) }),
            None => None,
        },
        kick_speed: cmd.kick_speed,
        kick_angle: Some(cmd.kick_angle_deg),
        dribbler_speed: cmd.dribbler_rpm,
    }
}

fn positive(v: Option<Double>) -> (res: Option<Double>)
    ensures
        res == only_positive(v),
{
    match v {
        Some(s) => if s.is_positive() {
            Some(s)
        } else {
            None
        },
        None => None,
    }
}

/// Protocol `RobotCommand` (metres, m/s, rad/s, degrees, rpm) to the world's.
///
/// Wheel velocities are metres per second in this message; the protocol wheel
/// order is preserved.
pub fn robot_command_from_proto(cmd: &sim::RobotCommand) -> (res: RobotCommand)
    ensures
        res == command_of(*cmd),
        asked_move(*cmd) is None <==> res.movement is None,
        asked_move(*cmd) matches Some(sim::Move::LocalVelocity { forward, left, angular }) ==> (
        res.movement matches Some(MoveCommand::LocalVelocity { forward: a, left: b, angular: w })
            && a == forward && b == left && w == angular),
        asked_move(*cmd) matches Some(sim::Move::GlobalVelocity { x, y, angular }) ==> (
        res.movement matches Some(MoveCommand::GlobalVelocity { x: a, y: b, angular: w }) && a == x
            && b == y && w == angular),
        asked_move(*cmd) matches Some(
            sim::Move::WheelVelocity { front_right, back_right, back_left, front_left },
        ) ==> (res.movement matches Some(
            MoveCommand::WheelVelocity { front_right: a, back_right: b, back_left: c, front_left: d },
        ) && a == front_right && b == back_right && c == back_left && d == front_left),
{
    let movement = match cmd.move_command {
        Some(m) => match m.command {
            Some(c) => Some(
                match c {
                    sim::Move::LocalVelocity { forward, left, angular } =>
                        MoveCommand::LocalVelocity { forward, left, angular },
                    sim::Move::GlobalVelocity { x, y, angular } => MoveCommand::GlobalVelocity {
                        x,
                        y,
                        angular,
                    },
                    sim::Move::WheelVelocity { front_right, back_right, back_left, front_left } =>
                        MoveCommand::WheelVelocity {
                            front_right,
                            back_right,
                            back_left,
                            front_left,
                        },
                },
            ),
            None => None,
        },
        None => None,
    };
    RobotCommand {
        movement,
        kick_speed: positive(cmd.kick_speed),
        kick_angle_deg: cmd.kick_angle.unwrap_or(Double::zero()),
        dribbler_rpm: positive(cmd.dribbler_speed),
    }
}

/// A robot command back to the protocol message.
pub fn robot_command_to_proto(number: u8, cmd: &RobotCommand) -> (res: sim::RobotCommand)
    ensures
        res == command_message(number, *cmd),
        res.id == number,
        cmd.movement is None <==> asked_move(res) is None,
        cmd.movement matches Some(MoveCommand::LocalVelocity { forward, left, angular }) ==> (
        asked_move(res) matches Some(sim::Move::LocalVelocity { forward: a, left: b, angular: w })
            && a == forward && b == left && w == angular),
        cmd.movement matches Some(MoveCommand::GlobalVelocity { x, y, angular }) ==> (asked_move(
            res,
        ) matches Some(sim::Move::GlobalVelocity { x: a, y: b, angular: w }) && a == x && b == y && w
            == angular),
        cmd.movement matches Some(
            MoveCommand::WheelVelocity { front_right, back_right, back_left, front_left },
        ) ==> (asked_move(res) matches Some(
            sim::Move::WheelVelocity { front_right: a, back_right: b, back_left: c, front_left: d },
        ) && a == front_right && b == back_right && c == back_left && d == front_left),
{
    let move_command = match cmd.movement {
        Some(m) => Some(
            sim::RobotMoveCommand {
                command: Some(
                    match m {
                        MoveCommand::LocalVelocity { forward, left, angular } =>
                            sim::Move::LocalVelocity { forward, left, angular },
                        MoveCommand::GlobalVelocity { x, y, angular } =>
                            sim::Move::GlobalVelocity { x, y, angular },
                        MoveCommand::WheelVelocity {
                            front_right,
                            back_right,
                            back_left,
                            front_left,
                        } => sim::Move::WheelVelocity {
                            front_right,
                            back_right,
                            back_left,
                            front_left,
                        },
                    },
                ),
            },
        ),
        None => None,
    };
    sim::RobotCommand {
        id: number as u32,
        move_command,
        kick_speed: cmd.kick_speed,
        kick_angle: Some(cmd.kick_angle_deg),
        dribbler_speed: cmd.dribbler_rpm,
    }
}

/// A command whose kick and dribbler speeds, where set, are positive survives
/// the way to the protocol and back.
pub proof fn law_robot_command_round_trip(number: u8, cmd: RobotCommand)
    requires
        cmd.kick_speed matches Some(s) ==> Double::zero().lt(s),
        cmd.dribbler_rpm matches Some(s) ==> Double::zero().lt(s),
    ensures
        command_of(command_message(number, cmd)) == cmd,
        command_message(number, cmd).id == number,
{
}

// ---------------------------------------------------------------- teleports

/// The point or velocity with these coordinates, when the first two are given;
/// a missing third is 0.
pub open spec fn vec3_of(x: Option<Double>, y: Option<Double>, z: Option<Double>) -> Option<Vec3> {
    match (x, y) {
        (Some(x), Some(y)) => Some(
            Vec3 {
                x,
                y,
                z: match z {
                    Some(z) => z,
                    None => Double::zero(),
                },
            },
        ),
        _ => None,
    }
}

/// The point or velocity with these coordinates, when both are given.
pub open spec fn vec2_of(x: Option<Double>, y: Option<Double>) -> Option<Vec2> {
    match (x, y) {
        (Some(x), Some(y)) => Some(Vec2 { x, y }),
        _ => None,
    }
}

/// Code and message with which a protocol ball teleport is refused, if it is.
/// `x` without `y` (or the reverse) is refused, `z` is only accepted together
/// with `x` and `y`, and the same holds of the velocity; `teleport_safely` needs
/// a position.
pub open spec fn ball_refusal(t: sim::TeleportBall) -> Option<(Seq<char>, Seq<char>)> {
    if t.x is Some != t.y is Some {
        Some(("PARTIAL_COORD"@, "TeleportBall needs both x and y"@))
    } else if t.x is None && t.z is Some {
        Some(("PARTIAL_COORD"@, "TeleportBall z without x and y"@))
    } else if t.vx is Some != t.vy is Some {
        Some(("PARTIAL_COORD"@, "TeleportBall needs both vx and vy"@))
    } else if t.vx is None && t.vz is Some {
        Some(("PARTIAL_COORD"@, "TeleportBall vz without vx and vy"@))
    } else if t.teleport_safely == Some(true) && t.x is None {
        Some(("TELEPORT_SAFELY_PARTIAL"@, "teleport_safely needs x and y"@))
    } else {
        None
    }
}

/// The request that an accepted ball teleport makes; flags that are not set are
/// false.
pub open spec fn ball_request(t: sim::TeleportBall) -> TeleportBall {
    TeleportBall {
        position: vec3_of(t.x, t.y, t.z),
        velocity: vec3_of(t.vx, t.vy, t.vz),
        teleport_safely: t.teleport_safely == Some(true),
        roll: t.roll == Some(true),
        by_force: t.by_force == Some(true),
    }
}

/// Protocol `TeleportBall` (metres) to the world's request.
///
/// Partial-coordinate rules: `x` without `y` (or the reverse) is
/// `PARTIAL_COORD`; `z` is only accepted together with `x` and `y`. The same
/// rule applies to the velocity triple.
pub fn teleport_ball_from_proto(t: &sim::TeleportBall) -> (res: Result<TeleportBall, SimError>)
    ensures
        match res {
            Ok(r) => {
                &&& ball_refusal(*t) is None
                &&& r == ball_request(*t)
                &&& r.position is Some <==> t.x is Some && t.y is Some
                &&& r.position matches Some(p) ==> Some(p.x) == t.x && Some(p.y) == t.y
                &&& r.velocity is Some <==> t.vx is Some && t.vy is Some
                &&& r.velocity matches Some(v) ==> Some(v.x) == t.vx && Some(v.y) == t.vy
            },
            Err(e) => ball_refusal(*t) == Some((e.spec_code(), e.spec_message())),
        },
{
    let position = match (t.x, t.y) {
        (Some(x), Some(y)) => Some(Vec3 { x, y, z: t.z.unwrap_or(Double::zero()) }),
        (None, None) => {
            if t.z.is_some() {
                return Err(SimError::PartialCoord("TeleportBall z without x and y".to_owned()));
            }
            None
        },
        _ => {
            return Err(SimError::PartialCoord("TeleportBall needs both x and y".to_owned()));
        },
    };
    let velocity = match (t.vx, t.vy) {
        (Some(vx), Some(vy)) => Some(Vec3 { x: vx, y: vy, z: t.vz.unwrap_or(Double::zero()) }),
        (None, None) => {
            if t.vz.is_some() {
                return Err(SimError::PartialCoord("TeleportBall vz without vx and vy".to_owned()));
            }
            None
        },
        _ => {
            return Err(SimError::PartialCoord("TeleportBall needs both vx and vy".to_owned()));
        },
    };
    let teleport_safely = t.teleport_safely.unwrap_or(false);
    if teleport_safely && position.is_none() {
        return Err(SimError::TeleportSafelyPartial("teleport_safely needs x and y".to_owned()));
    }
    Ok(
        TeleportBall {
            position,
            velocity,
            teleport_safely,
            roll: t.roll.unwrap_or(false),
            by_force: t.by_force.unwrap_or(false),
        },
    )
}

/// Code and message with which a protocol robot teleport is refused, if it is: a
/// refused id, or one of a pair of coordinates without the other.
pub open spec fn robot_refusal(t: sim::TeleportRobot) -> Option<(Seq<char>, Seq<char>)> {
    if id_refusal(t.id) is Some {
        id_refusal(t.id)
    } else if t.x is Some != t.y is Some {
        Some(
            (
                "PARTIAL_COORD"@,
                ("TeleportRobot "@ + id_of(t.id).shown()) + " needs both x and y"@,
            ),
        )
    } else if t.v_x is Some != t.v_y is Some {
        Some(
            (
                "PARTIAL_COORD"@,
                ("TeleportRobot "@ + id_of(t.id).shown()) + " needs both v_x and v_y"@,
            ),
        )
    } else {
        None
    }
}

/// The request that an accepted robot teleport makes.
pub open spec fn robot_request(t: sim::TeleportRobot) -> TeleportRobot {
    TeleportRobot {
        id: id_of(t.id),
        position: vec2_of(t.x, t.y),
        orientation: t.orientation,
        velocity: vec2_of(t.v_x, t.v_y),
        angular_velocity: t.v_angular,
        present: t.present,
        by_force: t.by_force == Some(true),
    }
}

fn partial_robot(id: RobotId, what: &str) -> (res: SimError)
    ensures
        res is PartialCoord,
        res.spec_message() == ("TeleportRobot "@ + id.shown()) + what@,
{
    let shown = id.show();
    let head = text::join("TeleportRobot ", shown.as_str());
    SimError::PartialCoord(text::join(head.as_str(), what))
}

/// Protocol `TeleportRobot` (metres) to the world's request.
///
/// An `orientation` is not required alongside a position: clients teleport with
/// `x`/`y` only and expect it to work.
pub fn teleport_robot_from_proto(t: &sim::TeleportRobot) -> (res: Result<TeleportRobot, SimError>)
    ensures
        match res {
            Ok(r) => {
                &&& robot_refusal(*t) is None
                &&& r == robot_request(*t)
                &&& r.orientation == t.orientation
                &&& r.angular_velocity == t.v_angular
                &&& r.present == t.present
                &&& r.position is Some <==> t.x is Some && t.y is Some
                &&& r.position matches Some(p) ==> Some(p.x) == t.x && Some(p.y) == t.y
                &&& r.velocity is Some <==> t.v_x is Some && t.v_y is Some
                &&& r.velocity matches Some(v) ==> Some(v.x) == t.v_x && Some(v.y) == t.v_y
            },
            Err(e) => robot_refusal(*t) == Some((e.spec_code(), e.spec_message())),
        },
{
    let id = match robot_id_from_proto(&t.id) {
        Ok(id) => id,
        Err(e) => {
            return Err(e);
        },
    };
    let position = match (t.x, t.y) {
        (Some(x), Some(y)) => Some(Vec2 { x, y }),
        (None, None) => None,
        _ => {
            return Err(partial_robot(id, " needs both x and y"));
        },
    };
    let velocity = match (t.v_x, t.v_y) {
        (Some(x), Some(y)) => Some(Vec2 { x, y }),
        (None, None) => None,
        _ => {
            return Err(partial_robot(id, " needs both v_x and v_y"));
        },
    };
    Ok(
        TeleportRobot {
            id,
            position,
            orientation: t.orientation,
            velocity,
            angular_velocity: t.v_angular,
            present: t.present,
            by_force: t.by_force.unwrap_or(false),
        },
    )
}

// ---------------------------------------------------------------- packed messages

/// What follows the last `c` in `s`, or all of `s` when there is none.
pub open spec fn after_last(s: Seq<char>, c: char) -> Seq<char>
    decreases s.len(),
{
    if s.len() == 0 || s.last() == c {
        seq![]
    } else {
        after_last(s.drop_last(), c).push(s.last())
    }
}

/// Whether a type URL names a message whose (possibly package qualified) name
/// ends in `name`.
pub open spec fn names_message(type_url: Seq<char>, name: Seq<char>) -> bool {
    let last = after_last(type_url, '/');
    last == name || after_last(last, '.') == name
}

/// The type URL layout the protocol uses.
pub open spec fn url_of(name: Seq<char>) -> Seq<char> {
    "type.googleapis.com/"@ + name
}

proof fn lemma_after_last_tail(s: Seq<char>, c: char, start: int)
    requires
        0 <= start <= s.len(),
        forall|j: int| start <= j < s.len() ==> s[j] != c,
        start == 0 || s[start - 1] == c,
    ensures
        after_last(s, c) == s.skip(start),
    decreases s.len(),
{
    if s.len() == 0 {
    } else if start == s.len() {
        assert(s.last() == c);
        assert(s.skip(start) =~= seq![]);
    } else {
        let t = s.drop_last();
        lemma_after_last_tail(t, c, start);
        assert(s.skip(start) =~= t.skip(start).push(s.last()));
    }
}

/// Where the part after the last `c` starts.
fn last_part(s: &Vec<char>, c: char) -> (res: usize)
    ensures
        res <= s@.len(),
        after_last(s@, c) == s@.skip(res as int),
{
    let mut i: usize = s.len();
    while i > 0
        invariant
            i <= s@.len(),
            forall|j: int| i <= j < s@.len() ==> s@[j] != c,
        decreases i,
    {
        if s[i - 1] == c {
            proof {
                lemma_after_last_tail(s@, c, i as int);
            }
            return i;
        }
        i -= 1;
    }
    proof {
        lemma_after_last_tail(s@, c, 0);
    }
    0
}

fn tail(s: &Vec<char>, from: usize) -> (res: Vec<char>)
    requires
        from <= s@.len(),
    ensures
        res@ == s@.skip(from as int),
{
    let mut out: Vec<char> = Vec::new();
    let mut i: usize = from;
    while i < s.len()
        invariant
            from <= i <= s@.len(),
            out@ == s@.subrange(from as int, i as int),
        decreases s.len() - i,
    {
        out.push(s[i]);
        i += 1;
        assert(s@.subrange(from as int, i as int) =~= s@.subrange(from as int, i - 1).push(
            s@[i - 1],
        ));
    }
    assert(s@.subrange(from as int, i as int) =~= s@.skip(from as int));
    out
}

/// True when `type_url` names a message whose (possibly package qualified) name
/// ends in `name`.
pub fn any_is(type_url: &str, name: &str) -> (res: bool)
    ensures
        res == names_message(type_url@, name@),
{
    let url = text::chars_of(type_url);
    let start: usize = last_part(&url, '/');
    let last = tail(&url, start);
    let whole = text::string_of(&last);
    if text::same(whole.as_str(), name) {
        return true;
    }
    let dot: usize = last_part(&last, '.');
    let short = tail(&last, dot);
    let bare = text::string_of(&short);
    text::same(bare.as_str(), name)
}

/// A packed message on its way out: its type URL and its encoded bytes.
#[derive(Clone, Debug, PartialEq, Eq)]
pub struct Any {
    /// Type URL.
    pub type_url: String,
    /// Encoded message.
    pub value: Vec<u8>,
}

/// Pack an encoded message into an `Any` with the type URL layout the protocol
/// uses.
pub fn pack_any(name: &str, encoded: Vec<u8>) -> (res: Any)
    ensures
        res.type_url@ == url_of(name@),
        res.value == encoded,
{
    Any { type_url: text::join("type.googleapis.com/", name), value: encoded }
}

/// What was packed under a name is found under that name, and, when the name is
/// package qualified, under its last part.
pub proof fn law_packed_message_is_found(name: Seq<char>)
    requires
        forall|i: int| 0 <= i < name.len() ==> name[i] != '/',
    ensures
        names_message(url_of(name), name),
        names_message(url_of(name), after_last(name, '.')),
{
    reveal_strlit("type.googleapis.com/");
    let s = url_of(name);
    let start = "type.googleapis.com/"@.len() as int;
    assert(s[start - 1] == '/');
    assert forall|j: int| start <= j < s.len() implies s[j] != '/' by {
        assert(s[j] == name[j - start]);
    }
    lemma_after_last_tail(s, '/', start);
    assert(s.skip(start) =~= name);
}

// ---------------------------------------------------------------- robot specs

/// The value on the wire, or the current one where the wire has none.
pub open spec fn or_keep<T>(wire: Option<T>, current: T) -> T {
    match wire {
        Some(v) => v,
        None => current,
    }
}

/// Limits with the fields that are set on the wire replaced.
pub open spec fn merged_limits(l: RobotLimits, proto: Option<sim::RobotLimits>) -> RobotLimits {
    match proto {
        None => l,
        Some(p) => RobotLimits {
            acc_speedup_absolute_max: or_keep(p.acc_speedup_absolute_max, l.acc_speedup_absolute_max),
            acc_speedup_angular_max: or_keep(p.acc_speedup_angular_max, l.acc_speedup_angular_max),
            acc_brake_absolute_max: or_keep(p.acc_brake_absolute_max, l.acc_brake_absolute_max),
            acc_brake_angular_max: or_keep(p.acc_brake_angular_max, l.acc_brake_angular_max),
            vel_absolute_max: or_keep(p.vel_absolute_max, l.vel_absolute_max),
            vel_angular_max: or_keep(p.vel_angular_max, l.vel_angular_max),
        },
    }
}

/// Counter-clockwise angles for clockwise ones.
pub open spec fn angles_of(w: sim::RobotWheelAngles) -> WheelAngles {
    WheelAngles {
        front_right: w.front_right.negated(),
        back_right: w.back_right.negated(),
        back_left: w.back_left.negated(),
        front_left: w.front_left.negated(),
    }
}

/// Clockwise angles for counter-clockwise ones.
pub open spec fn angles_message(w: WheelAngles) -> sim::RobotWheelAngles {
    sim::RobotWheelAngles {
        front_right: w.front_right.negated(),
        back_right: w.back_right.negated(),
        back_left: w.back_left.negated(),
        front_left: w.front_left.negated(),
    }
}

/// Specs with the extensions of one packed message applied.
pub open spec fn with_extension(
    specs: RobotSpecs,
    c: sim::Custom<sim::RobotSpecErForce>,
) -> RobotSpecs {
    if names_message(c.type_url@, "RobotSpecErForce"@) && c.content is Some {
        RobotSpecs {
            shoot_radius: or_keep(c.content->0.shoot_radius, specs.shoot_radius),
            dribbler_width: or_keep(c.content->0.dribbler_width, specs.dribbler_width),
            ..specs
        }
    } else {
        specs
    }
}

/// Specs with the extensions of a list of packed messages applied in order.
pub open spec fn with_extensions(
    specs: RobotSpecs,
    custom: Seq<sim::Custom<sim::RobotSpecErForce>>,
) -> RobotSpecs
    decreases custom.len(),
{
    if custom.len() == 0 {
        specs
    } else {
        with_extension(with_extensions(specs, custom.drop_last()), custom.last())
    }
}

/// Specs with everything replaced that is set on the wire.
pub open spec fn merged_specs(specs: RobotSpecs, proto: sim::RobotSpecs) -> RobotSpecs {
    with_extensions(
        RobotSpecs {
            radius: or_keep(proto.radius, specs.radius),
            height: or_keep(proto.height, specs.height),
            mass: or_keep(proto.mass, specs.mass),
            center_to_dribbler: or_keep(proto.center_to_dribbler, specs.center_to_dribbler),
            kicker: KickerSpecs {
                max_linear_speed: or_keep(
                    proto.max_linear_kick_speed,
                    specs.kicker.max_linear_speed,
                ),
                max_chip_speed: or_keep(proto.max_chip_kick_speed, specs.kicker.max_chip_speed),
            },
            limits: merged_limits(specs.limits, proto.limits),
            wheel_angles: match proto.wheel_angles {
                Some(w) => angles_of(w),
                None => specs.wheel_angles,
            },
            ..specs
        },
        proto.custom@,
    )
}

/// Protocol wheel angles (clockwise) to counter-clockwise ones: every angle is
/// negated, the order is unchanged.
pub fn wheel_angles_from_proto(w: &sim::RobotWheelAngles) -> (res: WheelAngles)
    ensures
        res == angles_of(*w),
{
    WheelAngles {
        front_right: w.front_right.negate(),
        back_right: w.back_right.negate(),
        back_left: w.back_left.negate(),
        front_left: w.front_left.negate(),
    }
}

/// Counter-clockwise wheel angles back to the protocol's clockwise convention.
pub fn wheel_angles_to_proto(w: &WheelAngles) -> (res: sim::RobotWheelAngles)
    ensures
        res == angles_message(*w),
{
    sim::RobotWheelAngles {
        front_right: w.front_right.negate(),
        back_right: w.back_right.negate(),
        back_left: w.back_left.negate(),
        front_left: w.front_left.negate(),
    }
}

fn merge_limits(l: RobotLimits, p: &sim::RobotLimits) -> (res: RobotLimits)
    ensures
        res == merged_limits(l, Some(*p)),
{
    RobotLimits {
        acc_speedup_absolute_max: p.acc_speedup_absolute_max.unwrap_or(l.acc_speedup_absolute_max),
        acc_speedup_angular_max: p.acc_speedup_angular_max.unwrap_or(l.acc_speedup_angular_max),
        acc_brake_absolute_max: p.acc_brake_absolute_max.unwrap_or(l.acc_brake_absolute_max),
        acc_brake_angular_max: p.acc_brake_angular_max.unwrap_or(l.acc_brake_angular_max),
        vel_absolute_max: p.vel_absolute_max.unwrap_or(l.vel_absolute_max),
        vel_angular_max: p.vel_angular_max.unwrap_or(l.vel_angular_max),
    }
}

/// Merge a protocol `RobotSpecs` into the current specs. Only fields that are
/// actually set on the wire override the current value.
///
/// `custom` entries are searched for `RobotSpecErForce` (`shoot_radius`,
/// `dribbler_width`); unknown or unreadable entries are ignored.
pub fn merge_robot_specs(specs: RobotSpecs, proto: &sim::RobotSpecs) -> (res: RobotSpecs)
    ensures
        res == merged_specs(specs, *proto),
{
    let base = RobotSpecs {
        radius: proto.radius.unwrap_or(specs.radius),
        height: proto.height.unwrap_or(specs.height),
        mass: proto.mass.unwrap_or(specs.mass),
        center_to_dribbler: proto.center_to_dribbler.unwrap_or(specs.center_to_dribbler),
        shoot_radius: specs.shoot_radius,
        dribbler_width: specs.dribbler_width,
        dribbler_max_rpm: specs.dribbler_max_rpm,
        kicker: KickerSpecs {
            max_linear_speed: proto.max_linear_kick_speed.unwrap_or(specs.kicker.max_linear_speed),
            max_chip_speed: proto.max_chip_kick_speed.unwrap_or(specs.kicker.max_chip_speed),
        },
        limits: match &proto.limits {
            Some(l) => merge_limits(specs.limits, l),
            None => specs.limits,
        },
        wheel_angles: match &proto.wheel_angles {
            Some(w) => wheel_angles_from_proto(w),
            None => specs.wheel_angles,
        },
    };
    let mut out = base;
    let mut i: usize = 0;
    while i < proto.custom.len()
        invariant
            i <= proto.custom@.len(),
            out == with_extensions(base, proto.custom@.take(i as int)),
        decreases proto.custom.len() - i,
    {
        let c = &proto.custom[i];
        if any_is(c.type_url.as_str(), "RobotSpecErForce") {
            if let Some(content) = &c.content {
                if let Some(v) = content.shoot_radius {
                    out.shoot_radius = v;
                }
                if let Some(v) = content.dribbler_width {
                    out.dribbler_width = v;
                }
            }
        }
        i += 1;
        assert(proto.custom@.take(i as int).drop_last() =~= proto.custom@.take(i - 1));
    }
    assert(proto.custom@.take(i as int) =~= proto.custom@);
    out
}

/// Specs to the protocol message. The `RobotSpecErForce` extension stands in
/// `custom`.
pub fn robot_specs_to_proto(id: RobotId, specs: &RobotSpecs) -> (res: sim::RobotSpecs)
    ensures
        carries_specs(res, id, *specs),
{
    let mut custom: Vec<sim::Custom<sim::RobotSpecErForce>> = Vec::new();
    custom.push(
        sim::Custom {
            type_url: text::join("type.googleapis.com/", "RobotSpecErForce"),
            content: Some(
                sim::RobotSpecErForce {
                    shoot_radius: Some(specs.shoot_radius),
                    dribbler_width: Some(specs.dribbler_width),
                },
            ),
        },
    );
    sim::RobotSpecs {
        id: robot_id_to_proto(id),
        radius: Some(specs.radius),
        height: Some(specs.height),
        mass: Some(specs.mass),
        max_linear_kick_speed: Some(specs.kicker.max_linear_speed),
        max_chip_kick_speed: Some(specs.kicker.max_chip_speed),
        center_to_dribbler: Some(specs.center_to_dribbler),
        limits: Some(
            sim::RobotLimits {
                acc_speedup_absolute_max: Some(specs.limits.acc_speedup_absolute_max),
                acc_speedup_angular_max: Some(specs.limits.acc_speedup_angular_max),
                acc_brake_absolute_max: Some(specs.limits.acc_brake_absolute_max),
                acc_brake_angular_max: Some(specs.limits.acc_brake_angular_max),
                vel_absolute_max: Some(specs.limits.vel_absolute_max),
                vel_angular_max: Some(specs.limits.vel_angular_max),
            },
        ),
        wheel_angles: Some(wheel_angles_to_proto(&specs.wheel_angles)),
        custom,
    }
}

/// The message holds every field of `specs` that the protocol has, and one
/// `RobotSpecErForce` extension.
pub open spec fn carries_specs(m: sim::RobotSpecs, id: RobotId, specs: RobotSpecs) -> bool {
    &&& m.id == id_message(id)
    &&& m.radius == Some(specs.radius)
    &&& m.height == Some(specs.height)
    &&& m.mass == Some(specs.mass)
    &&& m.max_linear_kick_speed == Some(specs.kicker.max_linear_speed)
    &&& m.max_chip_kick_speed == Some(specs.kicker.max_chip_speed)
    &&& m.center_to_dribbler == Some(specs.center_to_dribbler)
    &&& m.limits == Some(
        sim::RobotLimits {
            acc_speedup_absolute_max: Some(specs.limits.acc_speedup_absolute_max),
            acc_speedup_angular_max: Some(specs.limits.acc_speedup_angular_max),
            acc_brake_absolute_max: Some(specs.limits.acc_brake_absolute_max),
            acc_brake_angular_max: Some(specs.limits.acc_brake_angular_max),
            vel_absolute_max: Some(specs.limits.vel_absolute_max),
            vel_angular_max: Some(specs.limits.vel_angular_max),
        },
    )
    &&& m.wheel_angles == Some(angles_message(specs.wheel_angles))
    &&& m.custom@.len() == 1
    &&& m.custom@[0].type_url@ == url_of("RobotSpecErForce"@)
    &&& m.custom@[0].content == Some(
        sim::RobotSpecErForce {
            shoot_radius: Some(specs.shoot_radius),
            dribbler_width: Some(specs.dribbler_width),
        },
    )
}

/// Wheel angles survive the way to the protocol and back.
pub proof fn law_wheel_angles_round_trip(w: WheelAngles)
    ensures
        angles_of(angles_message(w)) == w,
{
}

/// An empty message changes nothing.
pub proof fn law_empty_specs_change_nothing(specs: RobotSpecs, proto: sim::RobotSpecs)
    requires
        proto.radius is None,
        proto.height is None,
        proto.mass is None,
        proto.max_linear_kick_speed is None,
        proto.max_chip_kick_speed is None,
        proto.center_to_dribbler is None,
        proto.limits is None,
        proto.wheel_angles is None,
        proto.custom@.len() == 0,
    ensures
        merged_specs(specs, proto) == specs,
{
}

/// Specs written to the protocol and merged into any other specs come out as
/// they were, but for the dribbler's full speed, which the protocol does not
/// have.
pub proof fn law_specs_round_trip(base: RobotSpecs, id: RobotId, specs: RobotSpecs, m: sim::RobotSpecs)
    requires
        carries_specs(m, id, specs),
    ensures
        merged_specs(base, m) == (RobotSpecs { dribbler_max_rpm: base.dribbler_max_rpm, ..specs }),
{
    reveal_strlit("RobotSpecErForce");
    law_packed_message_is_found("RobotSpecErForce"@);
    reveal_with_fuel(with_extensions, 2);
    assert(m.custom@.drop_last().len() == 0);
}

// ---------------------------------------------------------------- realism

/// A delay of the wire, clamped to zero from below.
pub open spec fn delay_of(ns: i64) -> Delay {
    Delay::Nanoseconds(if ns < 0 { 0 } else { ns as u64 })
}

/// The realism settings with everything replaced that the message sets.
pub open spec fn merged_erforce(r: Realism, c: sim::RealismConfigErForce) -> Realism {
    Realism {
        stddev_ball_p: or_keep(c.stddev_ball_p, r.stddev_ball_p),
        stddev_robot_p: or_keep(c.stddev_robot_p, r.stddev_robot_p),
        stddev_robot_phi: or_keep(c.stddev_robot_phi, r.stddev_robot_phi),
        stddev_ball_area: or_keep(c.stddev_ball_area, r.stddev_ball_area),
        enable_invisible_ball: or_keep(c.enable_invisible_ball, r.enable_invisible_ball),
        ball_visibility_threshold: or_keep(c.ball_visibility_threshold, r.ball_visibility_threshold),
        camera_overlap: or_keep(c.camera_overlap, r.camera_overlap),
        dribbler_ball_detections: or_keep(c.dribbler_ball_detections, r.dribbler_ball_detections),
        camera_position_error: or_keep(c.camera_position_error, r.camera_position_error),
        robot_command_loss: or_keep(c.robot_command_loss, r.robot_command_loss),
        robot_response_loss: or_keep(c.robot_response_loss, r.robot_response_loss),
        missing_ball_detections: or_keep(c.missing_ball_detections, r.missing_ball_detections),
        vision_delay: match c.vision_delay {
            Some(ns) => delay_of(ns),
            None => r.vision_delay,
        },
        vision_processing_time: match c.vision_processing_time {
            Some(ns) => delay_of(ns),
            None => r.vision_processing_time,
        },
        simulate_dribbling: or_keep(c.simulate_dribbling, r.simulate_dribbling),
        object_position_offset: or_keep(c.object_position_offset, r.object_position_offset),
        missing_robot_detections: or_keep(c.missing_robot_detections, r.missing_robot_detections),
    }
}

/// Whether an extension is one that is understood and readable.
pub open spec fn applies(c: sim::Custom<sim::RealismConfigErForce>) -> bool {
    names_message(c.type_url@, "RealismConfigErForce"@) && c.content is Some
}

/// The realism settings after a list of extensions, applied in order.
pub open spec fn merged_realism(
    r: Realism,
    custom: Seq<sim::Custom<sim::RealismConfigErForce>>,
) -> Realism
    decreases custom.len(),
{
    if custom.len() == 0 {
        r
    } else {
        let before = merged_realism(r, custom.drop_last());
        if applies(custom.last()) {
            merged_erforce(before, custom.last().content->0)
        } else {
            before
        }
    }
}

/// The type URLs of the extensions that were not applied, in order.
pub open spec fn ignored_urls(custom: Seq<sim::Custom<sim::RealismConfigErForce>>) -> Seq<Seq<char>>
    decreases custom.len(),
{
    if custom.len() == 0 {
        seq![]
    } else if applies(custom.last()) {
        ignored_urls(custom.drop_last())
    } else {
        ignored_urls(custom.drop_last()).push(custom.last().type_url@)
    }
}

/// The characters of each string of a list.
pub open spec fn strings_view(v: Seq<String>) -> Seq<Seq<char>> {
    Seq::new(v.len(), |i: int| v[i]@)
}

fn delay_from_wire(ns: i64) -> (res: Delay)
    ensures
        res == delay_of(ns),
{
    if ns < 0 {
        Delay::Nanoseconds(0)
    } else {
        Delay::Nanoseconds(ns as u64)
    }
}

/// Merge a decoded `RealismConfigErForce` into the realism settings. Delays are
/// clamped to non-negative.
pub fn merge_realism_erforce(r: Realism, c: &sim::RealismConfigErForce) -> (res: Realism)
    ensures
        res == merged_erforce(r, *c),
{
    Realism {
        stddev_ball_p: c.stddev_ball_p.unwrap_or(r.stddev_ball_p),
        stddev_robot_p: c.stddev_robot_p.unwrap_or(r.stddev_robot_p),
        stddev_robot_phi: c.stddev_robot_phi.unwrap_or(r.stddev_robot_phi),
        stddev_ball_area: c.stddev_ball_area.unwrap_or(r.stddev_ball_area),
        enable_invisible_ball: c.enable_invisible_ball.unwrap_or(r.enable_invisible_ball),
        ball_visibility_threshold: c.ball_visibility_threshold.unwrap_or(
            r.ball_visibility_threshold,
        ),
        camera_overlap: c.camera_overlap.unwrap_or(r.camera_overlap),
        dribbler_ball_detections: c.dribbler_ball_detections.unwrap_or(r.dribbler_ball_detections),
        camera_position_error: c.camera_position_error.unwrap_or(r.camera_position_error),
        robot_command_loss: c.robot_command_loss.unwrap_or(r.robot_command_loss),
        robot_response_loss: c.robot_response_loss.unwrap_or(r.robot_response_loss),
        missing_ball_detections: c.missing_ball_detections.unwrap_or(r.missing_ball_detections),
        vision_delay: match c.vision_delay {
            Some(ns) => delay_from_wire(ns),
            None => r.vision_delay,
        },
        vision_processing_time: match c.vision_processing_time {
            Some(ns) => delay_from_wire(ns),
            None => r.vision_processing_time,
        },
        simulate_dribbling: c.simulate_dribbling.unwrap_or(r.simulate_dribbling),
        object_position_offset: c.object_position_offset.unwrap_or(r.object_position_offset),
        missing_robot_detections: c.missing_robot_detections.unwrap_or(r.missing_robot_detections),
    }
}

/// Merge every `RealismConfigErForce` packed into `cfg.custom` into `realism`.
/// Unknown and unreadable entries are ignored. Returns the merged settings and
/// the list of type URLs that were ignored (the caller turns those into
/// warnings).
pub fn merge_realism(realism: Realism, cfg: &sim::RealismConfig) -> (res: (Realism, Vec<String>))
    ensures
        res.0 == merged_realism(realism, cfg.custom@),
        strings_view(res.1@) == ignored_urls(cfg.custom@),
{
    let mut out = realism;
    let mut ignored: Vec<String> = Vec::new();
    let mut i: usize = 0;
    while i < cfg.custom.len()
        invariant
            i <= cfg.custom@.len(),
            out == merged_realism(realism, cfg.custom@.take(i as int)),
            strings_view(ignored@) == ignored_urls(cfg.custom@.take(i as int)),
        decreases cfg.custom.len() - i,
    {
        let c = &cfg.custom[i];
        let ghost before = ignored@;
        let known = any_is(c.type_url.as_str(), "RealismConfigErForce");
        proof {
            assert(cfg.custom@.take(i + 1).drop_last() =~= cfg.custom@.take(i as int));
        }
        if known && c.content.is_some() {
            if let Some(content) = &c.content {
                out = merge_realism_erforce(out, content);
            }
        } else {
            ignored.push(c.type_url.clone());
            assert(strings_view(ignored@) =~= strings_view(before).push(c.type_url@));
        }
        i += 1;
    }
    assert(cfg.custom@.take(i as int) =~= cfg.custom@);
    (out, ignored)
}

/// Realism settings as the ER-Force message; the delays are given in whole
/// nanoseconds.
pub open spec fn erforce_message(
    r: Realism,
    vision_delay: i64,
    vision_processing_time: i64,
) -> sim::RealismConfigErForce {
    sim::RealismConfigErForce {
        stddev_ball_p: Some(r.stddev_ball_p),
        stddev_robot_p: Some(r.stddev_robot_p),
        stddev_robot_phi: Some(r.stddev_robot_phi),
        stddev_ball_area: Some(r.stddev_ball_area),
        enable_invisible_ball: Some(r.enable_invisible_ball),
        ball_visibility_threshold: Some(r.ball_visibility_threshold),
        camera_overlap: Some(r.camera_overlap),
        dribbler_ball_detections: Some(r.dribbler_ball_detections),
        camera_position_error: Some(r.camera_position_error),
        robot_command_loss: Some(r.robot_command_loss),
        robot_response_loss: Some(r.robot_response_loss),
        missing_ball_detections: Some(r.missing_ball_detections),
        vision_delay: Some(vision_delay),
        vision_processing_time: Some(vision_processing_time),
        simulate_dribbling: Some(r.simulate_dribbling),
        object_position_offset: Some(r.object_position_offset),
        missing_robot_detections: Some(r.missing_robot_detections),
    }
}

/// Realism settings back to the ER-Force custom message.
///
/// `vision_delay` and `vision_processing_time` are the settings' delays in whole
/// nanoseconds.
pub fn realism_to_erforce(r: &Realism, vision_delay: i64, vision_processing_time: i64) -> (res:
    sim::RealismConfigErForce)
    ensures
        res == erforce_message(*r, vision_delay, vision_processing_time),
{
    sim::RealismConfigErForce {
        stddev_ball_p: Some(r.stddev_ball_p),
        stddev_robot_p: Some(r.stddev_robot_p),
        stddev_robot_phi: Some(r.stddev_robot_phi),
        stddev_ball_area: Some(r.stddev_ball_area),
        enable_invisible_ball: Some(r.enable_invisible_ball),
        ball_visibility_threshold: Some(r.ball_visibility_threshold),
        camera_overlap: Some(r.camera_overlap),
        dribbler_ball_detections: Some(r.dribbler_ball_detections),
        camera_position_error: Some(r.camera_position_error),
        robot_command_loss: Some(r.robot_command_loss),
        robot_response_loss: Some(r.robot_response_loss),
        missing_ball_detections: Some(r.missing_ball_detections),
        vision_delay: Some(vision_delay),
        vision_processing_time: Some(vision_processing_time),
        simulate_dribbling: Some(r.simulate_dribbling),
        object_position_offset: Some(r.object_position_offset),
        missing_robot_detections: Some(r.missing_robot_detections),
    }
}

/// Realism settings written to the ER-Force message and merged into any others
/// come out as they were, with the delays in nanoseconds.
pub proof fn law_realism_round_trip(base: Realism, r: Realism, delay: u64, processing: u64)
    requires
        delay <= i64::MAX,
        processing <= i64::MAX,
        r.vision_delay == Delay::Nanoseconds(delay),
        r.vision_processing_time == Delay::Nanoseconds(processing),
    ensures
        merged_erforce(base, erforce_message(r, delay as i64, processing as i64)) == r,
{
}

/// One option, or another where the first has none.
pub open spec fn first_set<T>(a: Option<T>, b: Option<T>) -> Option<T> {
    if a is Some {
        a
    } else {
        b
    }
}

/// What two messages set together, where `b` goes before `a`.
pub open spec fn overlaid(
    a: sim::RealismConfigErForce,
    b: sim::RealismConfigErForce,
) -> sim::RealismConfigErForce {
    sim::RealismConfigErForce {
        stddev_ball_p: first_set(b.stddev_ball_p, a.stddev_ball_p),
        stddev_robot_p: first_set(b.stddev_robot_p, a.stddev_robot_p),
        stddev_robot_phi: first_set(b.stddev_robot_phi, a.stddev_robot_phi),
        stddev_ball_area: first_set(b.stddev_ball_area, a.stddev_ball_area),
        enable_invisible_ball: first_set(b.enable_invisible_ball, a.enable_invisible_ball),
        ball_visibility_threshold: first_set(b.ball_visibility_threshold, a.ball_visibility_threshold),
        camera_overlap: first_set(b.camera_overlap, a.camera_overlap),
        dribbler_ball_detections: first_set(b.dribbler_ball_detections, a.dribbler_ball_detections),
        camera_position_error: first_set(b.camera_position_error, a.camera_position_error),
        robot_command_loss: first_set(b.robot_command_loss, a.robot_command_loss),
        robot_response_loss: first_set(b.robot_response_loss, a.robot_response_loss),
        missing_ball_detections: first_set(b.missing_ball_detections, a.missing_ball_detections),
        vision_delay: first_set(b.vision_delay, a.vision_delay),
        vision_processing_time: first_set(b.vision_processing_time, a.vision_processing_time),
        simulate_dribbling: first_set(b.simulate_dribbling, a.simulate_dribbling),
        object_position_offset: first_set(b.object_position_offset, a.object_position_offset),
        missing_robot_detections: first_set(b.missing_robot_detections, a.missing_robot_detections),
    }
}

/// Two extensions one after the other set what they set together: the later one
/// wins in every field that it sets, and in no other. Setting the same twice is
/// the same as setting it once.
pub proof fn law_later_extension_wins(
    r: Realism,
    a: sim::RealismConfigErForce,
    b: sim::RealismConfigErForce,
)
    ensures
        merged_erforce(merged_erforce(r, a), b) == merged_erforce(r, overlaid(a, b)),
        merged_erforce(merged_erforce(r, a), a) == merged_erforce(r, a),
{
}

// ---------------------------------------------------------------- laws of the conversions

/// What a movement says on the wire is what the world is told, component by
/// component: a speed keeps its direction and a wheel its speed.
pub proof fn law_movements_come_in_as_sent(cmd: sim::RobotCommand)
    ensures
        ({
            let got = command_of(cmd).movement;
            match cmd.move_command {
                Some(sim::RobotMoveCommand { command: Some(m) }) => {
                    &&& m is LocalVelocity ==> (got matches Some(c) && c is LocalVelocity
                        && c->forward == m->forward && c->left == m->left
                        && c->LocalVelocity_angular == m->LocalVelocity_angular)
                    &&& m is GlobalVelocity ==> (got matches Some(c) && c is GlobalVelocity
                        && c->x == m->x && c->y == m->y && c->GlobalVelocity_angular
                        == m->GlobalVelocity_angular)
                    &&& m is WheelVelocity ==> (got matches Some(c) && c is WheelVelocity
                        && c->front_right == m->front_right && c->back_right == m->back_right
                        && c->back_left == m->back_left && c->front_left == m->front_left)
                },
                _ => got is None,
            }
        }),
{
}

/// What the world is told is what the message says, component by component, and the
/// other way round.
pub proof fn law_movements_go_out_as_given(number: u8, cmd: RobotCommand)
    ensures
        ({
            let sent = command_message(number, cmd).move_command;
            match cmd.movement {
                Some(c) => sent matches Some(w) && (w.command matches Some(m) && {
                    &&& c is LocalVelocity ==> m is LocalVelocity && m->forward == c->forward
                        && m->left == c->left && m->LocalVelocity_angular
                        == c->LocalVelocity_angular
                    &&& c is GlobalVelocity ==> m is GlobalVelocity && m->x == c->x && m->y == c->y
                        && m->GlobalVelocity_angular == c->GlobalVelocity_angular
                    &&& c is WheelVelocity ==> m is WheelVelocity && m->front_right
                        == c->front_right && m->back_right == c->back_right && m->back_left
                        == c->back_left && m->front_left == c->front_left
                }),
                None => sent is None,
            }
        }),
        command_message(number, cmd).id == number,
        command_message(number, cmd).kick_speed == cmd.kick_speed,
        command_message(number, cmd).kick_angle == Some(cmd.kick_angle_deg),
        command_message(number, cmd).dribbler_speed == cmd.dribbler_rpm,
{
}

/// A kick and a turning dribbler are asked for exactly by speeds above zero, and then
/// with that speed. The kick angle is the one given, straight ahead if none is.
pub proof fn law_kicks_and_dribbling_need_a_speed(cmd: sim::RobotCommand)
    ensures
        command_of(cmd).kick_speed matches Some(v) ==> cmd.kick_speed == Some(v) && Double::zero().lt(
            v,
        ),
        command_of(cmd).kick_speed is None ==> (cmd.kick_speed matches Some(v) ==> !Double::zero().lt(
            v,
        )),
        command_of(cmd).dribbler_rpm matches Some(v) ==> cmd.dribbler_speed == Some(v)
            && Double::zero().lt(v),
        command_of(cmd).dribbler_rpm is None ==> (cmd.dribbler_speed matches Some(v)
            ==> !Double::zero().lt(v)),
        cmd.kick_angle matches Some(a) ==> command_of(cmd).kick_angle_deg == a,
        cmd.kick_angle is None ==> command_of(cmd).kick_angle_deg.bits == 0,
{
}

/// A robot is named by the number and the team on the wire: 1 is yellow, 2 is blue.
/// Numbers over 255, other teams and missing parts are refused, all else accepted.
pub proof fn law_ids_mean_number_and_team(id: sim::RobotId)
    ensures
        id_refusal(id) is None <==> (id.team == Some(1i32) || id.team == Some(2i32)) && (
        id.id matches Some(n) && n <= 255),
        id_refusal(id) is None ==> id_of(id).number == id.id->0 && (id_of(id).team is Blue
            <==> id.team == Some(2i32)),
        id_refusal(id) matches Some(r) ==> r.0 == "UNSUPPORTED"@,
{
}

/// A robot's id on the wire is its number and its team.
pub proof fn law_ids_go_out_as_number_and_team(id: RobotId)
    ensures
        id_message(id).id == Some(id.number as u32),
        id_message(id).team == Some(
            if id.team is Blue {
                2i32
            } else {
                1i32
            },
        ),
{
}

/// An accepted ball teleport moves the ball exactly where the message says, with the
/// velocity it says. Without a position or velocity the ball keeps its own; a height
/// or vertical speed that is not given is zero; a flag is only set by a set flag.
pub proof fn law_ball_teleports_say_where_to(t: sim::TeleportBall)
    requires
        ball_refusal(t) is None,
    ensures
        ({
            let r = ball_request(t);
            &&& r.position is None <==> t.x is None && t.y is None
            &&& r.position matches Some(p) ==> {
                &&& t.x == Some(p.x) && t.y == Some(p.y)
                &&& t.z matches Some(z) ==> p.z == z
                &&& t.z is None ==> p.z.bits == 0
            }
            &&& r.velocity is None <==> t.vx is None && t.vy is None
            &&& r.velocity matches Some(v) ==> {
                &&& t.vx == Some(v.x) && t.vy == Some(v.y)
                &&& t.vz matches Some(z) ==> v.z == z
                &&& t.vz is None ==> v.z.bits == 0
            }
            &&& r.teleport_safely <==> t.teleport_safely == Some(true)
            &&& r.roll <==> t.roll == Some(true)
            &&& r.by_force <==> t.by_force == Some(true)
        }),
{
}

/// A ball teleport is accepted exactly when its coordinates are complete and, where
/// robots are to be pushed away, there is a position. Incomplete coordinates are
/// told apart from a missing position by the code.
pub proof fn law_incomplete_ball_teleports_are_refused(t: sim::TeleportBall)
    ensures
        ({
            let whole = |x: Option<Double>, y: Option<Double>, z: Option<Double>|
                (x is Some && y is Some) || (x is None && y is None && z is None);
            let complete = whole(t.x, t.y, t.z) && whole(t.vx, t.vy, t.vz);
            &&& ball_refusal(t) is None <==> complete && (t.teleport_safely == Some(true)
                ==> t.x is Some)
            &&& ball_refusal(t) matches Some(r) ==> r.0 == if complete {
                "TELEPORT_SAFELY_PARTIAL"@
            } else {
                "PARTIAL_COORD"@
            }
        }),
{
}

/// An accepted robot teleport names the robot of the message and hands on exactly what
/// the message gives: position, heading, velocities, presence and force.
pub proof fn law_robot_teleports_say_where_to(t: sim::TeleportRobot)
    requires
        robot_refusal(t) is None,
    ensures
        ({
            let r = robot_request(t);
            &&& t.id.id == Some(r.id.number as u32)
            &&& r.id.team is Blue <==> t.id.team == Some(2i32)
            &&& r.orientation == t.orientation
            &&& r.angular_velocity == t.v_angular
            &&& r.present == t.present
            &&& r.by_force <==> t.by_force == Some(true)
            &&& r.position is None <==> t.x is None && t.y is None
            &&& r.position matches Some(p) ==> t.x == Some(p.x) && t.y == Some(p.y)
            &&& r.velocity is None <==> t.v_x is None && t.v_y is None
            &&& r.velocity matches Some(v) ==> t.v_x == Some(v.x) && t.v_y == Some(v.y)
        }),
{
}

/// A robot teleport is accepted exactly when it names a robot and neither a position
/// nor a velocity is given by half; a heading is never needed.
pub proof fn law_incomplete_robot_teleports_are_refused(t: sim::TeleportRobot)
    ensures
        robot_refusal(t) is None <==> id_refusal(t.id) is None && (t.x is Some <==> t.y is Some) && (
        t.v_x is Some <==> t.v_y is Some),
        id_refusal(t.id) is Some ==> robot_refusal(t) == id_refusal(t.id),
        id_refusal(t.id) is None ==> (robot_refusal(t) matches Some(r) ==> r.0 == "PARTIAL_COORD"@),
{
}

/// Mounting angles keep their wheel and their size and turn the other way, on the way
/// in and on the way out.
pub proof fn law_wheel_angles_turn_round(w: sim::RobotWheelAngles, v: WheelAngles)
    ensures
        mirrored(angles_of(w).front_right, w.front_right),
        mirrored(angles_of(w).back_right, w.back_right),
        mirrored(angles_of(w).back_left, w.back_left),
        mirrored(angles_of(w).front_left, w.front_left),
        mirrored(angles_message(v).front_right, v.front_right),
        mirrored(angles_message(v).back_right, v.back_right),
        mirrored(angles_message(v).back_left, v.back_left),
        mirrored(angles_message(v).front_left, v.front_left),
{
}

/// Two numbers of the same size and of opposite sign.
pub open spec fn mirrored(a: Double, b: Double) -> bool {
    a.magnitude() == b.magnitude() && a.negative() != b.negative()
}

/// A type URL names a message, of a plain name, exactly when it is that name or ends in
/// it behind a slash or a dot.
pub proof fn law_urls_end_in_the_name(url: Seq<char>, name: Seq<char>)
    requires
        forall|i: int| 0 <= i < name.len() ==> name[i] != '/' && name[i] != '.',
    ensures
        names_message(url, name) <==> url == name || ({
            let k = url.len() - name.len();
            k > 0 && url.skip(k) == name && (url[k - 1] == '/' || url[k - 1] == '.')
        }),
{
    let k = url.len() - name.len();
    let a = lemma_last_start(url, '/');
    let last = after_last(url, '/');
    let b = lemma_last_start(last, '.');
    if names_message(url, name) {
        if last != name {
            assert(last.skip(b) == name);
            assert(url.skip(a).skip(b) =~= url.skip(a + b));
            assert(a + b == k);
            if b > 0 {
                assert(last[b - 1] == url[a + b - 1]);
            } else {
                assert(last.skip(0) =~= last);
            }
        } else {
            assert(a == k);
            if a == 0 {
                assert(url.skip(0) =~= url);
            }
        }
    }
    if url == name {
        lemma_after_last_tail(url, '/', 0);
        assert(url.skip(0) =~= url);
    } else if k > 0 && url.skip(k) == name && (url[k - 1] == '/' || url[k - 1] == '.') {
        assert forall|j: int| k <= j < url.len() implies url[j] != '/' && url[j] != '.' by {
            assert(url.skip(k)[j - k] == url[j]);
        }
        if url[k - 1] == '/' {
            lemma_after_last_tail(url, '/', k);
        } else {
            if a > k {
                assert(url[a - 1] == '/');
            }
            assert(a < k);
            let m = k - a;
            assert(last[m - 1] == url[k - 1]);
            assert forall|j: int| m <= j < last.len() implies last[j] != '.' by {
                assert(last[j] == url[a + j]);
            }
            lemma_after_last_tail(last, '.', m);
            assert(last.skip(m) =~= url.skip(k));
        }
    }
}

proof fn lemma_last_start(s: Seq<char>, c: char) -> (k: int)
    ensures
        0 <= k <= s.len(),
        after_last(s, c) == s.skip(k),
        k == 0 || s[k - 1] == c,
        forall|j: int| k <= j < s.len() ==> s[j] != c,
    decreases s.len(),
{
    if s.len() == 0 {
        assert(s.skip(0) =~= s);
        0
    } else if s.last() == c {
        assert(s.skip(s.len() as int) =~= seq![]);
        s.len() as int
    } else {
        let t = s.drop_last();
        let k = lemma_last_start(t, c);
        assert(s.skip(k) =~= t.skip(k).push(s.last()));
        assert forall|j: int| k <= j < s.len() implies s[j] != c by {
            if j < t.len() {
                assert(t[j] == s[j]);
            }
        }
        k
    }
}

/// A message replaces each property that it sets by what it sets it to, and leaves
/// each other property as it was.
pub proof fn law_specs_take_what_is_set(specs: RobotSpecs, proto: sim::RobotSpecs)
    ensures
        ({
            let r = merged_specs(specs, proto);
            &&& proto.radius matches Some(v) ==> r.radius == v
            &&& proto.radius is None ==> r.radius == specs.radius
            &&& proto.height matches Some(v) ==> r.height == v
            &&& proto.height is None ==> r.height == specs.height
            &&& proto.mass matches Some(v) ==> r.mass == v
            &&& proto.mass is None ==> r.mass == specs.mass
            &&& proto.center_to_dribbler matches Some(v) ==> r.center_to_dribbler == v
            &&& proto.center_to_dribbler is None ==> r.center_to_dribbler == specs.center_to_dribbler
            &&& proto.max_linear_kick_speed matches Some(v) ==> r.kicker.max_linear_speed == v
            &&& proto.max_linear_kick_speed is None ==> r.kicker.max_linear_speed == specs.kicker.max_linear_speed
            &&& proto.max_chip_kick_speed matches Some(v) ==> r.kicker.max_chip_speed == v
            &&& proto.max_chip_kick_speed is None ==> r.kicker.max_chip_speed == specs.kicker.max_chip_speed
            &&& proto.limits is None ==> r.limits == specs.limits
            &&& proto.limits matches Some(l) ==> {
                &&& l.acc_speedup_absolute_max matches Some(v) ==> r.limits.acc_speedup_absolute_max == v
                &&& l.acc_speedup_absolute_max is None ==> r.limits.acc_speedup_absolute_max == specs.limits.acc_speedup_absolute_max
                &&& l.acc_speedup_angular_max matches Some(v) ==> r.limits.acc_speedup_angular_max == v
                &&& l.acc_speedup_angular_max is None ==> r.limits.acc_speedup_angular_max == specs.limits.acc_speedup_angular_max
                &&& l.acc_brake_absolute_max matches Some(v) ==> r.limits.acc_brake_absolute_max == v
                &&& l.acc_brake_absolute_max is None ==> r.limits.acc_brake_absolute_max == specs.limits.acc_brake_absolute_max
                &&& l.acc_brake_angular_max matches Some(v) ==> r.limits.acc_brake_angular_max == v
                &&& l.acc_brake_angular_max is None ==> r.limits.acc_brake_angular_max == specs.limits.acc_brake_angular_max
                &&& l.vel_absolute_max matches Some(v) ==> r.limits.vel_absolute_max == v
                &&& l.vel_absolute_max is None ==> r.limits.vel_absolute_max == specs.limits.vel_absolute_max
                &&& l.vel_angular_max matches Some(v) ==> r.limits.vel_angular_max == v
                &&& l.vel_angular_max is None ==> r.limits.vel_angular_max == specs.limits.vel_angular_max
            }
            &&& proto.wheel_angles is None ==> r.wheel_angles == specs.wheel_angles
            &&& proto.wheel_angles matches Some(w) ==> {
                &&& mirrored(r.wheel_angles.front_right, w.front_right)
                &&& mirrored(r.wheel_angles.back_right, w.back_right)
                &&& mirrored(r.wheel_angles.back_left, w.back_left)
                &&& mirrored(r.wheel_angles.front_left, w.front_left)
            }
            &&& r.dribbler_max_rpm == specs.dribbler_max_rpm
        }),
{
    let base = RobotSpecs {
        radius: or_keep(proto.radius, specs.radius),
        height: or_keep(proto.height, specs.height),
        mass: or_keep(proto.mass, specs.mass),
        center_to_dribbler: or_keep(proto.center_to_dribbler, specs.center_to_dribbler),
        kicker: KickerSpecs {
            max_linear_speed: or_keep(proto.max_linear_kick_speed, specs.kicker.max_linear_speed),
            max_chip_speed: or_keep(proto.max_chip_kick_speed, specs.kicker.max_chip_speed),
        },
        limits: merged_limits(specs.limits, proto.limits),
        wheel_angles: match proto.wheel_angles {
            Some(w) => angles_of(w),
            None => specs.wheel_angles,
        },
        ..specs
    };
    lemma_extensions_keep(base, proto.custom@);
}

proof fn lemma_extensions_keep(
    specs: RobotSpecs,
    custom: Seq<sim::Custom<sim::RobotSpecErForce>>,
)
    ensures
        with_extensions(specs, custom) == (RobotSpecs {
            shoot_radius: with_extensions(specs, custom).shoot_radius,
            dribbler_width: with_extensions(specs, custom).dribbler_width,
            ..specs
        }),
    decreases custom.len(),
{
    if custom.len() > 0 {
        lemma_extensions_keep(specs, custom.drop_last());
    }
}

/// Extensions count in order: the last one that is a `RobotSpecErForce` and sets a
/// property decides on it; without any, the property stays. Other extensions are as
/// if they were not there.
pub proof fn law_last_spec_extension_decides(
    specs: RobotSpecs,
    custom: Seq<sim::Custom<sim::RobotSpecErForce>>,
)
    ensures
        ({
            let r = with_extensions(specs, custom);
            let rest = with_extensions(specs, custom.drop_last());
            &&& custom.len() == 0 ==> r == specs
            &&& custom.len() > 0 && names_message(custom.last().type_url@, "RobotSpecErForce"@) ==> (
            custom.last().content matches Some(c) ==> {
                &&& c.shoot_radius matches Some(v) ==> r.shoot_radius == v
                &&& c.shoot_radius is None ==> r.shoot_radius == rest.shoot_radius
                &&& c.dribbler_width matches Some(v) ==> r.dribbler_width == v
                &&& c.dribbler_width is None ==> r.dribbler_width == rest.dribbler_width
            })
            &&& custom.len() > 0 && (!names_message(custom.last().type_url@, "RobotSpecErForce"@)
                || custom.last().content is None) ==> r == rest
        }),
{
}

/// A specs message says of the robot what its specs are, property by property.
pub proof fn law_specs_go_out_as_they_are(m: sim::RobotSpecs, id: RobotId, specs: RobotSpecs)
    requires
        carries_specs(m, id, specs),
    ensures
        m.id.id == Some(id.number as u32),
        m.id.team == Some(
            if id.team is Blue {
                2i32
            } else {
                1i32
            },
        ),
        m.radius == Some(specs.radius),
        m.height == Some(specs.height),
        m.mass == Some(specs.mass),
        m.center_to_dribbler == Some(specs.center_to_dribbler),
        m.max_linear_kick_speed == Some(specs.kicker.max_linear_speed),
        m.max_chip_kick_speed == Some(specs.kicker.max_chip_speed),
        m.limits matches Some(l) && {
            &&& l.acc_speedup_absolute_max == Some(specs.limits.acc_speedup_absolute_max)
            &&& l.acc_speedup_angular_max == Some(specs.limits.acc_speedup_angular_max)
            &&& l.acc_brake_absolute_max == Some(specs.limits.acc_brake_absolute_max)
            &&& l.acc_brake_angular_max == Some(specs.limits.acc_brake_angular_max)
            &&& l.vel_absolute_max == Some(specs.limits.vel_absolute_max)
            &&& l.vel_angular_max == Some(specs.limits.vel_angular_max)
        },
        m.wheel_angles matches Some(w) && {
            &&& mirrored(w.front_right, specs.wheel_angles.front_right)
            &&& mirrored(w.back_right, specs.wheel_angles.back_right)
            &&& mirrored(w.back_left, specs.wheel_angles.back_left)
            &&& mirrored(w.front_left, specs.wheel_angles.front_left)
        },
        m.custom@.len() == 1,
        names_message(m.custom@[0].type_url@, "RobotSpecErForce"@),
        m.custom@[0].content matches Some(c) && c.shoot_radius == Some(specs.shoot_radius)
            && c.dribbler_width == Some(specs.dribbler_width),
{
    reveal_strlit("RobotSpecErForce");
    law_packed_message_is_found("RobotSpecErForce"@);
}

/// A realism message replaces each setting that it sets by what it sets it to, and
/// leaves each other setting as it was. A negative delay is none.
pub proof fn law_realism_takes_what_is_set(r: Realism, c: sim::RealismConfigErForce)
    ensures
        ({
            let m = merged_erforce(r, c);
            &&& c.stddev_ball_p matches Some(v) ==> m.stddev_ball_p == v
            &&& c.stddev_ball_p is None ==> m.stddev_ball_p == r.stddev_ball_p
            &&& c.stddev_robot_p matches Some(v) ==> m.stddev_robot_p == v
            &&& c.stddev_robot_p is None ==> m.stddev_robot_p == r.stddev_robot_p
            &&& c.stddev_robot_phi matches Some(v) ==> m.stddev_robot_phi == v
            &&& c.stddev_robot_phi is None ==> m.stddev_robot_phi == r.stddev_robot_phi
            &&& c.stddev_ball_area matches Some(v) ==> m.stddev_ball_area == v
            &&& c.stddev_ball_area is None ==> m.stddev_ball_area == r.stddev_ball_area
            &&& c.enable_invisible_ball matches Some(v) ==> m.enable_invisible_ball == v
            &&& c.enable_invisible_ball is None ==> m.enable_invisible_ball == r.enable_invisible_ball
            &&& c.ball_visibility_threshold matches Some(v) ==> m.ball_visibility_threshold == v
            &&& c.ball_visibility_threshold is None ==> m.ball_visibility_threshold == r.ball_visibility_threshold
            &&& c.camera_overlap matches Some(v) ==> m.camera_overlap == v
            &&& c.camera_overlap is None ==> m.camera_overlap == r.camera_overlap
            &&& c.dribbler_ball_detections matches Some(v) ==> m.dribbler_ball_detections == v
            &&& c.dribbler_ball_detections is None ==> m.dribbler_ball_detections == r.dribbler_ball_detections
            &&& c.camera_position_error matches Some(v) ==> m.camera_position_error == v
            &&& c.camera_position_error is None ==> m.camera_position_error == r.camera_position_error
            &&& c.robot_command_loss matches Some(v) ==> m.robot_command_loss == v
            &&& c.robot_command_loss is None ==> m.robot_command_loss == r.robot_command_loss
            &&& c.robot_response_loss matches Some(v) ==> m.robot_response_loss == v
            &&& c.robot_response_loss is None ==> m.robot_response_loss == r.robot_response_loss
            &&& c.missing_ball_detections matches Some(v) ==> m.missing_ball_detections == v
            &&& c.missing_ball_detections is None ==> m.missing_ball_detections == r.missing_ball_detections
            &&& c.simulate_dribbling matches Some(v) ==> m.simulate_dribbling == v
            &&& c.simulate_dribbling is None ==> m.simulate_dribbling == r.simulate_dribbling
            &&& c.object_position_offset matches Some(v) ==> m.object_position_offset == v
            &&& c.object_position_offset is None ==> m.object_position_offset == r.object_position_offset
            &&& c.missing_robot_detections matches Some(v) ==> m.missing_robot_detections == v
            &&& c.missing_robot_detections is None ==> m.missing_robot_detections == r.missing_robot_detections
            &&& c.vision_delay is None ==> m.vision_delay == r.vision_delay
            &&& c.vision_delay matches Some(ns) ==> (m.vision_delay matches Delay::Nanoseconds(n) && n >= 0 && (ns >= 0 ==> n == ns)
                && (ns < 0 ==> n == 0))
            &&& c.vision_processing_time is None ==> m.vision_processing_time == r.vision_processing_time
            &&& c.vision_processing_time matches Some(ns) ==> (m.vision_processing_time matches Delay::Nanoseconds(n) && n >= 0 && (ns >= 0 ==> n == ns)
                && (ns < 0 ==> n == 0))
        }),
{
}

/// A realism message says what each setting is.
pub proof fn law_realism_goes_out_as_it_is(r: Realism, delay: i64, processing: i64)
    ensures
        ({
            let m = erforce_message(r, delay, processing);
            &&& m.stddev_ball_p == Some(r.stddev_ball_p)
            &&& m.stddev_robot_p == Some(r.stddev_robot_p)
            &&& m.stddev_robot_phi == Some(r.stddev_robot_phi)
            &&& m.stddev_ball_area == Some(r.stddev_ball_area)
            &&& m.enable_invisible_ball == Some(r.enable_invisible_ball)
            &&& m.ball_visibility_threshold == Some(r.ball_visibility_threshold)
            &&& m.camera_overlap == Some(r.camera_overlap)
            &&& m.dribbler_ball_detections == Some(r.dribbler_ball_detections)
            &&& m.camera_position_error == Some(r.camera_position_error)
            &&& m.robot_command_loss == Some(r.robot_command_loss)
            &&& m.robot_response_loss == Some(r.robot_response_loss)
            &&& m.missing_ball_detections == Some(r.missing_ball_detections)
            &&& m.simulate_dribbling == Some(r.simulate_dribbling)
            &&& m.object_position_offset == Some(r.object_position_offset)
            &&& m.missing_robot_detections == Some(r.missing_robot_detections)
            &&& m.vision_delay == Some(delay)
            &&& m.vision_processing_time == Some(processing)
        }),
{
}

/// Realism extensions count in order: the last one takes effect on what the others
/// left if it is a readable `RealismConfigErForce`; else it changes nothing, and then
/// it is the last that is reported as ignored.
pub proof fn law_realism_extensions_apply_or_are_reported(
    r: Realism,
    custom: Seq<sim::Custom<sim::RealismConfigErForce>>,
)
    ensures
        custom.len() == 0 ==> merged_realism(r, custom) == r && ignored_urls(custom).len() == 0,
        custom.len() > 0 ==> {
            let rest = custom.drop_last();
            let known = names_message(custom.last().type_url@, "RealismConfigErForce"@)
                && custom.last().content is Some;
            &&& known ==> merged_realism(r, custom) == merged_erforce(
                merged_realism(r, rest),
                custom.last().content->0,
            ) && ignored_urls(custom) == ignored_urls(rest)
            &&& !known ==> merged_realism(r, custom) == merged_realism(r, rest) && ignored_urls(
                custom,
            ) == ignored_urls(rest).push(custom.last().type_url@)
        },
{
}

/// Yellow is 1 and blue is 2 on the wire, both ways, and nothing else is a team.
pub proof fn law_team_values(team: Option<i32>, t: Team)
    ensures
        team_of(team) == Some(Team::Yellow) <==> team == Some(1i32),
        team_of(team) == Some(Team::Blue) <==> team == Some(2i32),
        team_value(t) == if t is Blue {
            2i32
        } else {
            1i32
        },
{
}

/// An error carries the code and the message, of the world's errors those of the error.
pub proof fn law_errors_carry_code_and_message(code: Seq<char>, message: Seq<char>, e: SimError)
    ensures
        error_view(code, message).0 == Some(code),
        error_view(code, message).1 == Some(message),
        sim_error_view(e).0 == Some(e.spec_code()),
        sim_error_view(e).1 == Some(e.spec_message()),
{
}

/// Strings are viewed one by one.
pub proof fn law_strings_one_by_one(v: Seq<String>, i: int)
    requires
        0 <= i < v.len(),
    ensures
        strings_view(v).len() == v.len(),
        strings_view(v)[i] == v[i]@,
{
}

/// A refusal says what is missing or wrong: of an id the team before the number, of a
/// teleport the position before the velocity, and the plane before the height.
pub proof fn law_refusals_say_what_is_missing(id: sim::RobotId, b: sim::TeleportBall, r: sim::TeleportRobot)
    ensures
        ({
            let teamless = id.team != Some(1i32) && id.team != Some(2i32);
            &&& teamless ==> (id_refusal(id) matches Some(e) && e.1 == "RobotId without a known team"@)
            &&& !teamless && id.id is None ==> (id_refusal(id) matches Some(e) && e.1
                == "RobotId without an id"@)
            &&& !teamless && id.id is Some && id.id->0 > 255 ==> (id_refusal(id) matches Some(e) && e.1
                == "robot id "@ + text::decimal(id.id->0 as nat) + " out of range"@)
        }),
        ({
            let half = (b.x is Some) != (b.y is Some);
            let afloat = b.x is None && b.y is None && b.z is Some;
            let v_half = (b.vx is Some) != (b.vy is Some);
            let v_afloat = b.vx is None && b.vy is None && b.vz is Some;
            let said = |m: Seq<char>| ball_refusal(b) is Some && (ball_refusal(b)->0).1 == m;
            &&& half ==> said("TeleportBall needs both x and y"@)
            &&& afloat ==> said("TeleportBall z without x and y"@)
            &&& !half && !afloat && v_half ==> said("TeleportBall needs both vx and vy"@)
            &&& !half && !afloat && v_afloat ==> said("TeleportBall vz without vx and vy"@)
            &&& !half && !afloat && !v_half && !v_afloat && b.x is None && b.teleport_safely == Some(true)
                ==> said("teleport_safely needs x and y"@)
        }),
        ({
            let half = (r.x is Some) != (r.y is Some);
            let v_half = (r.v_x is Some) != (r.v_y is Some);
            let said = |m: Seq<char>| robot_refusal(r) is Some && (robot_refusal(r)->0).1 == m;
            let front = "TeleportRobot "@ + id_of(r.id).shown();
            &&& id_refusal(r.id) is None && half ==> said(front + " needs both x and y"@)
            &&& id_refusal(r.id) is None && !half && v_half ==> said(front + " needs both v_x and v_y"@)
        }),
{
}

/// A packed message goes by its name behind the usual prefix.
pub proof fn law_packed_messages_are_named(name: Seq<char>)
    ensures
        url_of(name) == "type.googleapis.com/"@ + name,
{
}

/// What the extensions of a message leave of a property is what they leave of it on
/// their own: the rest of the message does not touch it.
pub proof fn law_extensions_count_in_messages(specs: RobotSpecs, proto: sim::RobotSpecs)
    ensures
        merged_specs(specs, proto).shoot_radius == with_extensions(specs, proto.custom@).shoot_radius,
        merged_specs(specs, proto).dribbler_width == with_extensions(specs, proto.custom@).dribbler_width,
{
    let base = RobotSpecs {
        radius: or_keep(proto.radius, specs.radius),
        height: or_keep(proto.height, specs.height),
        mass: or_keep(proto.mass, specs.mass),
        center_to_dribbler: or_keep(proto.center_to_dribbler, specs.center_to_dribbler),
        kicker: KickerSpecs {
            max_linear_speed: or_keep(proto.max_linear_kick_speed, specs.kicker.max_linear_speed),
            max_chip_speed: or_keep(proto.max_chip_kick_speed, specs.kicker.max_chip_speed),
        },
        limits: merged_limits(specs.limits, proto.limits),
        wheel_angles: match proto.wheel_angles {
            Some(w) => angles_of(w),
            None => specs.wheel_angles,
        },
        ..specs
    };
    lemma_extensions_agree(base, specs, proto.custom@);
}

proof fn lemma_extensions_agree(
    a: RobotSpecs,
    b: RobotSpecs,
    custom: Seq<sim::Custom<sim::RobotSpecErForce>>,
)
    requires
        a.shoot_radius == b.shoot_radius,
        a.dribbler_width == b.dribbler_width,
    ensures
        with_extensions(a, custom).shoot_radius == with_extensions(b, custom).shoot_radius,
        with_extensions(a, custom).dribbler_width == with_extensions(b, custom).dribbler_width,
    decreases custom.len(),
{
    if custom.len() > 0 {
        lemma_extensions_agree(a, b, custom.drop_last());
    }
}

} // verus!
