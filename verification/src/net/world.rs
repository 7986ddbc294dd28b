//! What the network logic knows of the simulated world: ids, commands,
//! teleports, robot specs, realism settings and the errors the world reports.
//!
//! Lengths are metres, speeds m/s, angles radians unless a name says otherwise.
use vstd::prelude::*;

use crate::double::Double;
use crate::text;

verus! {

/// A team.
#[derive(Clone, Copy, Debug, PartialEq, Eq, PartialOrd, Ord, Hash, Structural)]
pub enum Team {
    /// Blue.
    Blue,
    /// Yellow.
    Yellow,
}

/// A robot: its team and its number.
#[derive(Clone, Copy, Debug, PartialEq, Eq, PartialOrd, Ord, Hash, Structural)]
pub struct RobotId {
    /// Team.
    pub team: Team,
    /// Number on the robot.
    pub number: u8,
}

impl RobotId {
    /// The robot `number` of `team`.
    pub fn new(team: Team, number: u8) -> (res: RobotId)
        ensures
            res == (RobotId { team, number }),
    {
        RobotId { team, number }
    }

    /// The id as text: `B` or `Y` and the number.
    pub open spec fn shown(self) -> Seq<char> {
        let letter = match self.team {
            Team::Blue => "B"@,
            Team::Yellow => "Y"@,
        };
        letter + text::decimal(self.number as nat)
    }

    /// The id as text: `B` or `Y` and the number.
    pub fn show(self) -> (res: String)
        ensures
            res@ == self.shown(),
    {
        let digits = text::to_decimal(self.number as u64);
        match self.team {
            Team::Blue => text::join("B", digits.as_str()),
            Team::Yellow => text::join("Y", digits.as_str()),
        }
    }
}

/// A point or a velocity in the plane.
#[derive(Clone, Copy, Debug, PartialEq, Eq, Structural)]
pub struct Vec2 {
    /// Along the field.
    pub x: Double,
    /// Across the field.
    pub y: Double,
}

/// A point or a velocity in space.
#[derive(Clone, Copy, Debug, PartialEq, Eq, Structural)]
pub struct Vec3 {
    /// Along the field.
    pub x: Double,
    /// Across the field.
    pub y: Double,
    /// Upwards.
    pub z: Double,
}

/// How a robot is told to move.
#[derive(Clone, Copy, Debug, PartialEq, Eq, Structural)]
pub enum MoveCommand {
    /// Velocity in the robot's frame.
    LocalVelocity {
        /// Forward.
        forward: Double,
        /// To the left.
        left: Double,
        /// Counter-clockwise.
        angular: Double,
    },
    /// Velocity in the field's frame.
    GlobalVelocity {
        /// Along the field.
        x: Double,
        /// Across the field.
        y: Double,
        /// Counter-clockwise.
        angular: Double,
    },
    /// Speed of each wheel.
    WheelVelocity {
        /// Front right wheel.
        front_right: Double,
        /// Back right wheel.
        back_right: Double,
        /// Back left wheel.
        back_left: Double,
        /// Front left wheel.
        front_left: Double,
    },
}

/// One robot's command.
#[derive(Clone, Copy, Debug, PartialEq, Eq, Structural)]
pub struct RobotCommand {
    /// Movement, or `None` to keep the last one.
    pub movement: Option<MoveCommand>,
    /// Kick speed, when a kick is asked for.
    pub kick_speed: Option<Double>,
    /// Kick angle in degrees.
    pub kick_angle_deg: Double,
    /// Dribbler speed in rpm, when it should turn.
    pub dribbler_rpm: Option<Double>,
}

/// A request to move the ball.
#[derive(Clone, Copy, Debug, PartialEq, Eq, Structural)]
pub struct TeleportBall {
    /// New position.
    pub position: Option<Vec3>,
    /// New velocity.
    pub velocity: Option<Vec3>,
    /// Push robots out of the way.
    pub teleport_safely: bool,
    /// Start out rolling.
    pub roll: bool,
    /// Move it by a force.
    pub by_force: bool,
}

/// A request to move, add or remove a robot.
#[derive(Clone, Copy, Debug, PartialEq, Eq, Structural)]
pub struct TeleportRobot {
    /// Which robot.
    pub id: RobotId,
    /// New position.
    pub position: Option<Vec2>,
    /// New orientation.
    pub orientation: Option<Double>,
    /// New velocity.
    pub velocity: Option<Vec2>,
    /// New angular velocity.
    pub angular_velocity: Option<Double>,
    /// Whether the robot is on the field.
    pub present: Option<bool>,
    /// Move it by a force.
    pub by_force: bool,
}

/// Mounting angles of the four wheels, counter-clockwise from forward.
#[derive(Clone, Copy, Debug, PartialEq, Eq, Structural)]
pub struct WheelAngles {
    /// Front right wheel.
    pub front_right: Double,
    /// Back right wheel.
    pub back_right: Double,
    /// Back left wheel.
    pub back_left: Double,
    /// Front left wheel.
    pub front_left: Double,
}

/// Velocity and acceleration limits of a robot.
#[derive(Clone, Copy, Debug, PartialEq, Eq, Structural)]
pub struct RobotLimits {
    /// Largest acceleration when speeding up.
    pub acc_speedup_absolute_max: Double,
    /// Largest angular acceleration when speeding up.
    pub acc_speedup_angular_max: Double,
    /// Largest deceleration.
    pub acc_brake_absolute_max: Double,
    /// Largest angular deceleration.
    pub acc_brake_angular_max: Double,
    /// Largest speed.
    pub vel_absolute_max: Double,
    /// Largest angular speed.
    pub vel_angular_max: Double,
}

/// Kicker limits of a robot.
#[derive(Clone, Copy, Debug, PartialEq, Eq, Structural)]
pub struct KickerSpecs {
    /// Fastest straight kick.
    pub max_linear_speed: Double,
    /// Fastest chip kick.
    pub max_chip_speed: Double,
}

/// The parts of a robot's specs that the protocols read or set.
#[derive(Clone, Copy, Debug, PartialEq, Eq, Structural)]
pub struct RobotSpecs {
    /// Hull radius.
    pub radius: Double,
    /// Height.
    pub height: Double,
    /// Mass in kg.
    pub mass: Double,
    /// Distance from the centre to the dribbler.
    pub center_to_dribbler: Double,
    /// Radius within which a kick reaches the ball.
    pub shoot_radius: Double,
    /// Width of the dribbler.
    pub dribbler_width: Double,
    /// Dribbler full speed in rpm.
    pub dribbler_max_rpm: Double,
    /// Kicker limits.
    pub kicker: KickerSpecs,
    /// Motion limits.
    pub limits: RobotLimits,
    /// Wheel mounting angles.
    pub wheel_angles: WheelAngles,
}

/// A delay, in the unit of the place it came from.
#[derive(Clone, Copy, Debug, PartialEq, Eq, Structural)]
pub enum Delay {
    /// Seconds, as the world's configuration has it.
    Seconds(Double),
    /// Nanoseconds, as the wire has it.
    Nanoseconds(u64),
}

/// How imperfect sensing and communication are.
#[derive(Clone, Copy, Debug, PartialEq, Eq, Structural)]
pub struct Realism {
    /// Ball position noise.
    pub stddev_ball_p: Double,
    /// Robot position noise.
    pub stddev_robot_p: Double,
    /// Robot orientation noise.
    pub stddev_robot_phi: Double,
    /// Ball area noise.
    pub stddev_ball_area: Double,
    /// Whether robots can hide the ball.
    pub enable_invisible_ball: bool,
    /// Visible share of the ball below which it is not detected.
    pub ball_visibility_threshold: Double,
    /// Overlap of neighbouring cameras.
    pub camera_overlap: Double,
    /// Chance of a false ball at a dribbler.
    pub dribbler_ball_detections: Double,
    /// Error of the camera positions.
    pub camera_position_error: Double,
    /// Chance that a robot command is lost.
    pub robot_command_loss: Double,
    /// Chance that a robot response is lost.
    pub robot_response_loss: Double,
    /// Chance that a ball detection is missing.
    pub missing_ball_detections: Double,
    /// Delay from capture to arrival.
    pub vision_delay: Delay,
    /// Part of the delay spent processing.
    pub vision_processing_time: Delay,
    /// Whether dribbling is simulated.
    pub simulate_dribbling: bool,
    /// Offset of detections from the real position.
    pub object_position_offset: Double,
    /// Chance that a robot detection is missing.
    pub missing_robot_detections: Double,
}

/// Why the world or a conversion refused a request.
#[derive(Clone, Debug, PartialEq, Eq)]
pub enum SimError {
    /// Some coordinates are given, others are missing.
    PartialCoord(String),
    /// A velocity together with `by_force`.
    VelocityForce(String),
    /// `teleport_safely` without a position.
    TeleportSafelyPartial(String),
    /// A robot to be created has no position.
    CreateNoPosRobot(String),
    /// Robot specs that make no sense.
    InvalidSpec(String),
    /// Something that is not supported.
    Unsupported(String),
    /// No such robot.
    UnknownRobot(RobotId),
    /// A step that cannot be taken.
    InvalidStep(String),
}

impl SimError {
    /// Stable code that goes on the wire.
    pub open spec fn spec_code(self) -> Seq<char> {
        match self {
            SimError::PartialCoord(_) => "PARTIAL_COORD"@,
            SimError::VelocityForce(_) => "VELOCITY_FORCE"@,
            SimError::TeleportSafelyPartial(_) => "TELEPORT_SAFELY_PARTIAL"@,
            SimError::CreateNoPosRobot(_) => "CREATE_NOPOS_ROBOT"@,
            SimError::InvalidSpec(_) => "INVALID_SPEC"@,
            SimError::Unsupported(_) => "UNSUPPORTED"@,
            SimError::UnknownRobot(_) => "UNKNOWN_ROBOT"@,
            SimError::InvalidStep(_) => "INVALID_STEP"@,
        }
    }

    /// What it says to a reader: the text it was made with, or the robot's id.
    pub open spec fn spec_message(self) -> Seq<char> {
        match self {
            SimError::PartialCoord(m) => m@,
            SimError::VelocityForce(m) => m@,
            SimError::TeleportSafelyPartial(m) => m@,
            SimError::CreateNoPosRobot(m) => m@,
            SimError::InvalidSpec(m) => m@,
            SimError::Unsupported(m) => m@,
            SimError::UnknownRobot(id) => id.shown(),
            SimError::InvalidStep(m) => m@,
        }
    }

    /// Stable code that goes on the wire.
    pub fn code(&self) -> (res: &'static str)
        ensures
            res@ == self.spec_code(),
    {
        match self {
            SimError::PartialCoord(_) => "PARTIAL_COORD",
            SimError::VelocityForce(_) => "VELOCITY_FORCE",
            SimError::TeleportSafelyPartial(_) => "TELEPORT_SAFELY_PARTIAL",
            SimError::CreateNoPosRobot(_) => "CREATE_NOPOS_ROBOT",
            SimError::InvalidSpec(_) => "INVALID_SPEC",
            SimError::Unsupported(_) => "UNSUPPORTED",
            SimError::UnknownRobot(_) => "UNKNOWN_ROBOT",
            SimError::InvalidStep(_) => "INVALID_STEP",
        }
    }

    /// What it says to a reader.
    pub fn message(&self) -> (res: String)
        ensures
            res@ == self.spec_message(),
    {
        match self {
            SimError::PartialCoord(m) => m.clone(),
            SimError::VelocityForce(m) => m.clone(),
            SimError::TeleportSafelyPartial(m) => m.clone(),
            SimError::CreateNoPosRobot(m) => m.clone(),
            SimError::InvalidSpec(m) => m.clone(),
            SimError::Unsupported(m) => m.clone(),
            SimError::UnknownRobot(id) => id.show(),
            SimError::InvalidStep(m) => m.clone(),
        }
    }
}

/// The codes of different kinds of error differ: a client can tell the kinds
/// apart by the code alone.
pub proof fn law_codes_tell_kinds_apart(a: SimError, b: SimError)
    ensures
        a.spec_code() == b.spec_code() ==> {
            &&& (a is PartialCoord <==> b is PartialCoord)
            &&& (a is VelocityForce <==> b is VelocityForce)
            &&& (a is TeleportSafelyPartial <==> b is TeleportSafelyPartial)
            &&& (a is CreateNoPosRobot <==> b is CreateNoPosRobot)
            &&& (a is InvalidSpec <==> b is InvalidSpec)
            &&& (a is Unsupported <==> b is Unsupported)
            &&& (a is UnknownRobot <==> b is UnknownRobot)
            &&& (a is InvalidStep <==> b is InvalidStep)
        },
{
    reveal_strlit("PARTIAL_COORD");
    reveal_strlit("VELOCITY_FORCE");
    reveal_strlit("TELEPORT_SAFELY_PARTIAL");
    reveal_strlit("CREATE_NOPOS_ROBOT");
    reveal_strlit("INVALID_SPEC");
    reveal_strlit("UNSUPPORTED");
    reveal_strlit("UNKNOWN_ROBOT");
    reveal_strlit("INVALID_STEP");
    assert("UNKNOWN_ROBOT"@[1] != "VELOCITY_FORCE"@[1]);
    assert("INVALID_SPEC"@[9] == 'P' && "INVALID_STEP"@[9] == 'T');
    assert("PARTIAL_COORD"@[0] != "UNKNOWN_ROBOT"@[0]);
    if a.spec_code() == b.spec_code() {
        assert(a.spec_code().len() == b.spec_code().len());
        assert(a.spec_code()[0] == b.spec_code()[0]);
        assert(a.spec_code()[9] == b.spec_code()[9]);
    }
}

/// Each kind of error has its own code, and its message is the text that it was made
/// with, or the robot that is unknown.
pub proof fn law_errors_say_what_went_wrong(e: SimError)
    ensures
        e matches SimError::PartialCoord(m) ==> e.spec_code() == "PARTIAL_COORD"@ && e.spec_message() == m@,
        e matches SimError::VelocityForce(m) ==> e.spec_code() == "VELOCITY_FORCE"@ && e.spec_message() == m@,
        e matches SimError::TeleportSafelyPartial(m) ==> e.spec_code() == "TELEPORT_SAFELY_PARTIAL"@ && e.spec_message() == m@,
        e matches SimError::CreateNoPosRobot(m) ==> e.spec_code() == "CREATE_NOPOS_ROBOT"@ && e.spec_message() == m@,
        e matches SimError::InvalidSpec(m) ==> e.spec_code() == "INVALID_SPEC"@ && e.spec_message() == m@,
        e matches SimError::Unsupported(m) ==> e.spec_code() == "UNSUPPORTED"@ && e.spec_message() == m@,
        e matches SimError::UnknownRobot(id) ==> e.spec_code() == "UNKNOWN_ROBOT"@ && e.spec_message() == id.shown(),
        e matches SimError::InvalidStep(m) ==> e.spec_code() == "INVALID_STEP"@ && e.spec_message() == m@,
{
}

/// A robot is shown by the letter of its team and its number.
pub proof fn law_robots_are_shown_by_team_and_number(id: RobotId)
    ensures
        id.shown().len() > 0,
        id.shown()[0] == (if id.team is Blue {
            'B'
        } else {
            'Y'
        }),
        id.shown().skip(1) == text::decimal(id.number as nat),
{
    reveal_strlit("B");
    reveal_strlit("Y");
    assert(id.shown().skip(1) =~= text::decimal(id.number as nat));
}

} // verus!
