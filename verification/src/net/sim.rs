//! The messages of the SSL simulation protocol, as plain values.
//!
//! A floating-point field is held widened to a [`Double`]; fields that are
//! optional on the wire are options here.
use vstd::prelude::*;

use crate::double::Double;
use crate::net::geometry::{CalibrationPosition, FieldSize};

verus! {

/// Protocol value of the yellow team.
pub const TEAM_YELLOW: i32 = 1;

/// Protocol value of the blue team.
pub const TEAM_BLUE: i32 = 2;

/// `SimulatorError`.
#[derive(Clone, Debug, PartialEq, Eq)]
pub struct SimulatorError {
    /// Stable code.
    pub code: Option<String>,
    /// Text for a reader.
    pub message: Option<String>,
}

/// The characters of an optional string.
pub open spec fn text_of(s: Option<String>) -> Option<Seq<char>> {
    match s {
        Some(t) => Some(t@),
        None => None,
    }
}

impl View for SimulatorError {
    type V = (Option<Seq<char>>, Option<Seq<char>>);

    /// Code and message.
    open spec fn view(&self) -> (Option<Seq<char>>, Option<Seq<char>>) {
        (text_of(self.code), text_of(self.message))
    }
}

impl SimulatorError {
    /// A copy with the same code and message.
    pub fn copy(&self) -> (res: SimulatorError)
        ensures
            res@ == self@,
    {
        let code = match &self.code {
            Some(c) => Some(c.clone()),
            None => None,
        };
        let message = match &self.message {
            Some(m) => Some(m.clone()),
            None => None,
        };
        SimulatorError { code, message }
    }
}

/// Code and message of each error of a list.
pub open spec fn errors_view(errors: Seq<SimulatorError>) -> Seq<
    (Option<Seq<char>>, Option<Seq<char>>),
> {
    Seq::new(errors.len(), |i: int| errors[i]@)
}

/// A list with the same codes and messages in the same order.
pub fn copy_errors(errors: &Vec<SimulatorError>) -> (res: Vec<SimulatorError>)
    ensures
        errors_view(res@) == errors_view(errors@),
{
    let mut out: Vec<SimulatorError> = Vec::new();
    let mut i: usize = 0;
    while i < errors.len()
        invariant
            i <= errors.len(),
            out.len() == i,
            forall|j: int| 0 <= j < i ==> (#[trigger] out@[j])@ == errors@[j]@,
        decreases errors.len() - i,
    {
        out.push(errors[i].copy());
        i += 1;
    }
    assert(errors_view(out@) =~= errors_view(errors@));
    out
}

/// `RobotId`.
#[derive(Clone, Copy, Debug, PartialEq, Eq, Structural)]
pub struct RobotId {
    /// Number.
    pub id: Option<u32>,
    /// Team, as the protocol's enum value.
    pub team: Option<i32>,
}

/// `RobotMoveCommand`'s choice.
#[derive(Clone, Copy, Debug, PartialEq, Eq, Structural)]
pub enum Move {
    /// `MoveLocalVelocity`.
    LocalVelocity {
        /// Forward.
        forward: Double,
        /// To the left.
        left: Double,
        /// Counter-clockwise.
        angular: Double,
    },
    /// `MoveGlobalVelocity`.
    GlobalVelocity {
        /// Along the field.
        x: Double,
        /// Across the field.
        y: Double,
        /// Counter-clockwise.
        angular: Double,
    },
    /// `MoveWheelVelocity`.
    WheelVelocity {
        /// Front right wheel.
        front_right: Double,
        /// Back right wheel.
        back_right: Double,
        /// Back left wheel.
        back_left: Double,
        /// Front left wheel.
        front_left: Double,
    },
}

/// `RobotMoveCommand`.
#[derive(Clone, Copy, Debug, PartialEq, Eq, Structural)]
pub struct RobotMoveCommand {
    /// The movement, when one is set.
    pub command: Option<Move>,
}

/// `RobotCommand`.
#[derive(Clone, Copy, Debug, PartialEq, Eq, Structural)]
pub struct RobotCommand {
    /// Robot number within the team.
    pub id: u32,
    /// Movement.
    pub move_command: Option<RobotMoveCommand>,
    /// Kick speed.
    pub kick_speed: Option<Double>,
    /// Kick angle in degrees.
    pub kick_angle: Option<Double>,
    /// Dribbler speed in rpm.
    pub dribbler_speed: Option<Double>,
}

/// `RobotControl`.
#[derive(Clone, Debug, PartialEq, Eq)]
pub struct RobotControl {
    /// One command per robot.
    pub robot_commands: Vec<RobotCommand>,
}

/// `RobotFeedback`.
#[derive(Clone, Copy, Debug, PartialEq, Eq, Structural)]
pub struct RobotFeedback {
    /// Robot number.
    pub id: u32,
    /// Whether the ball touches the dribbler.
    pub dribbler_ball_contact: Option<bool>,
}

/// `RobotControlResponse`.
#[derive(Clone, Debug, PartialEq, Eq)]
pub struct RobotControlResponse {
    /// Errors.
    pub errors: Vec<SimulatorError>,
    /// Feedback of each commanded robot.
    pub feedback: Vec<RobotFeedback>,
}

/// `SimulatorResponse`.
#[derive(Clone, Debug, PartialEq, Eq)]
pub struct SimulatorResponse {
    /// Errors.
    pub errors: Vec<SimulatorError>,
}

/// `TeleportBall`.
#[derive(Clone, Copy, Debug, PartialEq, Eq, Structural)]
pub struct TeleportBall {
    /// Position along the field.
    pub x: Option<Double>,
    /// Position across the field.
    pub y: Option<Double>,
    /// Height.
    pub z: Option<Double>,
    /// Velocity along the field.
    pub vx: Option<Double>,
    /// Velocity across the field.
    pub vy: Option<Double>,
    /// Velocity upwards.
    pub vz: Option<Double>,
    /// Push robots out of the way.
    pub teleport_safely: Option<bool>,
    /// Start out rolling.
    pub roll: Option<bool>,
    /// Move it by a force.
    pub by_force: Option<bool>,
}

/// `TeleportRobot`.
#[derive(Clone, Copy, Debug, PartialEq, Eq, Structural)]
pub struct TeleportRobot {
    /// Which robot.
    pub id: RobotId,
    /// Position along the field.
    pub x: Option<Double>,
    /// Position across the field.
    pub y: Option<Double>,
    /// Orientation.
    pub orientation: Option<Double>,
    /// Velocity along the field.
    pub v_x: Option<Double>,
    /// Velocity across the field.
    pub v_y: Option<Double>,
    /// Angular velocity.
    pub v_angular: Option<Double>,
    /// Whether it is on the field.
    pub present: Option<bool>,
    /// Move it by a force.
    pub by_force: Option<bool>,
}

/// A packed message: its type URL and, where it could be read as the kind of
/// message that is looked for, its content.
#[derive(Clone, Debug, PartialEq, Eq)]
pub struct Custom<T> {
    /// Type URL.
    pub type_url: String,
    /// Content, when it decodes.
    pub content: Option<T>,
}

/// `RobotSpecErForce`.
#[derive(Clone, Copy, Debug, PartialEq, Eq, Structural)]
pub struct RobotSpecErForce {
    /// Radius within which a kick reaches the ball.
    pub shoot_radius: Option<Double>,
    /// Width of the dribbler.
    pub dribbler_width: Option<Double>,
}

/// `RobotLimits`.
#[derive(Clone, Copy, Debug, PartialEq, Eq, Structural)]
pub struct RobotLimits {
    /// Largest acceleration when speeding up.
    pub acc_speedup_absolute_max: Option<Double>,
    /// Largest angular acceleration when speeding up.
    pub acc_speedup_angular_max: Option<Double>,
    /// Largest deceleration.
    pub acc_brake_absolute_max: Option<Double>,
    /// Largest angular deceleration.
    pub acc_brake_angular_max: Option<Double>,
    /// Largest speed.
    pub vel_absolute_max: Option<Double>,
    /// Largest angular speed.
    pub vel_angular_max: Option<Double>,
}

/// `RobotWheelAngles`, clockwise from forward.
#[derive(Clone, Copy, Debug, PartialEq, Eq, Structural)]
pub struct RobotWheelAngles {
    /// Front right wheel.
    pub front_right: Double,
    /// Back right wheel.
    pub back_right: Double,
    /// Back left wheel.
    pub back_left: Double,
    /// Front left wheel.
    pub front_left: Double,
}

/// `RobotSpecs`.
#[derive(Clone, Debug, PartialEq, Eq)]
pub struct RobotSpecs {
    /// Which robot.
    pub id: RobotId,
    /// Hull radius.
    pub radius: Option<Double>,
    /// Height.
    pub height: Option<Double>,
    /// Mass in kg.
    pub mass: Option<Double>,
    /// Fastest straight kick.
    pub max_linear_kick_speed: Option<Double>,
    /// Fastest chip kick.
    pub max_chip_kick_speed: Option<Double>,
    /// Distance from the centre to the dribbler.
    pub center_to_dribbler: Option<Double>,
    /// Motion limits.
    pub limits: Option<RobotLimits>,
    /// Wheel mounting angles.
    pub wheel_angles: Option<RobotWheelAngles>,
    /// Extensions.
    pub custom: Vec<Custom<RobotSpecErForce>>,
}

/// `RealismConfigErForce`.
#[derive(Clone, Copy, Debug, PartialEq, Eq, Structural)]
pub struct RealismConfigErForce {
    /// Ball position noise.
    pub stddev_ball_p: Option<Double>,
    /// Robot position noise.
    pub stddev_robot_p: Option<Double>,
    /// Robot orientation noise.
    pub stddev_robot_phi: Option<Double>,
    /// Ball area noise.
    pub stddev_ball_area: Option<Double>,
    /// Whether robots can hide the ball.
    pub enable_invisible_ball: Option<bool>,
    /// Visible share of the ball below which it is not detected.
    pub ball_visibility_threshold: Option<Double>,
    /// Overlap of neighbouring cameras.
    pub camera_overlap: Option<Double>,
    /// Chance of a false ball at a dribbler.
    pub dribbler_ball_detections: Option<Double>,
    /// Error of the camera positions.
    pub camera_position_error: Option<Double>,
    /// Chance that a robot command is lost.
    pub robot_command_loss: Option<Double>,
    /// Chance that a robot response is lost.
    pub robot_response_loss: Option<Double>,
    /// Chance that a ball detection is missing.
    pub missing_ball_detections: Option<Double>,
    /// Delay from capture to arrival, in nanoseconds.
    pub vision_delay: Option<i64>,
    /// Part of the delay spent processing, in nanoseconds.
    pub vision_processing_time: Option<i64>,
    /// Whether dribbling is simulated.
    pub simulate_dribbling: Option<bool>,
    /// Offset of detections from the real position.
    pub object_position_offset: Option<Double>,
    /// Chance that a robot detection is missing.
    pub missing_robot_detections: Option<Double>,
}

/// `RealismConfig`.
#[derive(Clone, Debug, PartialEq, Eq)]
pub struct RealismConfig {
    /// Extensions.
    pub custom: Vec<Custom<RealismConfigErForce>>,
}

/// `SimulatorControl`.
#[derive(Clone, Debug, PartialEq, Eq)]
pub struct SimulatorControl {
    /// Ball to move.
    pub teleport_ball: Option<TeleportBall>,
    /// Robots to move.
    pub teleport_robot: Vec<TeleportRobot>,
    /// Real-time scaling.
    pub simulation_speed: Option<Double>,
}

/// `SSL_GeometryData`, as far as the simulator takes it in.
#[derive(Clone, Debug, PartialEq, Eq)]
pub struct GeometryData {
    /// The field.
    pub field: FieldSize,
    /// The cameras.
    pub calib: Vec<CalibrationPosition>,
}

/// `SimulatorConfig`.
#[derive(Clone, Debug, PartialEq, Eq)]
pub struct SimulatorConfig {
    /// New field and cameras.
    pub geometry: Option<GeometryData>,
    /// New robot specs.
    pub robot_specs: Vec<RobotSpecs>,
    /// New realism settings.
    pub realism_config: Option<RealismConfig>,
    /// New vision port.
    pub vision_port: Option<u32>,
}

/// `SimulatorCommand`.
#[derive(Clone, Debug, PartialEq, Eq)]
pub struct SimulatorCommand {
    /// What to do now.
    pub control: Option<SimulatorControl>,
    /// What to configure.
    pub config: Option<SimulatorConfig>,
}

/// Errors are viewed one by one, by code and message.
pub proof fn law_errors_one_by_one(errors: Seq<SimulatorError>, i: int)
    requires
        0 <= i < errors.len(),
    ensures
        errors_view(errors).len() == errors.len(),
        errors[i].code matches Some(c) ==> errors_view(errors)[i].0 == Some(c@),
        errors[i].code is None ==> errors_view(errors)[i].0 is None,
        errors[i].message matches Some(m) ==> errors_view(errors)[i].1 == Some(m@),
        errors[i].message is None ==> errors_view(errors)[i].1 is None,
{
}

} // verus!
