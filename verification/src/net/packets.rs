//! The published packets: detection frames, wrapper packets and ground truth.
//!
//! Unit conversion is done outside: detections arrive in millimetres; the ground
//! truth is metres throughout.
use vstd::prelude::*;

use crate::double::{Double, lemma_powers};
use crate::net::world::{RobotId, Team, Vec2, Vec3};

verus! {

/// `source_name` advertised on the ground-truth tracker stream.
pub const TRUTH_SOURCE_NAME: &'static str = "ssl-sim-truth";

/// Fixed UUID advertised on the ground-truth tracker stream. The protocol only
/// requires it to be stable for the lifetime of a source.
pub const TRUTH_UUID: &'static str = "8f1a4c2e-5b6d-4f70-9a83-1c2d3e4f5a6b";

/// Bit pattern of `1.0`.
pub const ONE_BITS: u64 = 0x3FF0_0000_0000_0000;

/// A detected ball.
#[derive(Clone, Copy, Debug, PartialEq, Eq, Structural)]
pub struct DetectedBall {
    /// Position.
    pub pos: Vec2,
    /// Height, where the camera reports one.
    pub z: Option<Double>,
    /// Area in pixels, where the camera reports one.
    pub area: Option<u32>,
    /// Confidence.
    pub confidence: Double,
}

/// A detected robot.
#[derive(Clone, Copy, Debug, PartialEq, Eq, Structural)]
pub struct DetectedRobot {
    /// Number.
    pub number: u8,
    /// Position.
    pub pos: Vec2,
    /// Orientation.
    pub orientation: Double,
    /// Height.
    pub height: Double,
    /// Confidence.
    pub confidence: Double,
}

/// One camera's capture.
#[derive(Clone, Debug, PartialEq, Eq)]
pub struct DetectionFrame {
    /// Camera.
    pub camera_id: u32,
    /// Frame number of that camera.
    pub frame_number: u32,
    /// Capture time.
    pub t_capture: Double,
    /// Send time.
    pub t_sent: Double,
    /// Balls.
    pub balls: Vec<DetectedBall>,
    /// Blue robots.
    pub robots_blue: Vec<DetectedRobot>,
    /// Yellow robots.
    pub robots_yellow: Vec<DetectedRobot>,
}

/// `SSL_DetectionBall`.
#[derive(Clone, Copy, Debug, PartialEq, Eq, Structural)]
pub struct BallMessage {
    /// Confidence.
    pub confidence: Double,
    /// Area in pixels.
    pub area: Option<u32>,
    /// Along the field.
    pub x: Double,
    /// Across the field.
    pub y: Double,
    /// Upwards.
    pub z: Option<Double>,
    /// Image position.
    pub pixel_x: Double,
    /// Image position.
    pub pixel_y: Double,
}

/// `SSL_DetectionRobot`.
#[derive(Clone, Copy, Debug, PartialEq, Eq, Structural)]
pub struct RobotMessage {
    /// Confidence.
    pub confidence: Double,
    /// Number.
    pub robot_id: Option<u32>,
    /// Along the field.
    pub x: Double,
    /// Across the field.
    pub y: Double,
    /// Orientation.
    pub orientation: Option<Double>,
    /// Image position.
    pub pixel_x: Double,
    /// Image position.
    pub pixel_y: Double,
    /// Height.
    pub height: Option<Double>,
}

/// `SSL_DetectionFrame`.
#[derive(Clone, Debug, PartialEq, Eq)]
pub struct FrameMessage {
    /// Frame number.
    pub frame_number: u32,
    /// Capture time.
    pub t_capture: Double,
    /// Send time.
    pub t_sent: Double,
    /// Camera.
    pub camera_id: u32,
    /// Balls.
    pub balls: Vec<BallMessage>,
    /// Yellow robots.
    pub robots_yellow: Vec<RobotMessage>,
    /// Blue robots.
    pub robots_blue: Vec<RobotMessage>,
}

/// The wire form of a detected ball; there is no image, so its position is 0.
pub open spec fn ball_message(b: DetectedBall) -> BallMessage {
    BallMessage {
        confidence: b.confidence,
        area: b.area,
        x: b.pos.x,
        y: b.pos.y,
        z: b.z,
        pixel_x: Double::zero(),
        pixel_y: Double::zero(),
    }
}

/// The wire form of a detected robot; there is no image, so its position is 0.
pub open spec fn robot_message(r: DetectedRobot) -> RobotMessage {
    RobotMessage {
        confidence: r.confidence,
        robot_id: Some(r.number as u32),
        x: r.pos.x,
        y: r.pos.y,
        orientation: Some(r.orientation),
        pixel_x: Double::zero(),
        pixel_y: Double::zero(),
        height: Some(r.height),
    }
}

/// Whether a message is the wire form of a frame.
pub open spec fn carries_frame(m: FrameMessage, f: DetectionFrame) -> bool {
    &&& m.frame_number == f.frame_number
    &&& m.t_capture == f.t_capture
    &&& m.t_sent == f.t_sent
    &&& m.camera_id == f.camera_id
    &&& m.balls@ == f.balls@.map_values(|b: DetectedBall| ball_message(b))
    &&& m.robots_yellow@ == f.robots_yellow@.map_values(|r: DetectedRobot| robot_message(r))
    &&& m.robots_blue@ == f.robots_blue@.map_values(|r: DetectedRobot| robot_message(r))
}

fn detection_ball_to_proto(b: &DetectedBall) -> (res: BallMessage)
    ensures
        res == ball_message(*b),
{
    BallMessage {
        confidence: b.confidence,
        area: b.area,
        x: b.pos.x,
        y: b.pos.y,
        z: b.z,
        pixel_x: Double::zero(),
        pixel_y: Double::zero(),
    }
}

fn detection_robot_to_proto(r: &DetectedRobot) -> (res: RobotMessage)
    ensures
        res == robot_message(*r),
{
    RobotMessage {
        confidence: r.confidence,
        robot_id: Some(r.number as u32),
        x: r.pos.x,
        y: r.pos.y,
        orientation: Some(r.orientation),
        pixel_x: Double::zero(),
        pixel_y: Double::zero(),
        height: Some(r.height),
    }
}

fn robots_to_proto(robots: &Vec<DetectedRobot>) -> (res: Vec<RobotMessage>)
    ensures
        res@ == robots@.map_values(|r: DetectedRobot| robot_message(r)),
{
    let mut out: Vec<RobotMessage> = Vec::new();
    let mut i: usize = 0;
    while i < robots.len()
        invariant
            i <= robots@.len(),
            out@.len() == i,
            forall|j: int| 0 <= j < i ==> out@[j] == robot_message(robots@[j]),
        decreases robots.len() - i,
    {
        out.push(detection_robot_to_proto(&robots[i]));
        i += 1;
    }
    assert(out@ =~= robots@.map_values(|r: DetectedRobot| robot_message(r)));
    out
}

/// A detection frame to the wire frame.
pub fn detection_frame_to_proto(f: &DetectionFrame) -> (res: FrameMessage)
    ensures
        carries_frame(res, *f),
        res.frame_number == f.frame_number,
        res.camera_id == f.camera_id,
        res.t_capture == f.t_capture,
        res.t_sent == f.t_sent,
        res.balls@.len() == f.balls@.len(),
        forall|i: int| 0 <= i < f.balls@.len() ==> {
            let a = #[trigger] res.balls@[i];
            let b = f.balls@[i];
            &&& a.x == b.pos.x
            &&& a.y == b.pos.y
            &&& a.z == b.z
            &&& a.area == b.area
            &&& a.confidence == b.confidence
            &&& a.pixel_x.bits == 0 && a.pixel_y.bits == 0
        },
        res.robots_blue@.len() == f.robots_blue@.len(),
        forall|i: int| 0 <= i < f.robots_blue@.len() ==> {
            let a = #[trigger] res.robots_blue@[i];
            let b = f.robots_blue@[i];
            &&& a.robot_id == Some(b.number as u32)
            &&& a.x == b.pos.x
            &&& a.y == b.pos.y
            &&& a.orientation == Some(b.orientation)
            &&& a.height == Some(b.height)
            &&& a.confidence == b.confidence
            &&& a.pixel_x.bits == 0 && a.pixel_y.bits == 0
        },
        res.robots_yellow@.len() == f.robots_yellow@.len(),
        forall|i: int| 0 <= i < f.robots_yellow@.len() ==> {
            let a = #[trigger] res.robots_yellow@[i];
            let b = f.robots_yellow@[i];
            &&& a.robot_id == Some(b.number as u32)
            &&& a.x == b.pos.x
            &&& a.y == b.pos.y
            &&& a.orientation == Some(b.orientation)
            &&& a.height == Some(b.height)
            &&& a.confidence == b.confidence
            &&& a.pixel_x.bits == 0 && a.pixel_y.bits == 0
        },
{
    let mut balls: Vec<BallMessage> = Vec::new();
    let mut i: usize = 0;
    while i < f.balls.len()
        invariant
            i <= f.balls@.len(),
            balls@.len() == i,
            forall|j: int| 0 <= j < i ==> balls@[j] == ball_message(f.balls@[j]),
        decreases f.balls.len() - i,
    {
        balls.push(detection_ball_to_proto(&f.balls[i]));
        i += 1;
    }
    assert(balls@ =~= f.balls@.map_values(|b: DetectedBall| ball_message(b)));
    FrameMessage {
        frame_number: f.frame_number,
        t_capture: f.t_capture,
        t_sent: f.t_sent,
        camera_id: f.camera_id,
        balls,
        robots_yellow: robots_to_proto(&f.robots_yellow),
        robots_blue: robots_to_proto(&f.robots_blue),
    }
}

/// `SSL_Source`: what kind of program a packet comes from.
#[derive(Clone, Copy, Debug, PartialEq, Eq, Structural)]
pub enum Source {
    /// None of the known kinds.
    Other,
}

/// `SSL_WrapperPacket` with a geometry of type `G`.
#[derive(Clone, Debug, PartialEq, Eq)]
pub struct WrapperPacket<G> {
    /// The capture.
    pub detection: Option<FrameMessage>,
    /// The geometry, when it rides along.
    pub geometry: Option<G>,
    /// Where the packet comes from.
    pub source: Option<Source>,
}

/// One wrapper packet per camera capture; the geometry, when the capture has one
/// attached, rides on it.
pub fn vision_output_to_packet<G>(frame: &DetectionFrame, geometry: Option<G>) -> (res:
    WrapperPacket<G>)
    ensures
        res.detection matches Some(d) && carries_frame(d, *frame),
        res.geometry == geometry,
        res.source == Some(Source::Other),
{
    WrapperPacket {
        detection: Some(detection_frame_to_proto(frame)),
        geometry,
        source: Some(Source::Other),
    }
}

// ---------------------------------------------------------------- ground truth

/// A robot of a world snapshot.
#[derive(Clone, Copy, Debug, PartialEq, Eq, Structural)]
pub struct RobotState {
    /// Which robot.
    pub id: RobotId,
    /// Position.
    pub pos: Vec2,
    /// Orientation.
    pub orientation: Double,
    /// Velocity.
    pub vel: Vec2,
    /// Angular velocity.
    pub angular_velocity: Double,
}

/// The state of the world at one moment.
#[derive(Clone, Debug, PartialEq, Eq)]
pub struct WorldSnapshot {
    /// Time in seconds.
    pub time: Double,
    /// Ball position.
    pub ball_pos: Vec3,
    /// Ball velocity.
    pub ball_vel: Vec3,
    /// Robots.
    pub robots: Vec<RobotState>,
}

/// `TeamColor` of the tracked protocol.
#[derive(Clone, Copy, Debug, PartialEq, Eq, Structural)]
pub enum TeamColor {
    /// Yellow.
    Yellow,
    /// Blue.
    Blue,
}

/// `TrackedBall`.
#[derive(Clone, Copy, Debug, PartialEq, Eq, Structural)]
pub struct TrackedBall {
    /// Position.
    pub pos: Vec3,
    /// Velocity.
    pub vel: Option<Vec3>,
    /// How sure the tracker is.
    pub visibility: Option<Double>,
}

/// `TrackedRobot`.
#[derive(Clone, Copy, Debug, PartialEq, Eq, Structural)]
pub struct TrackedRobot {
    /// Number.
    pub id: u32,
    /// Team.
    pub team_color: TeamColor,
    /// Position.
    pub pos: Vec2,
    /// Orientation.
    pub orientation: Double,
    /// Velocity.
    pub vel: Option<Vec2>,
    /// Angular velocity.
    pub vel_angular: Option<Double>,
    /// How sure the tracker is.
    pub visibility: Option<Double>,
}

/// `Capability` of the tracked protocol: what a source can do.
#[derive(Clone, Copy, Debug, PartialEq, Eq, Structural)]
pub enum Capability {
    /// It knows the height of the ball.
    DetectFlyingBalls,
}

/// `TrackerWrapperPacket` with its frame.
#[derive(Clone, Debug, PartialEq, Eq)]
pub struct TrackerPacket {
    /// Identity of the source.
    pub uuid: String,
    /// Name of the source.
    pub source_name: Option<String>,
    /// Frame number.
    pub frame_number: u32,
    /// Time of the frame.
    pub timestamp: Double,
    /// Balls.
    pub balls: Vec<TrackedBall>,
    /// Robots.
    pub robots: Vec<TrackedRobot>,
    /// What the source can do.
    pub capabilities: Vec<Capability>,
}

/// The tracked form of a robot; ground truth is always fully visible.
pub open spec fn tracked_robot(r: RobotState) -> TrackedRobot {
    TrackedRobot {
        id: r.id.number as u32,
        team_color: match r.id.team {
            Team::Blue => TeamColor::Blue,
            Team::Yellow => TeamColor::Yellow,
        },
        pos: r.pos,
        orientation: r.orientation,
        vel: Some(r.vel),
        vel_angular: Some(r.angular_velocity),
        visibility: Some(Double { bits: ONE_BITS }),
    }
}

/// A world snapshot to a tracker packet with one ball and every robot. The
/// tracked protocol is metres and m/s throughout, so nothing is scaled.
pub fn snapshot_to_tracker(snap: &WorldSnapshot, frame_number: u32) -> (res: TrackerPacket)
    ensures
        res.uuid@ == TRUTH_UUID@,
        res.source_name matches Some(n) && n@ == TRUTH_SOURCE_NAME@,
        res.frame_number == frame_number,
        res.timestamp == snap.time,
        res.balls@ == seq![
            TrackedBall {
                pos: snap.ball_pos,
                vel: Some(snap.ball_vel),
                visibility: Some(Double { bits: ONE_BITS }),
            },
        ],
        res.robots@ == snap.robots@.map_values(|r: RobotState| tracked_robot(r)),
        res.capabilities@ == seq![Capability::DetectFlyingBalls],
        res.balls@.len() == 1,
        res.balls@[0].pos.x == snap.ball_pos.x,
        res.balls@[0].pos.y == snap.ball_pos.y,
        res.balls@[0].pos.z == snap.ball_pos.z,
        res.balls@[0].vel matches Some(v) && v.x == snap.ball_vel.x && v.y == snap.ball_vel.y && v.z
            == snap.ball_vel.z,
        res.robots@.len() == snap.robots@.len(),
        forall|i: int| 0 <= i < snap.robots@.len() ==> {
            let a = #[trigger] res.robots@[i];
            let b = snap.robots@[i];
            &&& a.id == b.id.number
            &&& a.team_color is Blue <==> b.id.team is Blue
            &&& a.pos.x == b.pos.x
            &&& a.pos.y == b.pos.y
            &&& a.orientation == b.orientation
            &&& a.vel matches Some(v) && v.x == b.vel.x && v.y == b.vel.y
            &&& a.vel_angular == Some(b.angular_velocity)
            &&& a.visibility == Some(Double { bits: 0x3FF0_0000_0000_0000 })
        },
{
    let mut balls: Vec<TrackedBall> = Vec::new();
    balls.push(
        TrackedBall {
            pos: snap.ball_pos,
            vel: Some(snap.ball_vel),
            visibility: Some(Double::from_bits(ONE_BITS)),
        },
    );
    let mut robots: Vec<TrackedRobot> = Vec::new();
    let mut i: usize = 0;
    while i < snap.robots.len()
        invariant
            i <= snap.robots@.len(),
            robots@.len() == i,
            forall|j: int| 0 <= j < i ==> robots@[j] == tracked_robot(snap.robots@[j]),
        decreases snap.robots.len() - i,
    {
        let r = snap.robots[i];
        robots.push(
            TrackedRobot {
                id: r.id.number as u32,
                team_color: match r.id.team {
                    Team::Blue => TeamColor::Blue,
                    Team::Yellow => TeamColor::Yellow,
                },
                pos: r.pos,
                orientation: r.orientation,
                vel: Some(r.vel),
                vel_angular: Some(r.angular_velocity),
                visibility: Some(Double::from_bits(ONE_BITS)),
            },
        );
        i += 1;
    }
    assert(robots@ =~= snap.robots@.map_values(|r: RobotState| tracked_robot(r)));
    let mut capabilities: Vec<Capability> = Vec::new();
    capabilities.push(Capability::DetectFlyingBalls);
    TrackerPacket {
        uuid: TRUTH_UUID.to_owned(),
        source_name: Some(TRUTH_SOURCE_NAME.to_owned()),
        frame_number,
        timestamp: snap.time,
        balls,
        robots,
        capabilities,
    }
}

/// A message that carries a frame says of each ball and each robot where its camera
/// saw it, in the order of the frame, and keeps the teams apart.
pub proof fn law_frames_go_out_as_seen(m: FrameMessage, f: DetectionFrame)
    requires
        carries_frame(m, f),
    ensures
        m.frame_number == f.frame_number,
        m.camera_id == f.camera_id,
        m.t_capture == f.t_capture,
        m.t_sent == f.t_sent,
        m.balls@.len() == f.balls@.len(),
        forall|i: int| 0 <= i < f.balls@.len() ==> {
            let a = #[trigger] m.balls@[i];
            let b = f.balls@[i];
            &&& a.x == b.pos.x
            &&& a.y == b.pos.y
            &&& a.z == b.z
            &&& a.area == b.area
            &&& a.confidence == b.confidence
            &&& a.pixel_x.bits == 0 && a.pixel_y.bits == 0
        },
        m.robots_blue@.len() == f.robots_blue@.len(),
        forall|i: int| 0 <= i < f.robots_blue@.len() ==> {
            let a = #[trigger] m.robots_blue@[i];
            let b = f.robots_blue@[i];
            &&& a.robot_id == Some(b.number as u32)
            &&& a.x == b.pos.x
            &&& a.y == b.pos.y
            &&& a.orientation == Some(b.orientation)
            &&& a.height == Some(b.height)
            &&& a.confidence == b.confidence
            &&& a.pixel_x.bits == 0 && a.pixel_y.bits == 0
        },
        m.robots_yellow@.len() == f.robots_yellow@.len(),
        forall|i: int| 0 <= i < f.robots_yellow@.len() ==> {
            let a = #[trigger] m.robots_yellow@[i];
            let b = f.robots_yellow@[i];
            &&& a.robot_id == Some(b.number as u32)
            &&& a.x == b.pos.x
            &&& a.y == b.pos.y
            &&& a.orientation == Some(b.orientation)
            &&& a.height == Some(b.height)
            &&& a.confidence == b.confidence
            &&& a.pixel_x.bits == 0 && a.pixel_y.bits == 0
        },
{
}

/// The ground truth of a robot is its state: number, team, position, heading and
/// velocities as they are, and nothing about it is uncertain.
pub proof fn law_truth_is_the_state(r: RobotState)
    ensures
        ({
            let t = tracked_robot(r);
            &&& t.id == r.id.number
            &&& t.team_color is Blue <==> r.id.team is Blue
            &&& t.pos.x == r.pos.x
            &&& t.pos.y == r.pos.y
            &&& t.orientation == r.orientation
            &&& t.vel matches Some(v) && v.x == r.vel.x && v.y == r.vel.y
            &&& t.vel_angular matches Some(w) && w == r.angular_velocity
            &&& t.visibility matches Some(v) && v.bits == 0x3FF0_0000_0000_0000
        }),
{
}

/// The ground truth of two robots tells them apart by number or team, as their ids
/// do.
pub proof fn law_truth_tells_robots_apart(a: RobotState, b: RobotState)
    ensures
        a.id == b.id <==> tracked_robot(a).id == tracked_robot(b).id && tracked_robot(a).team_color
            == tracked_robot(b).team_color,
{
}

/// Full visibility is 1.
pub proof fn law_one_in_decimals()
    ensures
        (Double { bits: ONE_BITS }).reads(1, 1),
        !(Double { bits: ONE_BITS }).negative(),
{
    lemma_powers();
}

/// The ground truth goes by its own name and identity.
pub proof fn law_truth_is_named()
    ensures
        TRUTH_SOURCE_NAME@ == "ssl-sim-truth"@,
        TRUTH_UUID@ == "8f1a4c2e-5b6d-4f70-9a83-1c2d3e4f5a6b"@,
{
}

} // verus!
