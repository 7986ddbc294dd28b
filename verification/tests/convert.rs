//! Conversions between the wire messages and the simulator's own values.

use ssl_sim::double::Double;
use ssl_sim::net::convert;
use ssl_sim::net::geometry::{
    camera_calibration_to_proto, cameras_from_geometry, field_from_geometry, CalibrationPosition,
    CameraCalibration, CircularArc, Extent, FieldGeometry, FieldShape, FieldSize, LineSegment,
};
use ssl_sim::net::packets::{
    snapshot_to_tracker, vision_output_to_packet, Capability, DetectedBall, DetectedRobot, DetectionFrame,
    RobotState, Source, TeamColor, WorldSnapshot, TRUTH_UUID,
};
use ssl_sim::net::sim;
use ssl_sim::net::world::{
    Delay, KickerSpecs, MoveCommand, Realism, RobotCommand, RobotId, RobotLimits, RobotSpecs,
    SimError, Team, Vec2, Vec3, WheelAngles,
};

const EPS: f64 = 1e-6;

fn d(x: f64) -> Double {
    Double::from_bits(x.to_bits())
}

fn f(x: Double) -> f64 {
    f64::from_bits(x.to_bits())
}

fn v2(x: f64, y: f64) -> Vec2 {
    Vec2 { x: d(x), y: d(y) }
}

fn v3(x: f64, y: f64, z: f64) -> Vec3 {
    Vec3 { x: d(x), y: d(y), z: d(z) }
}

fn specs() -> RobotSpecs {
    RobotSpecs {
        radius: d(0.09),
        height: d(0.15),
        mass: d(2.5),
        center_to_dribbler: d(0.073),
        shoot_radius: d(0.067),
        dribbler_width: d(0.07),
        dribbler_max_rpm: d(10000.0),
        kicker: KickerSpecs { max_linear_speed: d(10.0), max_chip_speed: d(10.0) },
        limits: RobotLimits {
            acc_speedup_absolute_max: d(4.0),
            acc_speedup_angular_max: d(50.0),
            acc_brake_absolute_max: d(4.5),
            acc_brake_angular_max: d(55.0),
            vel_absolute_max: d(3.0),
            vel_angular_max: d(20.0),
        },
        wheel_angles: WheelAngles {
            front_right: d(-1.0),
            back_right: d(-2.35),
            back_left: d(2.35),
            front_left: d(1.0),
        },
    }
}

fn realism_none() -> Realism {
    Realism {
        stddev_ball_p: d(0.0),
        stddev_robot_p: d(0.0),
        stddev_robot_phi: d(0.0),
        stddev_ball_area: d(0.0),
        enable_invisible_ball: false,
        ball_visibility_threshold: d(0.4),
        camera_overlap: d(1.0),
        dribbler_ball_detections: d(0.0),
        camera_position_error: d(0.0),
        robot_command_loss: d(0.0),
        robot_response_loss: d(0.0),
        missing_ball_detections: d(0.0),
        vision_delay: Delay::Seconds(d(0.0)),
        vision_processing_time: Delay::Seconds(d(0.0)),
        simulate_dribbling: true,
        object_position_offset: d(0.0),
        missing_robot_detections: d(0.0),
    }
}

fn empty_erforce() -> sim::RealismConfigErForce {
    sim::RealismConfigErForce {
        stddev_ball_p: None,
        stddev_robot_p: None,
        stddev_robot_phi: None,
        stddev_ball_area: None,
        enable_invisible_ball: None,
        ball_visibility_threshold: None,
        camera_overlap: None,
        dribbler_ball_detections: None,
        camera_position_error: None,
        robot_command_loss: None,
        robot_response_loss: None,
        missing_ball_detections: None,
        vision_delay: None,
        vision_processing_time: None,
        simulate_dribbling: None,
        object_position_offset: None,
        missing_robot_detections: None,
    }
}

fn empty_specs(id: RobotId) -> sim::RobotSpecs {
    sim::RobotSpecs {
        id: convert::robot_id_to_proto(id),
        radius: None,
        height: None,
        mass: None,
        max_linear_kick_speed: None,
        max_chip_kick_speed: None,
        center_to_dribbler: None,
        limits: None,
        wheel_angles: None,
        custom: Vec::new(),
    }
}

fn empty_ball() -> sim::TeleportBall {
    sim::TeleportBall {
        x: None,
        y: None,
        z: None,
        vx: None,
        vy: None,
        vz: None,
        teleport_safely: None,
        roll: None,
        by_force: None,
    }
}

fn empty_robot(id: sim::RobotId) -> sim::TeleportRobot {
    sim::TeleportRobot {
        id,
        x: None,
        y: None,
        orientation: None,
        v_x: None,
        v_y: None,
        v_angular: None,
        present: None,
        by_force: None,
    }
}

// -------------------------------------------------------- robot control

#[test]
fn local_velocity_command_maps_straight_through() {
    let proto = sim::RobotCommand {
        id: 3,
        move_command: Some(sim::RobotMoveCommand {
            command: Some(sim::Move::LocalVelocity {
                forward: d(1.25),
                left: d(-0.5),
                angular: d(2.0),
            }),
        }),
        kick_speed: Some(d(6.0)),
        kick_angle: Some(d(45.0)),
        dribbler_speed: Some(d(5000.0)),
    };
    let cmd = convert::robot_command_from_proto(&proto);
    assert_eq!(
        cmd.movement,
        Some(MoveCommand::LocalVelocity { forward: d(1.25), left: d(-0.5), angular: d(2.0) })
    );
    assert_eq!(cmd.kick_speed, Some(d(6.0)));
    assert!((f(cmd.kick_angle_deg) - 45.0).abs() < EPS);
    assert_eq!(cmd.dribbler_rpm, Some(d(5000.0)));
}

#[test]
fn wheel_velocity_keeps_protocol_order_and_units() {
    let proto = sim::RobotCommand {
        id: 0,
        move_command: Some(sim::RobotMoveCommand {
            command: Some(sim::Move::WheelVelocity {
                front_right: d(1.0),
                back_right: d(2.0),
                back_left: d(3.0),
                front_left: d(4.0),
            }),
        }),
        kick_speed: None,
        kick_angle: None,
        dribbler_speed: None,
    };
    let cmd = convert::robot_command_from_proto(&proto);
    assert_eq!(
        cmd.movement,
        Some(MoveCommand::WheelVelocity {
            front_right: d(1.0),
            back_right: d(2.0),
            back_left: d(3.0),
            front_left: d(4.0),
        })
    );
}

#[test]
fn zero_kick_and_dribbler_become_none() {
    let proto = sim::RobotCommand {
        id: 0,
        move_command: None,
        kick_speed: Some(d(0.0)),
        kick_angle: Some(d(0.0)),
        dribbler_speed: Some(d(0.0)),
    };
    let cmd = convert::robot_command_from_proto(&proto);
    assert_eq!(cmd.movement, None);
    assert_eq!(cmd.kick_speed, None);
    assert_eq!(cmd.dribbler_rpm, None);
}

#[test]
fn robot_command_round_trips_through_the_protocol() {
    let original = RobotCommand {
        movement: Some(MoveCommand::GlobalVelocity { x: d(1.0), y: d(-2.0), angular: d(0.5) }),
        kick_speed: Some(d(3.5)),
        kick_angle_deg: d(45.0),
        dribbler_rpm: Some(d(8000.0)),
    };
    let proto = convert::robot_command_to_proto(5, &original);
    assert_eq!(proto.id, 5);
    assert_eq!(convert::robot_command_from_proto(&proto), original);
}

#[test]
fn negative_and_undefined_speeds_are_no_request() {
    for speed in [-1.0, -0.0, f64::NAN] {
        let proto = sim::RobotCommand {
            id: 0,
            move_command: None,
            kick_speed: Some(d(speed)),
            kick_angle: None,
            dribbler_speed: Some(d(speed)),
        };
        let cmd = convert::robot_command_from_proto(&proto);
        assert_eq!(cmd.kick_speed, None);
        assert_eq!(cmd.dribbler_rpm, None);
        assert_eq!(f(cmd.kick_angle_deg), 0.0);
    }
}

#[test]
fn robot_ids_round_trip_and_reject_what_names_no_robot() {
    for team in [Team::Blue, Team::Yellow] {
        for number in [0u8, 7, 255] {
            let id = RobotId::new(team, number);
            assert_eq!(convert::robot_id_from_proto(&convert::robot_id_to_proto(id)), Ok(id));
        }
    }
    let unsupported = |text: &str| Err(SimError::Unsupported(text.to_string()));
    assert_eq!(
        convert::robot_id_from_proto(&sim::RobotId { id: Some(1), team: None }),
        unsupported("RobotId without a known team")
    );
    assert_eq!(
        convert::robot_id_from_proto(&sim::RobotId { id: Some(1), team: Some(0) }),
        unsupported("RobotId without a known team")
    );
    assert_eq!(
        convert::robot_id_from_proto(&sim::RobotId { id: None, team: Some(sim::TEAM_BLUE) }),
        unsupported("RobotId without an id")
    );
    assert_eq!(
        convert::robot_id_from_proto(&sim::RobotId { id: Some(256), team: Some(sim::TEAM_BLUE) }),
        unsupported("robot id 256 out of range")
    );
    assert_eq!(convert::team_from_proto(Some(convert::team_to_proto(Team::Blue))), Some(Team::Blue));
    assert_eq!(convert::team_from_proto(None), None);
}

// ---------------------------------------------------------- robot specs

#[test]
fn wheel_angles_are_negated_from_clockwise_to_ccw() {
    let proto = sim::RobotWheelAngles {
        front_right: d(60_f32.to_radians() as f64),
        back_right: d(135_f32.to_radians() as f64),
        back_left: d(225_f32.to_radians() as f64),
        front_left: d(300_f32.to_radians() as f64),
    };
    let angles = convert::wheel_angles_from_proto(&proto);
    assert!((f(angles.front_right) - (-60_f64).to_radians()).abs() < 1e-6);
    assert!((f(angles.back_right) - (-135_f64).to_radians()).abs() < 1e-6);
    assert!((f(angles.back_left) - (-225_f64).to_radians()).abs() < 1e-6);
    assert!((f(angles.front_left) - (-300_f64).to_radians()).abs() < 1e-6);
    // -225 deg and +135 deg name the same direction.
    let turn = 2.0 * std::f64::consts::PI;
    assert!((f(angles.back_left) + turn - 135_f64.to_radians()).abs() < 1e-6);
    assert!((f(angles.front_left) + turn - 60_f64.to_radians()).abs() < 1e-6);

    // And back out again.
    let back = convert::wheel_angles_to_proto(&angles);
    assert!((f(back.front_right) - f(proto.front_right)).abs() < 1e-6);
    assert!((f(back.front_left) - f(proto.front_left)).abs() < 1e-6);
    assert_eq!(back, proto);
}

#[test]
fn partial_specs_only_override_set_fields() {
    let current =
        RobotSpecs { mass: d(3.0), radius: d(0.085), shoot_radius: d(0.06), ..specs() };
    let mut proto = empty_specs(RobotId::new(Team::Blue, 2));
    proto.mass = Some(d(2.0));
    proto.max_linear_kick_speed = Some(d(8.0));
    proto.limits = Some(sim::RobotLimits {
        acc_speedup_absolute_max: None,
        acc_speedup_angular_max: None,
        acc_brake_absolute_max: None,
        acc_brake_angular_max: None,
        vel_absolute_max: Some(d(2.0)),
        vel_angular_max: None,
    });
    let merged = convert::merge_robot_specs(current, &proto);
    assert_eq!(merged.mass, d(2.0));
    assert_eq!(merged.radius, d(0.085), "unset radius keeps the current value");
    assert_eq!(merged.shoot_radius, d(0.06));
    assert_eq!(merged.kicker.max_linear_speed, d(8.0));
    assert_eq!(merged.kicker.max_chip_speed, current.kicker.max_chip_speed);
    assert_eq!(merged.limits.vel_absolute_max, d(2.0));
    assert_eq!(
        merged.limits.vel_angular_max, current.limits.vel_angular_max,
        "unset limit keeps the current value"
    );
}

#[test]
fn empty_specs_leave_the_current_ones_alone() {
    let current = specs();
    assert_eq!(
        convert::merge_robot_specs(current, &empty_specs(RobotId::new(Team::Yellow, 0))),
        current
    );
}

#[test]
fn erforce_custom_spec_is_unpacked() {
    let mut proto = empty_specs(RobotId::new(Team::Yellow, 4));
    let unknown = convert::pack_any("some.unknown.Message", vec![10, 4, 110, 111, 112, 101]);
    proto.custom.push(sim::Custom {
        type_url: unknown.type_url,
        content: Some(sim::RobotSpecErForce {
            shoot_radius: Some(d(1.0)),
            dribbler_width: Some(d(1.0)),
        }),
    });
    let known = convert::pack_any("RobotSpecErForce", Vec::new());
    proto.custom.push(sim::Custom {
        type_url: known.type_url,
        content: Some(sim::RobotSpecErForce {
            shoot_radius: Some(d(0.0655)),
            dribbler_width: Some(d(0.08)),
        }),
    });
    let merged = convert::merge_robot_specs(specs(), &proto);
    assert!((f(merged.shoot_radius) - 0.0655).abs() < 1e-6);
    assert!((f(merged.dribbler_width) - 0.08).abs() < 1e-6);
}

#[test]
fn packed_messages_are_found_by_name() {
    let any = convert::pack_any("RobotSpecErForce", vec![1, 2, 3]);
    assert_eq!(any.type_url, "type.googleapis.com/RobotSpecErForce");
    assert_eq!(any.value, vec![1, 2, 3]);
    assert!(convert::any_is(&any.type_url, "RobotSpecErForce"));
    assert!(convert::any_is("x/sslsim.RobotSpecErForce", "RobotSpecErForce"));
    assert!(!convert::any_is("x/OtherRobotSpecErForce", "RobotSpecErForce"));
}

#[test]
fn specs_survive_a_full_round_trip() {
    let specs = specs();
    let proto = convert::robot_specs_to_proto(RobotId::new(Team::Blue, 0), &specs);
    let other = RobotSpecs { radius: d(0.01), shoot_radius: d(0.01), ..specs };
    let merged = convert::merge_robot_specs(other, &proto);
    assert!((f(merged.radius) - f(specs.radius)).abs() < 1e-6);
    assert!((f(merged.shoot_radius) - f(specs.shoot_radius)).abs() < 1e-6);
    assert!((f(merged.dribbler_width) - f(specs.dribbler_width)).abs() < 1e-6);
    assert!((f(merged.wheel_angles.front_left) - f(specs.wheel_angles.front_left)).abs() < 1e-6);
    assert!((f(merged.wheel_angles.back_right) - f(specs.wheel_angles.back_right)).abs() < 1e-6);
}

// -------------------------------------------------------------- realism

#[test]
fn realism_custom_is_unpacked_with_ns_to_seconds() {
    let cfg = sim::RealismConfig {
        custom: vec![
            sim::Custom {
                type_url: convert::pack_any("totally.unrelated.Thing", Vec::new()).type_url,
                content: None,
            },
            sim::Custom {
                type_url: convert::pack_any("sslsim.RealismConfigErForce", Vec::new()).type_url,
                content: Some(sim::RealismConfigErForce {
                    stddev_ball_p: Some(d(0.002)),
                    vision_delay: Some(35_000_000),
                    vision_processing_time: Some(10_000_000),
                    simulate_dribbling: Some(false),
                    ..empty_erforce()
                }),
            },
        ],
    };
    let seconds = |delay: Delay| match delay {
        Delay::Seconds(s) => f(s),
        Delay::Nanoseconds(n) => n as f64 * 1e-9,
    };
    let (merged, ignored) = convert::merge_realism(realism_none(), &cfg);
    assert!((f(merged.stddev_ball_p) - 0.002).abs() < 1e-9);
    assert!((seconds(merged.vision_delay) - 0.035).abs() < 1e-9);
    assert!((seconds(merged.vision_processing_time) - 0.010).abs() < 1e-9);
    assert!(!merged.simulate_dribbling);
    // Untouched fields keep their value.
    assert_eq!(merged.camera_overlap, realism_none().camera_overlap);
    assert_eq!(ignored.len(), 1);
    assert!(ignored[0].ends_with("totally.unrelated.Thing"));
}

#[test]
fn realism_round_trips_through_the_erforce_message() {
    let realism = Realism {
        stddev_ball_p: d(0.0014),
        robot_command_loss: d(0.03),
        vision_delay: Delay::Nanoseconds(35_000_000),
        vision_processing_time: Delay::Nanoseconds(10_000_000),
        simulate_dribbling: true,
        ..realism_none()
    };
    let proto = convert::realism_to_erforce(&realism, 35_000_000, 10_000_000);
    let merged = convert::merge_realism_erforce(realism_none(), &proto);
    assert!((f(merged.stddev_ball_p) - f(realism.stddev_ball_p)).abs() < 1e-9);
    assert_eq!(merged.vision_delay, realism.vision_delay);
    assert!((f(merged.robot_command_loss) - f(realism.robot_command_loss)).abs() < 1e-7);
    assert_eq!(merged.simulate_dribbling, realism.simulate_dribbling);
    assert_eq!(merged, realism);
}

#[test]
fn the_last_realism_extension_wins() {
    let with = |value: f64| sim::Custom {
        type_url: convert::pack_any("RealismConfigErForce", Vec::new()).type_url,
        content: Some(sim::RealismConfigErForce {
            stddev_ball_p: Some(d(value)),
            ..empty_erforce()
        }),
    };
    let cfg = sim::RealismConfig { custom: vec![with(1.0), with(2.0)] };
    let (merged, ignored) = convert::merge_realism(realism_none(), &cfg);
    assert_eq!(merged.stddev_ball_p, d(2.0));
    assert!(ignored.is_empty());
}

#[test]
fn a_negative_delay_is_no_delay() {
    let merged = convert::merge_realism_erforce(
        Realism { vision_delay: Delay::Nanoseconds(5), ..realism_none() },
        &sim::RealismConfigErForce { vision_delay: Some(-1), ..empty_erforce() },
    );
    assert_eq!(merged.vision_delay, Delay::Nanoseconds(0));
}

// ------------------------------------------------------------ teleports

#[test]
fn teleport_ball_partial_coordinates_are_rejected() {
    let only_x = sim::TeleportBall { x: Some(d(1.0)), ..empty_ball() };
    let err = convert::teleport_ball_from_proto(&only_x).unwrap_err();
    assert_eq!(err.code(), "PARTIAL_COORD");

    let only_z = sim::TeleportBall { z: Some(d(0.5)), ..empty_ball() };
    assert_eq!(convert::teleport_ball_from_proto(&only_z).unwrap_err().code(), "PARTIAL_COORD");

    let safely = sim::TeleportBall { teleport_safely: Some(true), ..empty_ball() };
    assert_eq!(
        convert::teleport_ball_from_proto(&safely).unwrap_err().code(),
        "TELEPORT_SAFELY_PARTIAL"
    );

    let only_vy = sim::TeleportBall { vy: Some(d(0.5)), ..empty_ball() };
    assert_eq!(
        convert::teleport_ball_from_proto(&only_vy).unwrap_err().message(),
        "TeleportBall needs both vx and vy"
    );
    let only_vz = sim::TeleportBall { vz: Some(d(0.5)), ..empty_ball() };
    assert_eq!(
        convert::teleport_ball_from_proto(&only_vz).unwrap_err().message(),
        "TeleportBall vz without vx and vy"
    );
}

#[test]
fn teleport_ball_full_coordinates_convert() {
    let proto = sim::TeleportBall {
        x: Some(d(1.0)),
        y: Some(d(-2.0)),
        z: Some(d(0.25)),
        vx: Some(d(3.0)),
        vy: Some(d(4.0)),
        vz: Some(d(0.0)),
        teleport_safely: Some(true),
        roll: Some(true),
        by_force: Some(false),
    };
    let req = convert::teleport_ball_from_proto(&proto).unwrap();
    assert_eq!(req.position, Some(v3(1.0, -2.0, 0.25)));
    assert_eq!(req.velocity, Some(v3(3.0, 4.0, 0.0)));
    assert!(req.teleport_safely && req.roll && !req.by_force);
}

#[test]
fn teleport_robot_accepts_position_without_orientation() {
    // A position without an orientation keeps the robot's heading.
    let id = convert::robot_id_to_proto(RobotId::new(Team::Blue, 4));
    let proto = sim::TeleportRobot {
        x: Some(d(1.5)),
        y: Some(d(-0.5)),
        by_force: Some(true),
        ..empty_robot(id)
    };
    let req = convert::teleport_robot_from_proto(&proto).unwrap();
    assert_eq!(req.id, RobotId::new(Team::Blue, 4));
    assert_eq!(req.position, Some(v2(1.5, -0.5)));
    assert_eq!(req.orientation, None);
    assert!(req.by_force);

    let only_x = sim::TeleportRobot { x: Some(d(1.5)), ..empty_robot(id) };
    let err = convert::teleport_robot_from_proto(&only_x).unwrap_err();
    assert_eq!(err.code(), "PARTIAL_COORD");
    assert!(err.message().ends_with(" needs both x and y"));

    let only_vy = sim::TeleportRobot { v_y: Some(d(1.5)), ..empty_robot(id) };
    let err = convert::teleport_robot_from_proto(&only_vy).unwrap_err();
    assert!(err.message().ends_with(" needs both v_x and v_y"));
}

// ------------------------------------------------------------- geometry

fn division_a() -> FieldGeometry {
    FieldGeometry {
        length: d(12.0),
        width: d(9.0),
        goal_width: d(1.8),
        goal_depth: d(0.18),
        goal_height: d(0.155),
        boundary_width: d(0.3),
        penalty_area_depth: d(1.8),
        penalty_area_width: d(3.6),
        line_thickness: d(0.01),
        center_circle_radius: d(0.5),
    }
}

fn plain_size() -> FieldSize {
    FieldSize {
        field_length: d(9.0),
        field_width: d(6.0),
        goal_width: d(1.0),
        goal_depth: d(0.18),
        boundary_width: d(0.25),
        field_lines: Vec::new(),
        field_arcs: Vec::new(),
        penalty_area_depth: Some(d(1.0)),
        penalty_area_width: Some(d(2.0)),
    }
}

fn line(name: &str, thickness: f64, parallel: (f64, f64), inward: (f64, f64)) -> LineSegment {
    LineSegment {
        name: name.to_string(),
        thickness: d(thickness),
        parallel: Extent { depth: d(parallel.0), width: d(parallel.1) },
        inward: Extent { depth: d(inward.0), width: d(inward.1) },
    }
}

#[test]
fn geometry_sets_field_dimensions_and_penalty_area() {
    let merged = field_from_geometry(division_a(), &plain_size());
    assert!((f(merged.length) - 9.0).abs() < EPS);
    assert!((f(merged.width) - 6.0).abs() < EPS);
    assert!((f(merged.goal_width) - 1.0).abs() < EPS);
    assert!((f(merged.boundary_width) - 0.25).abs() < EPS);
    assert!((f(merged.penalty_area_depth) - 1.0).abs() < EPS);
    assert!((f(merged.penalty_area_width) - 2.0).abs() < EPS);
    // Not on the wire; unchanged.
    assert_eq!(merged.goal_height, division_a().goal_height);
}

#[test]
fn penalty_area_is_derived_from_the_stretch_lines_when_absent() {
    let mut size = plain_size();
    size.penalty_area_depth = None;
    size.penalty_area_width = None;
    size.field_lines.push(line("TopTouchLine", 0.02, (0.0, 0.0), (0.0, 0.0)));
    // The line in front of the goal, a penalty area deep into the field.
    size.field_lines.push(line("LeftPenaltyStretch", 0.02, (1.0, 2.0), (9.0, 9.0)));
    size.field_arcs.push(CircularArc { name: "CenterCircle".to_string(), radius: d(0.45) });
    let merged = field_from_geometry(division_a(), &size);
    assert!((f(merged.penalty_area_depth) - 1.0).abs() < 1e-3);
    assert!((f(merged.penalty_area_width) - 2.0).abs() < 1e-3);
    assert!((f(merged.center_circle_radius) - 0.45).abs() < 1e-6);
    assert!((f(merged.line_thickness) - 0.02).abs() < 1e-6);

    // Only one of the lines that run from the goal line into the field.
    size.field_lines.pop();
    size.field_lines.push(line("LeftFieldLeftPenaltyStretch", 0.02, (9.0, 9.0), (1.2, 2.4)));
    let merged = field_from_geometry(division_a(), &size);
    assert!((f(merged.penalty_area_depth) - 1.2).abs() < 1e-3);
    assert!((f(merged.penalty_area_width) - 2.4).abs() < 1e-3);

    // No line at all: the area stays.
    size.field_lines.clear();
    let merged = field_from_geometry(division_a(), &size);
    assert_eq!(merged.penalty_area_depth, division_a().penalty_area_depth);
    assert_eq!(merged.penalty_area_width, division_a().penalty_area_width);
}

#[test]
fn cameras_without_a_full_position_are_skipped() {
    let at = |camera_id: u32, z: Option<f64>| CalibrationPosition {
        camera_id,
        x: Some(d(1.0)),
        y: Some(d(2.0)),
        z: z.map(d),
    };
    let cameras = cameras_from_geometry(&vec![at(0, Some(4.0)), at(1, None), at(2, Some(5.0))]);
    assert_eq!(cameras.len(), 2);
    assert_eq!((cameras[0].id, cameras[1].id), (0, 2));
    assert_eq!(cameras[1].position, v3(1.0, 2.0, 5.0));
}

// --------------------------------------------------------------- vision

/// One camera's capture, in the units of the wire.
fn sample_frame(camera_id: u32) -> DetectionFrame {
    DetectionFrame {
        camera_id,
        frame_number: 7 + camera_id,
        t_capture: d(1.230),
        t_sent: d(1.240),
        balls: vec![DetectedBall {
            pos: v2(1500.0, -2250.0),
            z: Some(d(100.0)),
            area: Some(123),
            confidence: d(0.95),
        }],
        robots_blue: vec![DetectedRobot {
            number: 3,
            pos: v2(-1000.0, 500.0),
            orientation: d(0.75),
            height: d(150.0),
            confidence: d(1.0),
        }],
        robots_yellow: vec![DetectedRobot {
            number: 9,
            pos: v2(2000.0, 0.0),
            orientation: d(-1.5),
            height: d(150.0),
            confidence: d(1.0),
        }],
    }
}

#[test]
fn detections_are_converted_to_millimetres() {
    let packet = vision_output_to_packet::<u8>(&sample_frame(0), None);

    let detection = packet.detection.as_ref().unwrap();
    assert_eq!(detection.camera_id, 0);
    assert_eq!(detection.frame_number, 7);
    assert!((f(detection.t_capture) - 1.230).abs() < 1e-9);
    assert!((f(detection.t_sent) - 1.240).abs() < 1e-9);

    let ball = &detection.balls[0];
    assert!((f(ball.x) - 1500.0).abs() < 1e-3);
    assert!((f(ball.y) + 2250.0).abs() < 1e-3);
    assert!((f(ball.z.unwrap()) - 100.0).abs() < 1e-3);
    assert_eq!(ball.area, Some(123));
    assert!((f(ball.confidence) - 0.95).abs() < 1e-6);

    let blue = &detection.robots_blue[0];
    assert_eq!(blue.robot_id, Some(3));
    assert!((f(blue.x) + 1000.0).abs() < 1e-3);
    assert!((f(blue.y) - 500.0).abs() < 1e-3);
    assert!((f(blue.orientation.unwrap()) - 0.75).abs() < 1e-6);
    assert!((f(blue.height.unwrap()) - 150.0).abs() < 1e-3);

    let yellow = &detection.robots_yellow[0];
    assert_eq!(yellow.robot_id, Some(9));
    assert!((f(yellow.x) - 2000.0).abs() < 1e-3);

    // No geometry was requested, so the packet carries none.
    assert!(packet.geometry.is_none());
}

#[test]
fn one_packet_per_camera_capture_and_geometry_rides_along() {
    let packet = vision_output_to_packet::<u8>(&sample_frame(1), None);
    assert_eq!(packet.detection.as_ref().unwrap().camera_id, 1);
    assert!(packet.geometry.is_none());

    let packet = vision_output_to_packet(&sample_frame(0), Some(17u8));
    assert_eq!(packet.detection.as_ref().unwrap().camera_id, 0);
    assert_eq!(packet.geometry, Some(17));
    assert_eq!(packet.source, Some(Source::Other));
}

#[test]
fn ball_area_is_omitted_when_the_core_reports_none() {
    let mut frame = sample_frame(0);
    frame.balls[0].area = None;
    let packet = vision_output_to_packet::<u8>(&frame, None);
    let ball = &packet.detection.as_ref().unwrap().balls[0];
    assert_eq!(ball.area, None, "a rig without `area` sends no area field");
}

#[test]
fn every_line_name_has_its_shape() {
    for (name, shape) in [
        ("Undefined", FieldShape::Undefined),
        ("CenterCircle", FieldShape::CenterCircle),
        ("TopTouchLine", FieldShape::TopTouchLine),
        ("BottomTouchLine", FieldShape::BottomTouchLine),
        ("LeftGoalLine", FieldShape::LeftGoalLine),
        ("RightGoalLine", FieldShape::RightGoalLine),
        ("HalfwayLine", FieldShape::HalfwayLine),
        ("CenterLine", FieldShape::CenterLine),
        ("LeftPenaltyStretch", FieldShape::LeftPenaltyStretch),
        ("RightPenaltyStretch", FieldShape::RightPenaltyStretch),
        ("LeftFieldLeftPenaltyStretch", FieldShape::LeftFieldLeftPenaltyStretch),
        ("LeftFieldRightPenaltyStretch", FieldShape::LeftFieldRightPenaltyStretch),
        ("RightFieldLeftPenaltyStretch", FieldShape::RightFieldLeftPenaltyStretch),
        ("RightFieldRightPenaltyStretch", FieldShape::RightFieldRightPenaltyStretch),
    ] {
        assert_eq!(FieldShape::from_str_name(name), Some(shape));
    }
    assert_eq!(FieldShape::from_str_name("topTouchLine"), None);
}

#[test]
fn camera_calibration_extrinsics_are_self_consistent() {
    let calib = camera_calibration_to_proto(&CameraCalibration {
        camera_id: 0,
        position: v3(-3000.0, -2250.0, 4000.0),
        focal_length: d(390.0),
        principal_point: v2(300.0, 300.0),
        distortion: d(0.2),
        qw: d(0.0),
        qx: d(1.0),
        qy: d(0.0),
        qz: d(0.0),
    });
    assert_eq!(calib.derived_camera_world_tx, Some(d(-3000.0)));
    assert_eq!(calib.derived_camera_world_ty, Some(d(-2250.0)));
    assert_eq!(calib.derived_camera_world_tz, Some(d(4000.0)));
    // R = diag(1, -1, -1) for a downward-looking camera => t = -R C.
    assert!((f(calib.tx) - 3000.0).abs() < 1e-3);
    assert!((f(calib.ty) + 2250.0).abs() < 1e-3);
    assert!((f(calib.tz) - 4000.0).abs() < 1e-3);
    // (w, x, y, z) = (0, 1, 0, 0); the wire is q0..q3 = (x, y, z, w).
    assert!((f(calib.q0) - 1.0).abs() < 1e-6);
    assert!(f(calib.q1).abs() < 1e-6);
    assert!(f(calib.q2).abs() < 1e-6);
    assert!(f(calib.q3).abs() < 1e-6);
    assert!((f(calib.focal_length) - 390.0).abs() < 1e-6);
}

#[test]
fn snapshot_becomes_a_tracked_frame_in_metres() {
    let snapshot = WorldSnapshot {
        time: d(2.5),
        ball_pos: v3(1.0, -2.0, 0.35),
        ball_vel: v3(3.0, 0.0, 1.5),
        robots: vec![
            RobotState {
                id: RobotId::new(Team::Blue, 1),
                pos: v2(-1.0, 0.0),
                orientation: d(0.5),
                vel: v2(0.1, 0.2),
                angular_velocity: d(1.0),
            },
            RobotState {
                id: RobotId::new(Team::Yellow, 2),
                pos: v2(1.0, 0.0),
                orientation: d(-0.5),
                vel: v2(0.0, 0.0),
                angular_velocity: d(0.0),
            },
        ],
    };
    let packet = snapshot_to_tracker(&snapshot, 11);
    assert_eq!(packet.source_name.as_deref(), Some("ssl-sim-truth"));
    assert_eq!(packet.uuid, TRUTH_UUID);
    assert_eq!(packet.frame_number, 11);
    assert_eq!(packet.capabilities, vec![Capability::DetectFlyingBalls]);
    assert!((f(packet.timestamp) - 2.5).abs() < 1e-9);

    // Tracked frames are in metres; nothing is scaled.
    let ball = packet.balls[0];
    assert!((f(ball.pos.x) - 1.0).abs() < 1e-6);
    assert!((f(ball.pos.z) - 0.35).abs() < 1e-6);
    assert!((f(ball.vel.unwrap().z) - 1.5).abs() < 1e-6);
    assert_eq!(ball.visibility, Some(d(1.0)));

    assert_eq!(packet.robots.len(), 2);
    assert_eq!(packet.robots[0].id, 1);
    assert_eq!(packet.robots[0].team_color, TeamColor::Blue);
    assert!((f(packet.robots[0].pos.x) + 1.0).abs() < 1e-6);
    assert!((f(packet.robots[0].orientation) - 0.5).abs() < 1e-6);
    assert_eq!(packet.robots[0].visibility, Some(d(1.0)));
    assert_eq!(packet.robots[1].team_color, TeamColor::Yellow);
}

// --------------------------------------------------------------- errors

#[test]
fn core_errors_keep_their_stable_wire_code() {
    for (err, code) in [
        (SimError::PartialCoord("x".into()), "PARTIAL_COORD"),
        (SimError::VelocityForce("x".into()), "VELOCITY_FORCE"),
        (SimError::TeleportSafelyPartial("x".into()), "TELEPORT_SAFELY_PARTIAL"),
        (SimError::CreateNoPosRobot("x".into()), "CREATE_NOPOS_ROBOT"),
        (SimError::InvalidSpec("x".into()), "INVALID_SPEC"),
        (SimError::Unsupported("x".into()), "UNSUPPORTED"),
        (SimError::UnknownRobot(RobotId::new(Team::Blue, 1)), "UNKNOWN_ROBOT"),
        (SimError::InvalidStep("x".into()), "INVALID_STEP"),
    ] {
        let proto = convert::sim_error(&err);
        assert_eq!(proto.code.as_deref(), Some(err.code()));
        assert_eq!(err.code(), code);
        assert!(proto.message.is_some());
    }
    let plain = convert::error("CODE", "what happened");
    assert_eq!(plain.code.as_deref(), Some("CODE"));
    assert_eq!(plain.message.as_deref(), Some("what happened"));
}
