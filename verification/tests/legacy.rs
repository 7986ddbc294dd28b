//! Legacy commands: mapping, replacement units, status tracking.

use ssl_sim::double::Double;
use ssl_sim::net::legacy;
use ssl_sim::net::legacy::Event;
use ssl_sim::net::world::{
    KickerSpecs, MoveCommand, RobotId, RobotLimits, RobotSpecs, Team, Vec2, WheelAngles,
};

fn d(x: f64) -> Double {
    Double::from_bits(x.to_bits())
}

fn f(x: Double) -> f64 {
    f64::from_bits(x.to_bits())
}

fn base_command() -> legacy::GrSimRobotCommand {
    kick_command(0.0, 0.0)
}

/// A command with the given kick components.
fn kick_command(x: f32, z: f32) -> legacy::GrSimRobotCommand {
    let (x, z) = (x as f64, z as f64);
    legacy::GrSimRobotCommand {
        id: 3,
        kick_speed: d(x.hypot(z)),
        kick_angle_deg: d(z.atan2(x).to_degrees()),
        veltangent: d(0.0),
        velnormal: d(0.0),
        velangular: d(0.0),
        spinner: false,
        wheelsspeed: false,
        wheel1: d(0.0),
        wheel2: d(0.0),
        wheel3: d(0.0),
        wheel4: d(0.0),
    }
}

fn specs(rpm: f64) -> RobotSpecs {
    RobotSpecs {
        radius: d(0.09),
        height: d(0.15),
        mass: d(2.5),
        center_to_dribbler: d(0.073),
        shoot_radius: d(0.067),
        dribbler_width: d(0.07),
        dribbler_max_rpm: d(rpm),
        kicker: KickerSpecs { max_linear_speed: d(10.0), max_chip_speed: d(10.0) },
        limits: RobotLimits {
            acc_speedup_absolute_max: d(4.0),
            acc_speedup_angular_max: d(50.0),
            acc_brake_absolute_max: d(4.0),
            acc_brake_angular_max: d(50.0),
            vel_absolute_max: d(3.0),
            vel_angular_max: d(20.0),
        },
        wheel_angles: WheelAngles {
            front_right: d(-1.0),
            back_right: d(-2.35),
            back_left: d(2.35),
            front_left: d(1.0),
        },
    }
}

#[test]
fn velocities_map_tangent_forward_normal_left() {
    let cmd = legacy::GrSimRobotCommand {
        veltangent: d(1.5),
        velnormal: d(-0.25),
        velangular: d(2.0),
        ..base_command()
    };
    let core = legacy::robot_command_from_grsim(&cmd, None);
    assert_eq!(
        core.movement,
        Some(MoveCommand::LocalVelocity { forward: d(1.5), left: d(-0.25), angular: d(2.0) })
    );
    assert_eq!(core.kick_speed, None);
    assert_eq!(core.dribbler_rpm, None);
}

#[test]
fn wheel_speeds_convert_rad_per_second_to_metres_and_reverse_the_order() {
    // wheel1..4 are front_left, back_left, back_right, front_right; the protocol
    // order is front_right, back_right, back_left, front_left.
    let r = 0.02;
    let specs = specs(10000.0);
    let cmd = legacy::GrSimRobotCommand {
        wheelsspeed: true,
        wheel1: d(1.0 * r),
        wheel2: d(2.0 * r),
        wheel3: d(3.0 * r),
        wheel4: d(4.0 * r),
        ..base_command()
    };
    let core = legacy::robot_command_from_grsim(&cmd, Some(&specs));
    assert_eq!(
        core.movement,
        Some(MoveCommand::WheelVelocity {
            front_right: d(4.0 * r),
            back_right: d(3.0 * r),
            back_left: d(2.0 * r),
            front_left: d(1.0 * r),
        })
    );
}

#[test]
fn straight_kick_uses_the_hypotenuse_and_zero_angle() {
    let core = legacy::robot_command_from_grsim(&kick_command(6.0, 0.0), None);
    assert_eq!(core.kick_speed, Some(d(6.0)));
    assert!(f(core.kick_angle_deg).abs() < 1e-9);
}

#[test]
fn chip_kick_becomes_speed_and_elevation_in_degrees() {
    let magnitude = 4.0_f32;
    let cmd = kick_command(
        magnitude * 45_f32.to_radians().cos(),
        magnitude * 45_f32.to_radians().sin(),
    );
    let core = legacy::robot_command_from_grsim(&cmd, None);
    assert!((f(core.kick_speed.unwrap()) - 4.0).abs() < 1e-5);
    assert!((f(core.kick_angle_deg) - 45.0).abs() < 1e-4);
}

#[test]
fn no_kick_when_both_components_are_zero() {
    let core = legacy::robot_command_from_grsim(&base_command(), None);
    assert_eq!(core.kick_speed, None);
    assert_eq!(core.kick_angle_deg, d(0.0));
}

#[test]
fn spinner_maps_to_the_specs_full_dribbler_speed() {
    let cmd = legacy::GrSimRobotCommand { spinner: true, ..base_command() };
    assert_eq!(
        legacy::robot_command_from_grsim(&cmd, None).dribbler_rpm,
        Some(Double::from_bits(legacy::DEFAULT_DRIBBLER_RPM_BITS))
    );
    assert_eq!(f64::from_bits(legacy::DEFAULT_DRIBBLER_RPM_BITS), 10_000.0);
    assert_eq!(
        legacy::robot_command_from_grsim(&cmd, Some(&specs(12_500.0))).dribbler_rpm,
        Some(d(12_500.0))
    );
}

#[test]
fn team_comes_from_isteamyellow() {
    assert_eq!(legacy::team_of(&legacy::GrSimCommands { isteamyellow: true }), Team::Yellow);
    assert_eq!(legacy::team_of(&legacy::GrSimCommands { isteamyellow: false }), Team::Blue);
}

#[test]
fn ball_replacement_is_metres() {
    let req = legacy::teleport_ball_from_grsim(&legacy::GrSimBallReplacement {
        x: Some(d(1.25)),
        y: Some(d(-2.5)),
        vx: Some(d(3.0)),
        vy: Some(d(0.0)),
    });
    let pos = req.position.unwrap();
    assert!((f(pos.x) - 1.25).abs() < 1e-9);
    assert!((f(pos.y) + 2.5).abs() < 1e-9);
    let vel = req.velocity.unwrap();
    assert!((f(vel.x) - 3.0).abs() < 1e-9);
    assert!(!req.by_force);
}

#[test]
fn robot_replacement_is_metres_and_degrees() {
    let req = legacy::teleport_robot_from_grsim(&legacy::GrSimRobotReplacement {
        x: d(-1.0),
        y: d(2.0),
        dir: d(90_f64.to_radians()),
        id: 5,
        yellowteam: true,
        turnon: Some(false),
    });
    assert_eq!(req.id, RobotId::new(Team::Yellow, 5));
    assert_eq!(req.position, Some(Vec2 { x: d(-1.0), y: d(2.0) }));
    assert!((f(req.orientation.unwrap()) - std::f64::consts::FRAC_PI_2).abs() < 1e-12);
    assert_eq!(req.present, Some(false));

    // `turnon` unset means "leave it on the field".
    let req = legacy::teleport_robot_from_grsim(&legacy::GrSimRobotReplacement {
        x: d(0.0),
        y: d(0.0),
        dir: d(0.0),
        id: 0,
        yellowteam: false,
        turnon: None,
    });
    assert_eq!(req.present, Some(true));
}

#[test]
fn status_ports() {
    assert_eq!(legacy::status_port(Team::Blue), 30011);
    assert_eq!(legacy::status_port(Team::Yellow), 30012);
}

#[test]
fn status_is_only_sent_when_it_changes() {
    let mut tracker = legacy::StatusTracker::new();
    let b0 = RobotId::new(Team::Blue, 0);
    let b1 = RobotId::new(Team::Blue, 1);
    let y0 = RobotId::new(Team::Yellow, 0);
    let robots = [(b0, false), (b1, false), (y0, true)];

    // First call reports everything (nothing has been sent yet).
    let first = tracker.changed_status(Team::Blue, &robots).expect("initial status");
    assert_eq!(first.len(), 2);
    assert!(first.iter().all(|s| !s.infrared));

    // Nothing changed.
    assert!(tracker.changed_status(Team::Blue, &robots).is_none());

    // Break beam on robot 1 changes.
    let robots = [(b0, false), (b1, true), (y0, true)];
    let changed = tracker.changed_status(Team::Blue, &robots).unwrap();
    assert_eq!(changed.len(), 1);
    assert_eq!(changed[0].robot_id, 1);
    assert!(changed[0].infrared);

    // Yellow is tracked separately and still unreported.
    let yellow = tracker.changed_status(Team::Yellow, &robots).unwrap();
    assert_eq!(yellow.len(), 1);
    assert_eq!(yellow[0].robot_id, 0);
    assert!(yellow[0].infrared);
}

#[test]
fn kick_events_stay_visible_for_ten_vision_frames() {
    let mut tracker = legacy::StatusTracker::new();
    let b0 = RobotId::new(Team::Blue, 0);

    tracker.record_events(&[Event::Other, Event::Kick { robot: b0, angle_deg: d(0.0) }]);
    let status = tracker.status_of(b0, false);
    assert!(status.flat_kick && !status.chip_kick);

    for _ in 0..(legacy::KICK_STATUS_FRAMES - 1) {
        tracker.advance_frame();
    }
    assert!(tracker.status_of(b0, false).flat_kick, "still within the window");

    tracker.advance_frame();
    assert!(!tracker.status_of(b0, false).flat_kick, "expired after 10 frames");

    // A chip sets the other flag.
    tracker.record_events(&[Event::Kick { robot: b0, angle_deg: d(45.0) }]);
    let status = tracker.status_of(b0, true);
    assert!(status.chip_kick && !status.flat_kick && status.infrared);
}
