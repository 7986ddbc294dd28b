//! Commands to the simulator, against a small world that keeps what it is told.

use std::collections::BTreeMap;

use ssl_sim::double::Double;
use ssl_sim::net::control::{
    apply_control, apply_simulator_command, apply_vision_port, control_requests, realism_request,
    rig_request, start_spec, step_spec, ControlOutcome, Phase, SpecReply, SpecState,
};
use ssl_sim::net::convert;
use ssl_sim::net::geometry::{
    field_from_geometry, CalibrationPosition, CameraConfig, FieldGeometry, FieldSize,
};
use ssl_sim::net::robot_control::{
    apply_robot_control, command_requests, lost_command, Applied, RobotControlOutcome,
};
use ssl_sim::net::sim;
use ssl_sim::net::sync::{
    check_step, handle_sync_request, invalid_step, plan_sync, settle_step, StepCheck, SyncOutcome,
    SyncPhase, SyncSource,
};
use ssl_sim::net::world::{
    Delay, KickerSpecs, Realism, RobotCommand, RobotId, RobotLimits, RobotSpecs, SimError, Team,
    TeleportBall, TeleportRobot, Vec3, WheelAngles,
};

fn d(x: f64) -> Double {
    Double::from_bits(x.to_bits())
}

fn f(x: Double) -> f64 {
    f64::from_bits(x.to_bits())
}

const ZERO: Vec3 = Vec3 {
    x: Double { bits: 0 },
    y: Double { bits: 0 },
    z: Double { bits: 0 },
};

fn default_specs() -> RobotSpecs {
    RobotSpecs {
        radius: d(0.09),
        height: d(0.15),
        mass: d(2.5),
        center_to_dribbler: d(0.073),
        shoot_radius: d(0.067),
        dribbler_width: d(0.07),
        dribbler_max_rpm: d(10000.0),
        kicker: KickerSpecs { max_linear_speed: d(10.0), max_chip_speed: d(10.0) },
        limits: RobotLimits {
            acc_speedup_absolute_max: d(4.0),
            acc_speedup_angular_max: d(50.0),
            acc_brake_absolute_max: d(4.0),
            acc_brake_angular_max: d(50.0),
            vel_absolute_max: d(3.0),
            vel_angular_max: d(20.0),
        },
        wheel_angles: WheelAngles {
            front_right: d(-1.0),
            back_right: d(-2.35),
            back_left: d(2.35),
            front_left: d(1.0),
        },
    }
}

fn no_command() -> RobotCommand {
    RobotCommand { movement: None, kick_speed: None, kick_angle_deg: d(0.0), dribbler_rpm: None }
}

#[derive(Clone)]
struct Robot {
    specs: RobotSpecs,
    command: RobotCommand,
}

struct World {
    ball_pos: Vec3,
    ball_vel: Vec3,
    robots: BTreeMap<RobotId, Robot>,
    defaults: BTreeMap<Team, RobotSpecs>,
    field: FieldGeometry,
    realism: Realism,
    cameras: Vec<CameraConfig>,
}

fn world() -> World {
    let mut robots = BTreeMap::new();
    let mut defaults = BTreeMap::new();
    for team in [Team::Blue, Team::Yellow] {
        defaults.insert(team, default_specs());
        for number in 0..6 {
            let robot = Robot { specs: default_specs(), command: no_command() };
            robots.insert(RobotId::new(team, number), robot);
        }
    }
    World {
        ball_pos: ZERO,
        ball_vel: ZERO,
        robots,
        defaults,
        field: FieldGeometry {
            length: d(12.0),
            width: d(9.0),
            goal_width: d(1.8),
            goal_depth: d(0.18),
            goal_height: d(0.155),
            boundary_width: d(0.3),
            penalty_area_depth: d(1.8),
            penalty_area_width: d(3.6),
            line_thickness: d(0.01),
            center_circle_radius: d(0.5),
        },
        realism: Realism {
            stddev_ball_p: d(0.0),
            stddev_robot_p: d(0.0),
            stddev_robot_phi: d(0.0),
            stddev_ball_area: d(0.0),
            enable_invisible_ball: false,
            ball_visibility_threshold: d(0.4),
            camera_overlap: d(1.0),
            dribbler_ball_detections: d(0.0),
            camera_position_error: d(0.0),
            robot_command_loss: d(0.0),
            robot_response_loss: d(0.0),
            missing_ball_detections: d(0.0),
            vision_delay: Delay::Seconds(d(0.0)),
            vision_processing_time: Delay::Seconds(d(0.0)),
            simulate_dribbling: true,
            object_position_offset: d(0.0),
            missing_robot_detections: d(0.0),
        },
        cameras: Vec::new(),
    }
}

impl World {
    fn teleport_ball(&mut self, t: &TeleportBall) -> Option<SimError> {
        if let Some(p) = t.position {
            self.ball_pos = p;
        }
        if let Some(v) = t.velocity {
            self.ball_vel = v;
        }
        None
    }

    fn teleport_robot(&mut self, t: &TeleportRobot) -> Option<SimError> {
        if t.present == Some(false) {
            self.robots.remove(&t.id);
        } else if t.position.is_some() {
            let specs = self.defaults[&t.id.team];
            self.robots.entry(t.id).or_insert(Robot { specs, command: no_command() });
        }
        None
    }

    fn check(specs: &RobotSpecs) -> Option<SimError> {
        if f(specs.center_to_dribbler) > f(specs.radius) {
            Some(SimError::InvalidSpec("dribbler outside the hull".to_string()))
        } else {
            None
        }
    }

    fn apply_spec(&mut self, spec: &sim::RobotSpecs, out: &mut ControlOutcome) {
        let mut state = start_spec(spec, out);
        loop {
            let reply = match state {
                SpecState::ReadRobot(id) => SpecReply::Robot(self.robots.get(&id).map(|r| r.specs)),
                SpecState::SetRobot(id, specs) => {
                    let refused = World::check(&specs);
                    if refused.is_none() {
                        self.robots.get_mut(&id).unwrap().specs = specs;
                    }
                    SpecReply::Outcome(refused)
                },
                SpecState::ReadDefault(id) => SpecReply::Default(self.defaults[&id.team]),
                SpecState::SetDefault(id, specs) => {
                    let refused = World::check(&specs);
                    if refused.is_none() {
                        self.defaults.insert(id.team, specs);
                    }
                    SpecReply::Outcome(refused)
                },
                SpecState::Done => return,
            };
            state = step_spec(spec, state, &reply, out);
        }
    }

    fn apply(&mut self, cmd: &sim::SimulatorCommand) -> ControlOutcome {
        let mut out = ControlOutcome::new();
        for phase in apply_simulator_command(cmd) {
            match phase {
                Phase::Control => {
                    let control = cmd.control.as_ref().unwrap();
                    let requests = control_requests(control);
                    let ball = match &requests.ball {
                        Some(t) => self.teleport_ball(t),
                        None => None,
                    };
                    let robots =
                        requests.robots.iter().map(|t| self.teleport_robot(t)).collect();
                    let shown = match control.simulation_speed {
                        Some(s) => format!("{}", f(s)),
                        None => String::new(),
                    };
                    apply_control(control, &shown, ball, &robots, &mut out);
                },
                Phase::Geometry => {
                    let g = cmd.config.as_ref().unwrap().geometry.as_ref().unwrap();
                    self.field = field_from_geometry(self.field, &g.field);
                    if let Some(cameras) = rig_request(&g.calib) {
                        self.cameras = cameras;
                    }
                },
                Phase::Specs(i) => {
                    let spec = cmd.config.as_ref().unwrap().robot_specs[i].clone();
                    self.apply_spec(&spec, &mut out);
                },
                Phase::Realism => {
                    let cfg = cmd.config.as_ref().unwrap().realism_config.as_ref().unwrap();
                    self.realism = realism_request(self.realism, cfg, &mut out);
                },
                Phase::VisionPort => {
                    apply_vision_port(cmd.config.as_ref().unwrap().vision_port, &mut out);
                },
            }
        }
        out
    }

    fn control_robots(&mut self, team: Team, control: &sim::RobotControl) -> RobotControlOutcome {
        if f(self.realism.robot_command_loss) >= 1.0 {
            return lost_command();
        }
        let mut applied = Vec::new();
        for (id, command) in command_requests(team, control) {
            match self.robots.get_mut(&id) {
                Some(r) => {
                    r.command = command;
                    applied.push(Applied::Accepted { ball_contact: Some(false) });
                },
                None => applied.push(Applied::Refused(SimError::UnknownRobot(id))),
            }
        }
        let lost = f(self.realism.robot_response_loss) >= 1.0;
        apply_robot_control(control, &applied, lost)
    }

    fn sync(
        &mut self,
        source: SyncSource,
        step: Option<f64>,
        command: Option<sim::SimulatorCommand>,
        control: Option<sim::RobotControl>,
    ) -> SyncOutcome<u8> {
        let mut outcome = None;
        let mut answer = None;
        let mut step_error = None;
        for phase in plan_sync(source, command.is_some(), control.is_some()) {
            match phase {
                SyncPhase::Command => outcome = Some(self.apply(command.as_ref().unwrap())),
                SyncPhase::RobotControl(team) => {
                    let done = self.control_robots(team, control.as_ref().unwrap());
                    answer = Some(done.response.unwrap_or(sim::RobotControlResponse {
                        errors: Vec::new(),
                        feedback: Vec::new(),
                    }));
                },
                SyncPhase::Step => match check_step(step.map(d)) {
                    StepCheck::Poll => {},
                    StepCheck::Invalid => {
                        step_error = Some(invalid_step(&format!("{}", step.unwrap())));
                    },
                    StepCheck::Snap => {
                        let wanted = step.unwrap() * 1e9;
                        let substep: u64 = 1_000_000;
                        let snapped = (wanted / substep as f64).round() as u64 * substep;
                        let away = (snapped as f64 - wanted).abs();
                        let shown = format!("{}", step.unwrap());
                        step_error =
                            settle_step(snapped, substep, d(away), d(1e3), &shown).err();
                    },
                },
                SyncPhase::Collect => {},
            }
        }
        handle_sync_request(source, outcome, control.is_some(), answer, step_error, Vec::new())
    }
}

fn control_command(control: sim::SimulatorControl) -> sim::SimulatorCommand {
    sim::SimulatorCommand { control: Some(control), config: None }
}

fn no_control() -> sim::SimulatorControl {
    sim::SimulatorControl { teleport_ball: None, teleport_robot: Vec::new(), simulation_speed: None }
}

fn config_command(config: sim::SimulatorConfig) -> sim::SimulatorCommand {
    sim::SimulatorCommand { control: None, config: Some(config) }
}

fn no_config() -> sim::SimulatorConfig {
    sim::SimulatorConfig {
        geometry: None,
        robot_specs: Vec::new(),
        realism_config: None,
        vision_port: None,
    }
}

fn ball_at(x: Option<f64>, y: Option<f64>) -> sim::TeleportBall {
    sim::TeleportBall {
        x: x.map(d),
        y: y.map(d),
        z: None,
        vx: None,
        vy: None,
        vz: None,
        teleport_safely: None,
        roll: None,
        by_force: None,
    }
}

fn robot_request(id: RobotId) -> sim::TeleportRobot {
    sim::TeleportRobot {
        id: convert::robot_id_to_proto(id),
        x: None,
        y: None,
        orientation: None,
        v_x: None,
        v_y: None,
        v_angular: None,
        present: None,
        by_force: None,
    }
}

fn spec_request(id: RobotId) -> sim::RobotSpecs {
    sim::RobotSpecs {
        id: convert::robot_id_to_proto(id),
        radius: None,
        height: None,
        mass: None,
        max_linear_kick_speed: None,
        max_chip_kick_speed: None,
        center_to_dribbler: None,
        limits: None,
        wheel_angles: None,
        custom: Vec::new(),
    }
}

fn erforce(delay: Option<i64>) -> sim::RealismConfigErForce {
    sim::RealismConfigErForce {
        stddev_ball_p: None,
        stddev_robot_p: None,
        stddev_robot_phi: None,
        stddev_ball_area: None,
        enable_invisible_ball: None,
        ball_visibility_threshold: None,
        camera_overlap: None,
        dribbler_ball_detections: None,
        camera_position_error: None,
        robot_command_loss: None,
        robot_response_loss: None,
        missing_ball_detections: None,
        vision_delay: delay,
        vision_processing_time: None,
        simulate_dribbling: None,
        object_position_offset: None,
        missing_robot_detections: None,
    }
}

fn kick(id: u32, speed: Option<f64>) -> sim::RobotCommand {
    sim::RobotCommand {
        id,
        move_command: None,
        kick_speed: speed.map(d),
        kick_angle: None,
        dribbler_speed: None,
    }
}

fn code(e: &sim::SimulatorError) -> &str {
    e.code.as_deref().unwrap()
}

fn message(e: &sim::SimulatorError) -> &str {
    e.message.as_deref().unwrap()
}

// -------------------------------------------------------------- control

#[test]
fn teleport_ball_moves_the_ball() {
    let mut world = world();
    let cmd = control_command(sim::SimulatorControl {
        teleport_ball: Some(sim::TeleportBall {
            z: Some(d(0.3)),
            vx: Some(d(2.0)),
            vy: Some(d(0.0)),
            vz: Some(d(0.0)),
            ..ball_at(Some(1.5), Some(-2.0))
        }),
        ..no_control()
    });
    let outcome = world.apply(&cmd);
    assert!(outcome.errors.is_empty(), "{:?}", outcome.errors);
    assert!((f(world.ball_pos.x) - 1.5).abs() < 1e-9);
    assert!((f(world.ball_pos.y) + 2.0).abs() < 1e-9);
    assert!((f(world.ball_pos.z) - 0.3).abs() < 1e-6);
    assert!((f(world.ball_vel.x) - 2.0).abs() < 1e-9);
}

#[test]
fn partial_teleport_reports_partial_coord() {
    let mut world = world();
    let cmd = control_command(sim::SimulatorControl {
        teleport_ball: Some(ball_at(Some(1.0), None)),
        ..no_control()
    });
    let outcome = world.apply(&cmd);
    assert_eq!(outcome.errors.len(), 1);
    assert_eq!(outcome.errors[0].code.as_deref(), Some("PARTIAL_COORD"));
    assert_eq!(world.ball_pos, ZERO);
}

#[test]
fn teleport_robot_can_add_and_remove() {
    let mut world = world();
    let id = RobotId::new(Team::Yellow, 9);
    assert!(!world.robots.contains_key(&id));

    let add = control_command(sim::SimulatorControl {
        teleport_robot: vec![sim::TeleportRobot {
            x: Some(d(2.0)),
            y: Some(d(1.0)),
            orientation: Some(d(0.0)),
            present: Some(true),
            ..robot_request(id)
        }],
        ..no_control()
    });
    let outcome = world.apply(&add);
    assert!(outcome.errors.is_empty(), "{:?}", outcome.errors);
    assert!(world.robots.contains_key(&id));

    let remove = control_command(sim::SimulatorControl {
        teleport_robot: vec![sim::TeleportRobot { present: Some(false), ..robot_request(id) }],
        ..no_control()
    });
    world.apply(&remove);
    assert!(!world.robots.contains_key(&id));
}

#[test]
fn refused_teleports_are_reported_in_order() {
    let unreadable = sim::TeleportRobot {
        id: sim::RobotId { id: None, team: None },
        ..robot_request(RobotId::new(Team::Blue, 0))
    };
    let control = sim::SimulatorControl {
        teleport_ball: Some(ball_at(Some(1.0), Some(1.0))),
        teleport_robot: vec![
            robot_request(RobotId::new(Team::Blue, 1)),
            unreadable,
            robot_request(RobotId::new(Team::Blue, 2)),
        ],
        simulation_speed: Some(d(-1.0)),
    };
    let requests = control_requests(&control);
    assert!(requests.ball.is_some());
    assert_eq!(requests.robots.len(), 2);
    let mut out = ControlOutcome::new();
    apply_control(
        &control,
        "-1",
        Some(SimError::VelocityForce("ball".to_string())),
        &vec![
            Some(SimError::CreateNoPosRobot("first".to_string())),
            Some(SimError::UnknownRobot(RobotId::new(Team::Blue, 2))),
        ],
        &mut out,
    );
    let codes: Vec<&str> = out.errors.iter().map(code).collect();
    assert_eq!(
        codes,
        vec![
            "UNSUPPORTED",
            "VELOCITY_FORCE",
            "CREATE_NOPOS_ROBOT",
            "UNSUPPORTED",
            "UNKNOWN_ROBOT"
        ]
    );
    assert_eq!(message(&out.errors[0]), "simulation_speed -1 is not a valid scaling");
    assert_eq!(out.simulation_speed, None);
}

#[test]
fn simulation_speed_and_vision_port_leave_the_world_alone() {
    let mut world = world();
    let cmd = sim::SimulatorCommand {
        control: Some(sim::SimulatorControl { simulation_speed: Some(d(0.0)), ..no_control() }),
        config: Some(sim::SimulatorConfig { vision_port: Some(10021), ..no_config() }),
    };
    let outcome = world.apply(&cmd);
    assert!(outcome.errors.is_empty(), "{:?}", outcome.errors);
    assert_eq!(outcome.simulation_speed, Some(d(0.0)));
    assert_eq!(outcome.vision_port, Some(10021));
}

#[test]
fn speeds_and_ports_out_of_range_are_refused() {
    for speed in [-0.5, f64::NAN, f64::INFINITY] {
        let mut world = world();
        let outcome = world.apply(&control_command(sim::SimulatorControl {
            simulation_speed: Some(d(speed)),
            ..no_control()
        }));
        assert_eq!(outcome.errors.len(), 1);
        assert_eq!(code(&outcome.errors[0]), "UNSUPPORTED");
        assert_eq!(outcome.simulation_speed, None);
    }
    let mut out = ControlOutcome::new();
    apply_vision_port(Some(65536), &mut out);
    assert_eq!(out.vision_port, None);
    assert_eq!(message(&out.errors[0]), "vision_port 65536 out of range");
    apply_vision_port(Some(65535), &mut out);
    assert_eq!(out.vision_port, Some(65535));
    assert_eq!(out.response().errors.len(), 1);
}

#[test]
fn parts_are_applied_control_first() {
    let cmd = sim::SimulatorCommand {
        control: Some(no_control()),
        config: Some(sim::SimulatorConfig {
            geometry: None,
            robot_specs: vec![
                spec_request(RobotId::new(Team::Blue, 0)),
                spec_request(RobotId::new(Team::Blue, 1)),
            ],
            realism_config: Some(sim::RealismConfig { custom: Vec::new() }),
            vision_port: Some(1),
        }),
    };
    assert_eq!(
        apply_simulator_command(&cmd),
        vec![Phase::Control, Phase::Specs(0), Phase::Specs(1), Phase::Realism, Phase::VisionPort]
    );
}

#[test]
fn merged_outcomes_keep_every_error_and_the_later_values() {
    let mut a = ControlOutcome {
        errors: vec![convert::error("A", "a")],
        simulation_speed: Some(d(1.0)),
        vision_port: Some(1),
    };
    let b = ControlOutcome {
        errors: vec![convert::error("B", "b")],
        simulation_speed: Some(d(2.0)),
        vision_port: None,
    };
    a.merge(b);
    assert_eq!(a.errors.iter().map(code).collect::<Vec<&str>>(), vec!["A", "B"]);
    assert_eq!(a.simulation_speed, Some(d(2.0)));
    assert_eq!(a.vision_port, Some(1));
}

#[test]
fn geometry_config_resizes_the_field() {
    let mut world = world();
    let cmd = config_command(sim::SimulatorConfig {
        geometry: Some(sim::GeometryData {
            field: FieldSize {
                field_length: d(9.0),
                field_width: d(6.0),
                goal_width: d(1.0),
                goal_depth: d(0.18),
                boundary_width: d(0.3),
                field_lines: Vec::new(),
                field_arcs: Vec::new(),
                penalty_area_depth: Some(d(1.0)),
                penalty_area_width: Some(d(2.0)),
            },
            calib: vec![CalibrationPosition {
                camera_id: 3,
                x: Some(d(1.0)),
                y: Some(d(2.0)),
                z: Some(d(4.0)),
            }],
        }),
        ..no_config()
    });
    let ball_before = world.ball_pos;
    let robots_before = world.robots.len();
    let outcome = world.apply(&cmd);
    assert!(outcome.errors.is_empty(), "{:?}", outcome.errors);
    assert!((f(world.field.length) - 9.0).abs() < 1e-9);
    assert!((f(world.field.goal_width) - 1.0).abs() < 1e-9);
    assert_eq!(world.cameras.len(), 1);
    assert_eq!(world.cameras[0].id, 3);
    // The world state itself is untouched.
    assert_eq!(world.ball_pos, ball_before);
    assert_eq!(world.robots.len(), robots_before);
    // No calibration at all keeps the rig.
    assert_eq!(rig_request(&Vec::new()), None);
}

#[test]
fn robot_specs_apply_to_the_robot_and_to_the_team_default() {
    let mut world = world();
    let id = RobotId::new(Team::Blue, 2);
    let cmd = config_command(sim::SimulatorConfig {
        robot_specs: vec![sim::RobotSpecs {
            mass: Some(d(3.25)),
            custom: vec![sim::Custom {
                type_url: convert::pack_any("RobotSpecErForce", Vec::new()).type_url,
                content: Some(sim::RobotSpecErForce {
                    shoot_radius: Some(d(0.0655)),
                    dribbler_width: Some(d(0.075)),
                }),
            }],
            ..spec_request(id)
        }],
        ..no_config()
    });
    let outcome = world.apply(&cmd);
    assert!(outcome.errors.is_empty(), "{:?}", outcome.errors);

    let specs = world.robots[&id].specs;
    assert!((f(specs.mass) - 3.25).abs() < 1e-6);
    assert!((f(specs.shoot_radius) - 0.0655).abs() < 1e-6);
    assert!((f(specs.dribbler_width) - 0.075).abs() < 1e-6);

    assert!((f(world.defaults[&Team::Blue].mass) - 3.25).abs() < 1e-6);
    // The other team is untouched.
    assert!((f(world.defaults[&Team::Yellow].mass) - 2.5).abs() < 1e-6);

    // A spec for a robot that does not exist only moves the default.
    let missing = RobotId::new(Team::Yellow, 15);
    let cmd = config_command(sim::SimulatorConfig {
        robot_specs: vec![sim::RobotSpecs { mass: Some(d(4.0)), ..spec_request(missing) }],
        ..no_config()
    });
    world.apply(&cmd);
    assert!(!world.robots.contains_key(&missing));
    assert!((f(world.defaults[&Team::Yellow].mass) - 4.0).abs() < 1e-6);
}

#[test]
fn invalid_specs_are_rejected_with_invalid_spec() {
    let mut world = world();
    let cmd = config_command(sim::SimulatorConfig {
        robot_specs: vec![sim::RobotSpecs {
            // A dribbler further out than the hull is nonsense.
            center_to_dribbler: Some(d(1.0)),
            ..spec_request(RobotId::new(Team::Blue, 1))
        }],
        ..no_config()
    });
    let outcome = world.apply(&cmd);
    assert!(outcome.errors.iter().any(|e| e.code.as_deref() == Some("INVALID_SPEC")));
    // Refused for the robot, so the default is not tried.
    assert_eq!(outcome.errors.len(), 1);
    assert_eq!(world.defaults[&Team::Blue], default_specs());
}

#[test]
fn specs_for_no_robot_are_refused_at_once() {
    let mut out = ControlOutcome::new();
    let mut spec = spec_request(RobotId::new(Team::Blue, 1));
    spec.id = sim::RobotId { id: Some(1), team: None };
    assert_eq!(start_spec(&spec, &mut out), SpecState::Done);
    assert_eq!(code(&out.errors[0]), "UNSUPPORTED");
}

#[test]
fn realism_config_reaches_the_world() {
    let mut world = world();
    let cmd = config_command(sim::SimulatorConfig {
        realism_config: Some(sim::RealismConfig {
            custom: vec![sim::Custom {
                type_url: convert::pack_any("RealismConfigErForce", Vec::new()).type_url,
                content: Some(sim::RealismConfigErForce {
                    stddev_ball_p: Some(d(0.005)),
                    simulate_dribbling: Some(false),
                    ..erforce(Some(20_000_000))
                }),
            }],
        }),
        ..no_config()
    });
    let outcome = world.apply(&cmd);
    assert!(outcome.errors.is_empty(), "{:?}", outcome.errors);
    assert!((f(world.realism.stddev_ball_p) - 0.005).abs() < 1e-9);
    assert_eq!(world.realism.vision_delay, Delay::Nanoseconds(20_000_000));
    assert!(!world.realism.simulate_dribbling);
}

#[test]
fn unknown_realism_custom_types_are_reported_but_not_fatal() {
    let mut world = world();
    let cmd = config_command(sim::SimulatorConfig {
        realism_config: Some(sim::RealismConfig {
            custom: vec![sim::Custom {
                type_url: convert::pack_any("some.other.SimulatorRealism", Vec::new()).type_url,
                content: None,
            }],
        }),
        ..no_config()
    });
    let outcome = world.apply(&cmd);
    assert_eq!(outcome.errors.len(), 1);
    assert_eq!(outcome.errors[0].code.as_deref(), Some("UNSUPPORTED"));
    assert_eq!(
        message(&outcome.errors[0]),
        "unknown realism custom message type.googleapis.com/some.other.SimulatorRealism"
    );
}

// -------------------------------------------------------- robot control

#[test]
fn robot_control_stores_commands_and_answers_with_feedback() {
    let mut world = world();
    let control = sim::RobotControl {
        robot_commands: vec![
            sim::RobotCommand {
                id: 0,
                move_command: Some(sim::RobotMoveCommand {
                    command: Some(sim::Move::LocalVelocity {
                        forward: d(1.0),
                        left: d(0.0),
                        angular: d(0.0),
                    }),
                }),
                kick_speed: Some(d(6.0)),
                kick_angle: Some(d(45.0)),
                dribbler_speed: Some(d(9000.0)),
            },
            kick(1, None),
        ],
    };
    let outcome = world.control_robots(Team::Blue, &control);
    assert!(!outcome.command_lost);
    let response = outcome.response.expect("response");
    assert!(response.errors.is_empty(), "{:?}", response.errors);
    assert_eq!(response.feedback.len(), 2);
    assert_eq!(response.feedback[0].id, 0);
    assert_eq!(response.feedback[0].dribbler_ball_contact, Some(false));

    let stored = world.robots[&RobotId::new(Team::Blue, 0)].command;
    assert_eq!(stored.kick_speed, Some(d(6.0)));
    assert!((f(stored.kick_angle_deg) - 45.0).abs() < 1e-6);
    assert_eq!(stored.dribbler_rpm, Some(d(9000.0)));
    // The command went to the blue robot, not the yellow one with the same number.
    assert_eq!(world.robots[&RobotId::new(Team::Yellow, 0)].command.kick_speed, None);
}

#[test]
fn unknown_robot_ids_error_but_the_rest_is_applied() {
    let mut world = world();
    let control = sim::RobotControl { robot_commands: vec![kick(15, None), kick(3, Some(2.0))] };
    let response = world.control_robots(Team::Yellow, &control).response.expect("response");
    assert_eq!(response.errors.len(), 1);
    assert_eq!(response.errors[0].code.as_deref(), Some("UNKNOWN_ROBOT"));
    assert_eq!(response.feedback.len(), 1);
    assert_eq!(response.feedback[0].id, 3);
    assert_eq!(
        world.robots[&RobotId::new(Team::Yellow, 3)].command.kick_speed,
        Some(d(2.0))
    );
}

#[test]
fn ids_that_no_robot_can_have_are_answered_too() {
    let mut world = world();
    let control =
        sim::RobotControl { robot_commands: vec![kick(300, None), kick(3, Some(2.0)), kick(256, None)] };
    assert_eq!(command_requests(Team::Blue, &control).len(), 1);
    let response = world.control_robots(Team::Blue, &control).response.expect("response");
    assert_eq!(
        response.errors.iter().map(message).collect::<Vec<&str>>(),
        vec!["robot id 300 out of range", "robot id 256 out of range"]
    );
    assert_eq!(response.feedback.len(), 1);
}

#[test]
fn full_command_loss_drops_the_datagram_and_the_response() {
    let mut world = world();
    world.realism.robot_command_loss = d(1.0);
    let control = sim::RobotControl { robot_commands: vec![kick(0, Some(5.0))] };
    let outcome = world.control_robots(Team::Blue, &control);
    assert!(outcome.command_lost);
    assert!(outcome.response.is_none());
    assert_eq!(
        world.robots[&RobotId::new(Team::Blue, 0)].command.kick_speed,
        None,
        "a lost datagram must not reach the world"
    );
}

#[test]
fn full_response_loss_applies_the_command_but_stays_silent() {
    let mut world = world();
    world.realism.robot_response_loss = d(1.0);
    let control = sim::RobotControl { robot_commands: vec![kick(0, Some(5.0))] };
    let outcome = world.control_robots(Team::Blue, &control);
    assert!(!outcome.command_lost);
    assert!(outcome.response.is_none());
    assert_eq!(world.robots[&RobotId::new(Team::Blue, 0)].command.kick_speed, Some(d(5.0)));
}

// ----------------------------------------------------------------- sync

#[test]
fn sync_on_the_control_port_rejects_robot_control() {
    let mut world = world();
    let control = sim::RobotControl { robot_commands: vec![kick(0, None)] };
    let outcome = world.sync(SyncSource::Control, Some(0.0), None, Some(control));
    let response = outcome.response.robot_control_response.expect("errors");
    assert!(response.errors.iter().any(|e| e.code.as_deref() == Some("UNSUPPORTED")));
    assert_eq!(world.robots[&RobotId::new(Team::Blue, 0)].command.kick_speed, None);
}

#[test]
fn sync_on_a_team_port_applies_the_robot_control() {
    let mut world = world();
    let command = control_command(sim::SimulatorControl {
        teleport_ball: Some(ball_at(Some(0.5), Some(0.25))),
        teleport_robot: Vec::new(),
        simulation_speed: Some(d(2.0)),
    });
    let control = sim::RobotControl { robot_commands: vec![kick(1, Some(4.0))] };
    let outcome =
        world.sync(SyncSource::Team(Team::Yellow), Some(0.0), Some(command), Some(control));
    let response = outcome.response.robot_control_response.expect("response");
    assert!(response.errors.is_empty(), "{:?}", response.errors);
    assert_eq!(response.feedback.len(), 1);
    assert_eq!(outcome.control.simulation_speed, Some(d(2.0)));
    assert!((f(world.ball_pos.x) - 0.5).abs() < 1e-9);
    assert_eq!(
        world.robots[&RobotId::new(Team::Yellow, 1)].command.kick_speed,
        Some(d(4.0))
    );
}

#[test]
fn a_non_multiple_sim_step_is_an_invalid_step() {
    let mut world = world();
    // The substep is 1 ms; 0.0005 s is not a whole number of substeps.
    let outcome = world.sync(SyncSource::Control, Some(0.0005), None, None);
    let response = outcome.response.robot_control_response.expect("errors");
    assert!(response.errors.iter().any(|e| e.code.as_deref() == Some("INVALID_STEP")));
    for bad in [-1.0, f64::NAN, f64::INFINITY] {
        let outcome = world.sync(SyncSource::Control, Some(bad), None, None);
        let response = outcome.response.robot_control_response.expect("errors");
        assert_eq!(code(&response.errors[0]), "INVALID_STEP");
    }
    // A whole number of substeps is fine, and so is no step.
    assert!(world.sync(SyncSource::Control, Some(0.016), None, None)
        .response.robot_control_response.is_none());
    assert!(world.sync(SyncSource::Control, None, None, None)
        .response.robot_control_response.is_none());
    assert_eq!(settle_step(16, 1, d(0.0), d(1.0), "0.016"), Ok(16));
}

#[test]
fn sync_errors_of_the_command_are_reported_with_the_rest() {
    let mut world = world();
    let command = control_command(sim::SimulatorControl {
        teleport_ball: Some(ball_at(Some(0.5), None)),
        ..no_control()
    });
    let control = sim::RobotControl { robot_commands: vec![kick(15, None)] };
    let outcome =
        world.sync(SyncSource::Team(Team::Blue), Some(-1.0), Some(command), Some(control));
    let response = outcome.response.robot_control_response.expect("errors");
    let mut codes: Vec<&str> = response.errors.iter().map(code).collect();
    codes.sort();
    assert_eq!(codes, vec!["INVALID_STEP", "PARTIAL_COORD", "UNKNOWN_ROBOT"]);
    assert_eq!(
        plan_sync(SyncSource::Team(Team::Blue), true, true),
        vec![
            SyncPhase::Command,
            SyncPhase::RobotControl(Team::Blue),
            SyncPhase::Step,
            SyncPhase::Collect
        ]
    );
    assert_eq!(
        plan_sync(SyncSource::Control, false, true),
        vec![SyncPhase::Step, SyncPhase::Collect]
    );
}

// ------------------------------------------------------------ endpoints

#[test]
fn simulator_command_gets_a_simulator_response() {
    let mut world = world();
    let command = control_command(sim::SimulatorControl {
        teleport_ball: Some(ball_at(Some(1.0), None)),
        ..no_control()
    });
    let response = world.apply(&command).response();
    assert_eq!(response.errors.len(), 1, "x without y is PARTIAL_COORD");
    assert_eq!(response.errors[0].code.as_deref(), Some("PARTIAL_COORD"));
}

#[test]
fn robot_control_gets_feedback_on_the_team_port() {
    let mut world = world();
    let control = sim::RobotControl {
        robot_commands: vec![sim::RobotCommand {
            id: 2,
            move_command: Some(sim::RobotMoveCommand {
                command: Some(sim::Move::LocalVelocity {
                    forward: d(1.0),
                    left: d(0.0),
                    angular: d(0.0),
                }),
            }),
            kick_speed: Some(d(4.0)),
            kick_angle: Some(d(45.0)),
            dribbler_speed: Some(d(1000.0)),
        }],
    };
    let response = world.control_robots(Team::Blue, &control).response.expect("response");
    assert!(response.errors.is_empty(), "{:?}", response.errors);
    assert_eq!(response.feedback.len(), 1);
    assert_eq!(response.feedback[0].id, 2);
    assert_eq!(response.feedback[0].dribbler_ball_contact, Some(false));
}

#[test]
fn sync_request_on_a_team_port_gets_a_sync_response() {
    let mut world = world();
    let control = sim::RobotControl { robot_commands: vec![kick(1, Some(3.0))] };
    let outcome = world.sync(SyncSource::Team(Team::Yellow), Some(0.0), None, Some(control));
    let rcr = outcome.response.robot_control_response.expect("robot control response");
    assert!(rcr.errors.is_empty(), "{:?}", rcr.errors);
    assert_eq!(rcr.feedback.len(), 1);
    assert_eq!(rcr.feedback[0].id, 1);
}
