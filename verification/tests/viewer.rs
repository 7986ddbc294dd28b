//! The viewer's state and what its pointer does.

use ssl_sim::double::Double;
use ssl_sim::net::geometry::{Extent, FieldSize, LineSegment};
use ssl_sim::net::packets::{BallMessage, FrameMessage, RobotMessage, WrapperPacket};
use ssl_sim::net::wire::readable;
use ssl_sim::viewer::app::{
    find_robot, near_ball, nearest_robot, robot_hits, speed_command, teleport_ball_command,
    teleport_robot_command, Action, Drag, Input, Interaction, RobotHit, TELEPORT_PERIOD,
};
use ssl_sim::viewer::state::{Merged, RateCounter, Seen, State, LIVE_TIMEOUT, RATE_WINDOW};
use ssl_sim::viewer::view::{camera_color, segments, DrawOptions};

fn d(x: f64) -> Double {
    Double::from_bits(x.to_bits())
}

fn f(x: Double) -> f64 {
    f64::from_bits(x.to_bits())
}

fn robot(id: u32, x: f64, y: f64, orientation: f64) -> RobotMessage {
    RobotMessage {
        confidence: d(1.0),
        robot_id: Some(id),
        x: d(x),
        y: d(y),
        orientation: Some(d(orientation)),
        pixel_x: d(0.0),
        pixel_y: d(0.0),
        height: Some(d(0.15)),
    }
}

fn frame(camera_id: u32) -> FrameMessage {
    FrameMessage {
        frame_number: 42,
        t_capture: d(1.5),
        t_sent: d(1.51),
        camera_id,
        balls: vec![BallMessage {
            confidence: d(0.9),
            area: Some(120),
            x: d(-1500.0),
            y: d(250.0),
            z: None,
            pixel_x: d(0.0),
            pixel_y: d(0.0),
        }],
        robots_blue: vec![robot(3, 1000.0, -500.0, 0.25)],
        robots_yellow: vec![robot(7, -2000.0, 750.0, -1.0)],
    }
}

/// A field described in millimetres, as it is kept in metres.
fn field() -> FieldSize {
    let mm = |x: i32| d(f64::from(x) / 1000.0);
    FieldSize {
        field_length: mm(12000),
        field_width: mm(9000),
        goal_width: mm(1800),
        goal_depth: mm(180),
        boundary_width: mm(300),
        field_lines: vec![LineSegment {
            name: "HalfwayLine".to_string(),
            thickness: mm(10),
            parallel: Extent { depth: mm(6000), width: mm(9000) },
            inward: Extent { depth: mm(9000), width: mm(9000) },
        }],
        field_arcs: Vec::new(),
        penalty_area_depth: Some(mm(1800)),
        penalty_area_width: Some(mm(3600)),
    }
}

/// What the geometry stands for elsewhere: field length in millimetres.
type Geometry = i32;

#[test]
fn decodes_a_wrapper_packet_into_the_state() {
    let packet = WrapperPacket { detection: Some(frame(2)), geometry: Some(field()), source: None };
    let now = 5_000_000_000;
    let mut state: State<FieldSize, ()> = State::new();
    state.apply_wrapper(packet.clone(), now);

    // Geometry is latched, in metres for drawing.
    let size = state.geometry.as_ref().expect("geometry");
    assert_eq!(f(size.field_length), 12.0);
    assert_eq!(f(size.field_width), 9.0);
    assert_eq!(f(size.goal_width), 1.8);
    assert_eq!(f(size.boundary_width), 0.3);
    assert_eq!(size.field_lines.len(), 1);

    // The detection frame is filed under its camera id with a live counter.
    let camera = state.cameras.get(2).expect("camera 2");
    assert_eq!(camera.frame.frame_number, 42);
    assert_eq!(camera.rate.total, 1);
    assert!(camera.rate.is_live(now));
    assert!(state.cameras.get(0).is_none());
    assert!(state.vision_live(now));

    // ... and shows up in the merged, ready-to-draw view.
    let merged = state.merged(now);
    assert_eq!(merged.balls.len(), 1);
    assert_eq!(merged.balls[0].camera_id, 2);
    assert_eq!(merged.balls[0].value.area, Some(120));
    assert_eq!(merged.blue.len(), 1);
    assert_eq!(merged.blue[0].value.robot_id, Some(3));
    assert_eq!(merged.yellow.len(), 1);
    assert_eq!(merged.yellow[0].value.robot_id, Some(7));

    // A second packet from another camera does not evict the first.
    let mut other = packet;
    other.geometry = None;
    if let Some(detection) = other.detection.as_mut() {
        detection.camera_id = 0;
        detection.balls.clear();
    }
    state.apply_wrapper(other, now);
    assert_eq!(state.camera_stats(now).len(), 2);
    assert_eq!(state.merged(now).balls.len(), 1);
    assert_eq!(state.merged(now).blue.len(), 2);
    assert_eq!(state.geometry, Some(field()), "a packet without geometry keeps it");
}

#[test]
fn garbage_bytes_are_counted_not_fatal() {
    let garbage = [0xff, 0xff, 0xff, 0xff];
    assert!(!readable(&garbage[..]));
    let mut state: State<Geometry, ()> = State::new();
    state.receive_vision(&garbage[..], Err("invalid varint".to_string()), 0);
    assert_eq!(state.vision_decode_errors, 1);
    assert_eq!(state.merged(0).balls.len(), 0);
    assert!(state.last_error.is_some());
}

#[test]
fn readable_datagrams_reach_the_state() {
    let mut state: State<Geometry, ()> = State::new();
    let packet = WrapperPacket { detection: Some(frame(1)), geometry: None, source: None };
    state.receive_vision(&[0x0A, 0x00], Ok(packet), 7);
    assert_eq!(state.vision_decode_errors, 0);
    assert_eq!(state.cameras.get(1).unwrap().rate.last, 7);
}

#[test]
fn quiet_cameras_drop_out_of_the_view() {
    let mut state: State<Geometry, ()> = State::new();
    state.apply_wrapper(WrapperPacket { detection: Some(frame(1)), geometry: None, source: None }, 0);
    assert!(state.vision_live(LIVE_TIMEOUT - 1));
    assert_eq!(state.merged(LIVE_TIMEOUT - 1).balls.len(), 1);
    assert!(!state.vision_live(LIVE_TIMEOUT));
    assert_eq!(state.merged(LIVE_TIMEOUT).balls.len(), 0);
    let stats = state.camera_stats(LIVE_TIMEOUT);
    assert_eq!((stats[0].id, stats[0].live, stats[0].balls, stats[0].robots), (1, false, 1, 2));
}

#[test]
fn rates_are_taken_over_whole_windows() {
    let mut rate = RateCounter::new(0);
    for i in 1..10u64 {
        rate.tick(i * RATE_WINDOW / 10);
    }
    assert_eq!((rate.total, rate.window_count, rate.completed), (10, 10, None));
    rate.tick(RATE_WINDOW);
    assert_eq!(rate.completed, Some((11, RATE_WINDOW)));
    assert_eq!((rate.total, rate.window_count, rate.window_start), (11, 0, RATE_WINDOW));
}

#[test]
fn tracker_frames_and_their_errors_are_kept_apart() {
    let mut state: State<Geometry, u8> = State::new();
    state.apply_tracker(Some(9), Some("truth".to_string()), 3);
    let truth = state.truth.as_ref().unwrap();
    assert_eq!((truth.frame, truth.source.as_deref(), truth.rate.total), (9, Some("truth"), 1));
    state.apply_tracker(None, None, 4);
    assert_eq!(state.truth.as_ref().unwrap().frame, 9);
    state.reject_tracker("bad");
    assert_eq!((state.truth_decode_errors, state.vision_decode_errors), (1, 0));
}

// -------------------------------------------------------------- pointer

fn hit(id: u32, x: f64, y: f64) -> RobotHit {
    RobotHit { key: (true, id), x: d(x), y: d(y), orientation: d(0.5) }
}

/// The robot under a point, from the hits' positions in millimetres.
fn under(hits: &Vec<RobotHit>, x: f64, y: f64) -> Option<(bool, u32)> {
    let distances =
        hits.iter().map(|h| d((f(h.x) / 1000.0 - x).hypot(f(h.y) / 1000.0 - y))).collect();
    nearest_robot(&distances, d(0.09)).map(|i| hits[i].key)
}

#[test]
fn hit_test_picks_the_closest_robot_inside_its_body() {
    let seen = |r: RobotMessage| Seen { camera_id: 0, value: r };
    let merged = Merged {
        balls: Vec::new(),
        blue: vec![seen(robot(3, 1000.0, 0.0, 0.5)), seen(robot(4, 1120.0, 0.0, 0.5))],
        yellow: Vec::new(),
    };
    let hits = robot_hits(&merged);
    assert_eq!(hits, vec![hit(3, 1000.0, 0.0), hit(4, 1120.0, 0.0)]);
    // 1.05 m is inside both bodies (0.09 m radius) but closer to robot 3.
    assert_eq!(under(&hits, 1.05, 0.0).unwrap(), (true, 3));
    // 1.07 m is closer to robot 4.
    assert_eq!(under(&hits, 1.07, 0.0).unwrap(), (true, 4));
    // Just outside both bodies in y.
    assert!(under(&hits, 1.06, 0.1).is_none());
    // Far away: nothing.
    assert!(under(&hits, 4.0, 3.0).is_none());
    assert_eq!(find_robot(&hits, (true, 4)), Some(hits[1]));
    assert_eq!(find_robot(&hits, (false, 4)), None);
    assert!(near_ball(&vec![d(0.5), d(0.1)], d(0.1)));
    assert!(!near_ball(&vec![d(0.5), d(f64::NAN)], d(0.1)));
}

fn idle() -> Input {
    Input {
        pointer: true,
        hovered: true,
        dragged: false,
        primary_started: false,
        secondary_started: false,
        primary_dragged: false,
        secondary_dragged: false,
        stopped: false,
        middle_clicked: false,
        near_ball: false,
        nearest: None,
    }
}

#[test]
fn dragging_places_the_ball_at_a_limited_rate() {
    let hits = Vec::new();
    let mut pointer = Interaction::new();
    let start = Input { primary_started: true, primary_dragged: true, dragged: true, near_ball: true, ..idle() };
    let drag = Input { primary_started: false, ..start };
    assert_eq!(pointer.handle_input(&start, &hits, 100), vec![Action::PlaceBall]);
    assert_eq!(pointer.drag, Some(Drag::Ball));
    assert_eq!(pointer.handle_input(&drag, &hits, 100 + TELEPORT_PERIOD - 1), vec![]);
    assert_eq!(
        pointer.handle_input(&drag, &hits, 100 + TELEPORT_PERIOD),
        vec![Action::PlaceBall]
    );
    pointer.handle_input(&Input { stopped: true, ..idle() }, &hits, 0);
    assert_eq!(pointer.drag, None);
}

#[test]
fn secondary_drag_places_the_robot_under_the_pointer() {
    let hits = vec![hit(3, 1000.0, 0.0)];
    let mut pointer = Interaction::new();
    let start = Input {
        secondary_started: true,
        secondary_dragged: true,
        dragged: true,
        nearest: Some((true, 3)),
        ..idle()
    };
    let actions = pointer.handle_input(&start, &hits, 0);
    assert_eq!(actions, vec![Action::PlaceRobot((true, 3), d(0.5))]);
    assert_eq!(pointer.selected, Some((true, 3)));
    assert_eq!(pointer.rotation_target(&hits).unwrap().0, hits[0]);
    pointer.set_rotation((true, 3), d(1.25));
    assert_eq!(pointer.orientation_of((true, 3), &hits), d(1.25));
    assert_eq!(pointer.orientation_of((false, 9), &hits), d(0.0));
}

#[test]
fn commands_ask_for_one_thing_each() {
    let speed = speed_command(d(0.5));
    assert_eq!(speed.simulation_speed, Some(d(0.5)));
    assert!(speed.teleport_ball.is_none() && speed.teleport_robot.is_empty());
    let ball = teleport_ball_command(d(1.0), d(2.0));
    let t = ball.teleport_ball.unwrap();
    assert_eq!((t.x, t.y), (Some(d(1.0)), Some(d(2.0))));
    assert!(ssl_sim::net::convert::teleport_ball_from_proto(&t).is_ok());
    let robot = teleport_robot_command((false, 4), d(1.0), d(2.0), d(0.25));
    let t = &robot.teleport_robot[0];
    assert_eq!((t.id.id, t.id.team), (Some(4), Some(ssl_sim::net::sim::TEAM_YELLOW)));
    assert_eq!(t.orientation, Some(d(0.25)));
}

#[test]
fn drawing_decisions() {
    assert_eq!(camera_color(0), 0);
    assert_eq!(camera_color(7), 1);
    let options = DrawOptions { show_camera_ids: false, selected: Some((true, 3)) };
    assert!(options.highlights(true, Some(3)));
    assert!(!options.highlights(false, Some(3)));
    assert!(!options.highlights(true, None));
    assert_eq!(segments(5, 8, 64), 8);
    assert_eq!(segments(20, 8, 64), 20);
    assert_eq!(segments(100, 8, 64), 64);
}
