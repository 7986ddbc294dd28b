//! Datagrams: telling them apart, answering them, and the main loop's decisions.

use ssl_sim::double::Double;
use ssl_sim::net::control::ControlOutcome;
use ssl_sim::net::endpoints::{
    receives_on, socket_index, team_endpoint, unbound_message, EndpointKind, EndpointPorts,
    ReceiveError,
};
use ssl_sim::net::runner::{
    apply_side_effects, bounded_pause, capped, classify_control, classify_team, free_running,
    next_turn, report_due, sleep_precise, substep_due, unreadable_control, unreadable_team,
    ControlMessage, Mode, TeamMessage, Turn, MAX_SLEEP, REPORT_INTERVAL, SPIN_MARGIN, SYNC_HOLD,
};
use ssl_sim::net::vision::VisionPublisher;
use ssl_sim::net::wire::{hex_prefix, looks_like_sync, readable, TagScan};
use ssl_sim::net::world::{RobotId, SimError, Team};

fn d(x: f64) -> Double {
    Double::from_bits(x.to_bits())
}

/// A varint field.
fn varint_field(number: u8, value: u8) -> Vec<u8> {
    vec![number << 3, value]
}

/// A length-delimited field.
fn nested(number: u8, content: &[u8]) -> Vec<u8> {
    let mut out = vec![(number << 3) | 2, content.len() as u8];
    out.extend_from_slice(content);
    out
}

/// A 32-bit float field.
fn float_field(number: u8, value: f32) -> Vec<u8> {
    let mut out = vec![(number << 3) | 5];
    out.extend_from_slice(&value.to_le_bytes());
    out
}

/// A `RobotControl` with one empty command for robot 0.
fn robot_control() -> Vec<u8> {
    nested(1, &varint_field(1, 0))
}

/// A `SimulationSyncRequest` with a step and that control.
fn sync_request() -> Vec<u8> {
    let mut out = float_field(1, 0.016);
    out.extend(nested(3, &robot_control()));
    out
}

/// A `SimulatorCommand` that sets the speed.
fn simulator_command() -> Vec<u8> {
    nested(1, &float_field(3, 1.0))
}

#[test]
fn sync_requests_are_told_apart_from_the_ports_primary_message() {
    assert!(looks_like_sync(&sync_request(), true), "team port");
    assert!(looks_like_sync(&sync_request(), false), "control port");
    assert!(!looks_like_sync(&robot_control(), true));
    assert!(!looks_like_sync(&simulator_command(), false));

    // A sync request carrying only a simulator_command cannot be told by tag
    // alone on the control port.
    let ambiguous = nested(2, &[]);
    assert!(!looks_like_sync(&ambiguous, false));
    assert!(looks_like_sync(&ambiguous, true), "field 2 is decisive vs RobotControl");
}

#[test]
fn ambiguous_control_datagrams_fall_back_on_what_decodes() {
    assert_eq!(classify_control(&sync_request(), true, false), ControlMessage::Sync);
    assert_eq!(classify_control(&simulator_command(), false, true), ControlMessage::Command);
    let ambiguous = nested(2, &[]);
    assert_eq!(classify_control(&ambiguous, true, true), ControlMessage::Command);
    assert_eq!(classify_control(&ambiguous, true, false), ControlMessage::Sync);
    assert_eq!(classify_control(&ambiguous, false, false), ControlMessage::Unreadable);
    assert_eq!(classify_team(&sync_request(), true, true), TeamMessage::Sync);
    assert_eq!(classify_team(&robot_control(), true, true), TeamMessage::RobotControl);
    assert_eq!(classify_team(&robot_control(), false, false), TeamMessage::Unreadable);
}

#[test]
fn unreadable_control_datagram_gets_unreadable() {
    let garbage = vec![0xFFu8, 0xFF, 0xFF, 0xFF, 0xFF, 0xFF];
    assert!(!readable(&garbage));
    assert_eq!(classify_control(&garbage, false, false), ControlMessage::Unreadable);
    assert_eq!(unreadable_control().errors[0].code.as_deref(), Some("UNREADABLE"));
    assert_eq!(classify_team(&garbage, false, false), TeamMessage::Unreadable);
    assert_eq!(unreadable_team().errors[0].code.as_deref(), Some("UNREADABLE"));
    assert!(unreadable_team().feedback.is_empty());
}

#[test]
fn readable_bytes_are_those_with_whole_fields() {
    assert!(readable(&[]));
    assert!(readable(&sync_request()));
    assert!(!readable(&sync_request()[..3]), "cut inside a float");
    assert!(!readable(&[0x0A, 5, 1]), "shorter than its length says");
    assert!(!readable(&[0x00, 1]), "no field has the number 0");
}

#[test]
fn tags_are_scanned_one_after_the_other() {
    let mut bytes = varint_field(1, 7);
    bytes.extend(nested(2, &[1, 2, 3]));
    bytes.extend(float_field(3, 0.5));
    bytes.extend([(4 << 3) | 1, 0, 0, 0, 0, 0, 0, 0, 0]);
    let mut scan = TagScan::new(&bytes);
    for (number, wire) in [(1u32, 0u8), (2, 2), (3, 5), (4, 1)] {
        assert_eq!(scan.next(), Some((number, wire)));
    }
    assert_eq!(scan.next(), None);
    let mut scan = TagScan::new(&[0xAC, 0x02, 0x80]);
    assert_eq!(scan.varint(), Some(300));
    assert_eq!(scan.varint(), None);
    let mut scan = TagScan::new(&[1, 2]);
    assert_eq!(scan.skip(5), None);
    // Groups are not read.
    assert_eq!(TagScan::new(&[(1 << 3) | 3]).next(), None);
}

#[test]
fn a_refused_value_leaves_what_was_not_looked_at() {
    // No varint: up to ten bytes are gone.
    let mut long = vec![0x80; 11];
    long.push(5);
    let mut scan = TagScan::new(&long);
    assert_eq!(scan.varint(), None);
    assert_eq!(scan.varint(), Some(5 << 7));
    let mut scan = TagScan::new(&[0x80]);
    assert_eq!(scan.varint(), None);
    assert_eq!(scan.next(), None);
    let mut scan = TagScan::new(&long);
    assert_eq!((scan.skip(0), scan.varint()), (None, Some(5 << 7)));
    // Too short, or of a wire type that is not read: nothing is gone.
    for wire in [1, 3, 4, 5, 6, 7] {
        let mut scan = TagScan::new(&[9, 8]);
        assert_eq!((scan.skip(wire), scan.varint()), (None, Some(9)));
    }
    // A length that is too long: the length is gone.
    let mut scan = TagScan::new(&[5, 7]);
    assert_eq!((scan.skip(2), scan.varint()), (None, Some(7)));
    // A field: its tag is gone too.
    let mut scan = TagScan::new(&[(1 << 3) | 3, 7]);
    assert_eq!((scan.next(), scan.varint()), (None, Some(7)));
    let mut scan = TagScan::new(&[(1 << 3) | 2, 5, 7]);
    assert_eq!((scan.next(), scan.varint()), (None, Some(7)));
    let mut scan = TagScan::new(&[0, 7]);
    assert_eq!((scan.next(), scan.varint()), (None, Some(7)));
}

#[test]
fn hex_dumps_are_cut_at_the_limit() {
    assert_eq!(hex_prefix(&[0x00, 0xAB, 0xFF], 3), "00abff");
    assert_eq!(hex_prefix(&[0x00, 0xAB, 0xFF], 2), "00ab...");
    assert_eq!(hex_prefix(&[], 4), "");
}

#[test]
fn modes_are_read_back_from_their_names() {
    for mode in [Mode::Realtime, Mode::Fast, Mode::Sync] {
        assert_eq!(Mode::from_name(mode.name()), Ok(mode));
    }
    assert_eq!(Mode::from_name("REAL-TIME"), Ok(Mode::Realtime));
    assert!(Mode::from_name("Slow").unwrap_err().starts_with("unknown mode `slow`"));
    assert_eq!(Mode::default(), Mode::Realtime);
}

#[test]
fn the_clock_follows_the_mode() {
    assert_eq!(next_turn(Mode::Sync, 0, None, true), Turn::AwaitRequest);
    assert_eq!(next_turn(Mode::Fast, 0, None, true), Turn::StepOnce);
    assert_eq!(next_turn(Mode::Fast, 0, None, false), Turn::Hold);
    assert_eq!(next_turn(Mode::Realtime, 0, None, true), Turn::CatchUp);
    assert_eq!(next_turn(Mode::Realtime, 0, None, false), Turn::Hold);
    assert_eq!(next_turn(Mode::Sync, 5, Some(5), true), Turn::Stop);
    assert_eq!(next_turn(Mode::Sync, 4, Some(5), true), Turn::AwaitRequest);
}

#[test]
fn a_sync_request_holds_the_clock_for_a_while() {
    assert!(free_running(d(1.0), None));
    assert!(!free_running(d(1.0), Some(SYNC_HOLD - 1)));
    assert!(free_running(d(1.0), Some(SYNC_HOLD)));
    assert!(!free_running(d(0.0), None), "paused");
    assert!(!free_running(d(-1.0), None));
}

#[test]
fn pauses_are_split_and_bounded() {
    assert_eq!(sleep_precise(SPIN_MARGIN), (0, SPIN_MARGIN));
    assert_eq!(sleep_precise(SPIN_MARGIN + 7), (7, SPIN_MARGIN));
    assert_eq!(bounded_pause(3), 3);
    assert_eq!(bounded_pause(MAX_SLEEP + 1), MAX_SLEEP);
    assert!(!report_due(REPORT_INTERVAL - 1));
    assert!(report_due(REPORT_INTERVAL));
}

#[test]
fn a_stall_is_caught_up_with_in_part() {
    assert_eq!(capped(d(0.1)), d(0.1));
    assert_eq!(capped(d(0.25)), d(0.25));
    assert_eq!(capped(d(3.0)), d(0.25));
    assert_eq!(capped(d(f64::NAN)), d(0.25));
    assert!(substep_due(d(0.005), d(0.005)) && !substep_due(d(0.0049), d(0.005)));
}

#[test]
fn side_effects_of_two_commands_are_those_of_their_merge() {
    let outcome = |speed: Option<f64>, port: Option<u16>| ControlOutcome {
        errors: Vec::new(),
        simulation_speed: speed.map(d),
        vision_port: port,
    };
    let a = outcome(Some(2.0), Some(7));
    let b = outcome(Some(3.0), None);
    let (mut speed, mut port) = (d(1.0), 1u16);
    apply_side_effects(&a, &mut speed, &mut port);
    apply_side_effects(&b, &mut speed, &mut port);
    let mut merged = a.clone();
    merged.merge(b);
    let (mut speed2, mut port2) = (d(1.0), 1u16);
    apply_side_effects(&merged, &mut speed2, &mut port2);
    assert_eq!((speed, port), (d(3.0), 7));
    assert_eq!((speed2, port2), (speed, port));
}

#[test]
fn endpoints_have_names_teams_and_ports() {
    assert_eq!(EndpointKind::Control.name(), "control");
    assert_eq!(EndpointKind::Blue.name(), "blue");
    assert_eq!(EndpointKind::Yellow.name(), "yellow");
    assert_eq!(EndpointKind::Legacy.name(), "legacy");
    assert_eq!(EndpointKind::Blue.team(), Some(Team::Blue));
    assert_eq!(EndpointKind::Legacy.team(), None);
    assert_eq!(team_endpoint(Team::Yellow), EndpointKind::Yellow);

    let ports = EndpointPorts::default();
    assert_eq!((ports.control, ports.blue, ports.yellow), (10300, 10301, 10302));
    let wanted = ports.wanted();
    assert_eq!(wanted[0], (EndpointKind::Control, 10300));
    let kinds: Vec<EndpointKind> = wanted.iter().map(|w| w.0).collect();
    assert_eq!(socket_index(&kinds, EndpointKind::Yellow), Some(2));
    assert_eq!(socket_index(&Vec::new(), EndpointKind::Yellow), None);
    assert_eq!(unbound_message(EndpointKind::Yellow), "no yellow socket bound");
    assert_eq!(EndpointPorts { localhost: true, ..ports }.host(), "127.0.0.1");
    assert_eq!(EndpointPorts { localhost: false, ..ports }.host(), "0.0.0.0");
    let without = EndpointPorts { legacy: None, ..ports }.wanted();
    assert_eq!(without.len(), 3);
}

#[test]
fn timeouts_and_resets_are_no_reason_to_stop_receiving() {
    assert!(receives_on(ReceiveError::ConnectionReset));
    assert!(receives_on(ReceiveError::WouldBlock));
    assert!(receives_on(ReceiveError::TimedOut));
    assert!(!receives_on(ReceiveError::Other));
}

#[test]
fn truth_frames_are_numbered() {
    let mut publisher = VisionPublisher::new([224u8, 5, 23, 2], 10020, true);
    assert_eq!(publisher.addr(), ([224, 5, 23, 2], 10020));
    publisher.set_port(10021);
    assert_eq!(publisher.addr().1, 10021);
    assert!(publisher.truth_enabled());
    assert_eq!(publisher.next_truth(), Some((([224, 5, 23, 2], 10010), 0)));
    assert_eq!(publisher.next_truth().unwrap().1, 1);
    let mut silent = VisionPublisher::new([127u8, 0, 0, 1], 10020, false);
    assert_eq!(silent.next_truth(), None);
}

#[test]
fn robots_are_shown_by_team_and_number() {
    assert_eq!(RobotId::new(Team::Blue, 4).show(), "B4");
    assert_eq!(RobotId::new(Team::Yellow, 11).show(), "Y11");
    assert!(SimError::UnknownRobot(RobotId::new(Team::Blue, 4)).message().contains("B4"));
    assert_eq!(SimError::InvalidSpec("too heavy".to_string()).message(), "too heavy");
}
