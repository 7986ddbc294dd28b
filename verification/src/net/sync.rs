//! Synchronous (lock-step) stepping: `SimulationSyncRequest` /
//! `SimulationSyncResponse`.
//!
//! A sync request may arrive on the control port or on a team port. On a team
//! port the embedded `robot_control` is attributed to that team; on the control
//! port there is no team to attribute it to, so it is rejected with
//! `UNSUPPORTED`.
use vstd::prelude::*;

use crate::double::Double;
use crate::net::control::{present, ControlOutcome, ErrorList};
use crate::net::convert;
use crate::net::sim;
use crate::net::world::{SimError, Team};
use crate::text;

verus! {

/// Which socket a sync request arrived on.
#[derive(Clone, Copy, Debug, PartialEq, Eq, Structural)]
pub enum SyncSource {
    /// The simulation control port; `robot_control` cannot be attributed.
    Control,
    /// A team port; `robot_control` belongs to this team.
    Team(Team),
}

/// `SimulationSyncResponse`, with detection frames of type `F`.
#[derive(Clone, Debug, PartialEq, Eq)]
pub struct SyncResponse<F> {
    /// Every detection frame that the step released.
    pub detection: Vec<F>,
    /// The answer to the robot control, and every error.
    pub robot_control_response: Option<sim::RobotControlResponse>,
}

/// The response plus what the runner still has to do.
#[derive(Clone, Debug, PartialEq, Eq)]
pub struct SyncOutcome<F> {
    /// The message to send back to the requester.
    pub response: SyncResponse<F>,
    /// Side effects of the embedded `simulator_command`; its errors are in the
    /// response.
    pub control: ControlOutcome,
}

/// One part of a sync request.
#[derive(Clone, Copy, Debug, PartialEq, Eq, Structural)]
pub enum SyncPhase {
    /// Apply the simulator command.
    Command,
    /// Apply the robot control for this team.
    RobotControl(Team),
    /// Step the world.
    Step,
    /// Collect the vision outputs that were released.
    Collect,
}

/// What a sync request does, in order: apply the command, apply the robot
/// control (on a team port), step, and collect every vision frame released by
/// the step.
pub open spec fn sync_phases(source: SyncSource, has_command: bool, has_control: bool) -> Seq<
    SyncPhase,
> {
    present(has_command, SyncPhase::Command) + match source {
        SyncSource::Team(team) => present(has_control, SyncPhase::RobotControl(team)),
        SyncSource::Control => seq![],
    } + seq![SyncPhase::Step, SyncPhase::Collect]
}

/// What a sync request does, in order.
pub fn plan_sync(source: SyncSource, has_command: bool, has_control: bool) -> (res: Vec<SyncPhase>)
    ensures
        res@ == sync_phases(source, has_command, has_control),
{
    let mut out: Vec<SyncPhase> = Vec::new();
    if has_command {
        out.push(SyncPhase::Command);
    }
    if has_control {
        if let SyncSource::Team(team) = source {
            out.push(SyncPhase::RobotControl(team));
        }
    }
    out.push(SyncPhase::Step);
    out.push(SyncPhase::Collect);
    assert(out@ =~= sync_phases(source, has_command, has_control));
    out
}

// ---------------------------------------------------------------- step

/// What a requested step length asks for.
#[derive(Clone, Copy, Debug, PartialEq, Eq, Structural)]
pub enum StepCheck {
    /// No step: a zero or absent length is a valid "just poll" request.
    Poll,
    /// A negative or non-finite length.
    Invalid,
    /// A positive length, to be snapped to whole substeps.
    Snap,
}

/// What a requested step length asks for.
pub open spec fn step_check(step: Option<Double>) -> StepCheck {
    match step {
        None => StepCheck::Poll,
        Some(s) => if s.lt(Double::zero()) || !s.finite() {
            StepCheck::Invalid
        } else if Double::zero().lt(s) {
            StepCheck::Snap
        } else {
            StepCheck::Poll
        },
    }
}

/// What a requested step length asks for.
pub fn check_step(step: Option<Double>) -> (res: StepCheck)
    ensures
        res == step_check(step),
{
    match step {
        None => StepCheck::Poll,
        Some(s) => if s.is_less(Double::zero()) || !s.is_finite() {
            StepCheck::Invalid
        } else if s.is_positive() {
            StepCheck::Snap
        } else {
            StepCheck::Poll
        },
    }
}

/// The error for a step length that is not a duration; `shown` is the length as
/// text.
pub fn invalid_step(shown: &str) -> (res: SimError)
    ensures
        res is InvalidStep,
        res.spec_message() == ("sim_step "@ + shown@) + " is not a valid duration"@,
{
    let head = text::join("sim_step ", shown);
    SimError::InvalidStep(text::join(head.as_str(), " is not a valid duration"))
}

/// The text for a step that is no whole number of substeps.
pub open spec fn uneven_message(shown: Seq<char>, substep: u64) -> Seq<char> {
    ((("sim_step "@ + shown) + " s is not a multiple of the "@) + text::decimal(substep as nat))
        + " ns substep"@
}

/// Decide on a positive step length. `snapped` is the nearest whole number of
/// substeps in nanoseconds, `distance` how far that is from what was asked for
/// and `tolerance` what 32-bit precision of the request accounts for: the step
/// is taken as snapped unless it is further off than that.
pub fn settle_step(
    snapped: u64,
    substep: u64,
    distance: Double,
    tolerance: Double,
    shown: &str,
) -> (res: Result<u64, SimError>)
    ensures
        match res {
            Ok(ns) => !tolerance.lt(distance) && ns == snapped,
            Err(e) => tolerance.lt(distance) && e is InvalidStep && e.spec_message()
                == uneven_message(shown@, substep),
        },
{
    if tolerance.is_less(distance) {
        let a = text::join("sim_step ", shown);
        let b = text::join(a.as_str(), " s is not a multiple of the ");
        let digits = text::to_decimal(substep);
        let c = text::join(b.as_str(), digits.as_str());
        Err(SimError::InvalidStep(text::join(c.as_str(), " ns substep")))
    } else {
        Ok(snapped)
    }
}

// ---------------------------------------------------------------- response

/// The error for a robot control on the control port.
pub open spec fn homeless_control() -> (Option<Seq<char>>, Option<Seq<char>>) {
    convert::error_view(
        "UNSUPPORTED"@,
        "robot_control in a sync request on the control port has no team; send the sync request to the blue or yellow port instead"@,
    )
}

/// The errors of a sync request that the robot control itself did not give, in
/// order: those of the command, a robot control without a team, and that of the
/// step.
pub open spec fn other_errors(
    source: SyncSource,
    command: ErrorList,
    has_control: bool,
    step: Option<SimError>,
) -> ErrorList {
    command + present(has_control && source is Control, homeless_control()) + match step {
        Some(e) => seq![convert::sim_error_view(e)],
        None => seq![],
    }
}

/// The errors of a simulator command, if there was one.
pub open spec fn command_errors(command: Option<ControlOutcome>) -> ErrorList {
    match command {
        Some(c) => c.error_list(),
        None => Seq::empty(),
    }
}

/// Put together the response to a sync request.
///
/// `command` is the outcome of its simulator command, `answer` that of its robot
/// control where it was applied, `step_error` what went wrong with the step and
/// `detection` the frames that the step released. The response carries a
/// `robot_control_response` when a robot control was applied or anything went
/// wrong; it holds every error.
pub fn handle_sync_request<F>(
    source: SyncSource,
    command: Option<ControlOutcome>,
    has_control: bool,
    answer: Option<sim::RobotControlResponse>,
    step_error: Option<SimError>,
    detection: Vec<F>,
) -> (res: SyncOutcome<F>)
    requires
        answer is Some <==> has_control && source is Team,
    ensures
        res.response.detection == detection,
        res.control.errors@.len() == 0,
        res.control.simulation_speed == match command {
            Some(c) => c.simulation_speed,
            None => None,
        },
        res.control.vision_port == match command {
            Some(c) => c.vision_port,
            None => None,
        },
        ({
            let errors = other_errors(
                source,
                command_errors(command),
                has_control,
                step_error,
            );
            match res.response.robot_control_response {
                Some(r) => match answer {
                    Some(a) => sim::errors_view(r.errors@) == sim::errors_view(a.errors@) + errors
                        && r.feedback == a.feedback,
                    None => errors.len() > 0 && sim::errors_view(r.errors@) == errors
                        && r.feedback@.len() == 0,
                },
                None => answer is None && errors.len() == 0,
            }
        }),
{
    let ghost command_list = command_errors(command);
    let mut errors: Vec<sim::SimulatorError> = Vec::new();
    let mut control = ControlOutcome::new();
    if let Some(c) = command {
        control.simulation_speed = c.simulation_speed;
        control.vision_port = c.vision_port;
        errors = c.errors;
    }
    assert(sim::errors_view(errors@) =~= command_list);
    let control_port = match source {
        SyncSource::Control => true,
        SyncSource::Team(_) => false,
    };
    if has_control && control_port {
        let e = convert::error(
            "UNSUPPORTED",
            "robot_control in a sync request on the control port has no team; send the sync request to the blue or yellow port instead",
        );
        errors.push(e);
    }
    let ghost second = command_list + present(has_control && source is Control, homeless_control());
    assert(sim::errors_view(errors@) =~= second);
    if let Some(e) = &step_error {
        errors.push(convert::sim_error(e));
    }
    let ghost all = other_errors(source, command_list, has_control, step_error);
    assert(sim::errors_view(errors@) =~= all);
    let response = match answer {
        Some(a) => {
            let ghost first = a.errors@;
            let mut joined = a.errors;
            joined.append(&mut errors);
            assert(sim::errors_view(joined@) =~= sim::errors_view(first) + all);
            Some(sim::RobotControlResponse { errors: joined, feedback: a.feedback })
        },
        None => if errors.len() > 0 {
            Some(sim::RobotControlResponse { errors, feedback: Vec::new() })
        } else {
            None
        },
    };
    SyncOutcome { response: SyncResponse { detection, robot_control_response: response }, control }
}

/// No error of a sync request is lost and none is made up: the errors beside the
/// robot control's own are as many as were reported, in the order command, port,
/// step.
pub proof fn law_sync_errors_are_complete(
    source: SyncSource,
    command: ErrorList,
    has_control: bool,
    step: Option<SimError>,
)
    ensures
        ({
            let all = other_errors(source, command, has_control, step);
            &&& all.len() == command.len() + (if has_control && source is Control {
                1int
            } else {
                0
            }) + (if step is Some {
                1int
            } else {
                0
            })
            &&& forall|i: int| 0 <= i < command.len() ==> #[trigger] all[i] == command[i]
            &&& step matches Some(e) ==> all.last() == convert::sim_error_view(e)
        }),
{
}

/// On the control port no robot control is ever applied, and a robot control sent
/// there is always reported.
pub proof fn law_control_port_has_no_team(has_command: bool, command: ErrorList, step: Option<SimError>)
    ensures
        forall|i: int|
            0 <= i < sync_phases(SyncSource::Control, has_command, true).len() ==> !((
            #[trigger] sync_phases(SyncSource::Control, has_command, true)[i]) is RobotControl),
        other_errors(SyncSource::Control, command, true, step).contains(homeless_control()),
{
    let all = other_errors(SyncSource::Control, command, true, step);
    assert(all[command.len() as int] == homeless_control());
}

/// A request always steps and then collects, at its end. Before that it applies its
/// command, if it has one, and then, on a team's port, its robot control for that team,
/// if it has one.
pub proof fn law_sync_requests_in_order(source: SyncSource, has_command: bool, has_control: bool)
    ensures
        ({
            let p = sync_phases(source, has_command, has_control);
            let n = p.len();
            &&& n >= 2 && p[n - 1] is Collect && p[n - 2] is Step
            &&& has_command ==> n >= 3 && p[0] is Command
            &&& source is Team && has_control ==> n >= 3 && p[n - 3] == SyncPhase::RobotControl(source->0)
            &&& n == 2 + (if has_command {
                1int
            } else {
                0
            }) + (if has_control && source is Team {
                1int
            } else {
                0
            })
        }),
{
}

/// A step of no length, or of zero, only polls; one below zero or not finite is
/// invalid; every other one is snapped.
pub proof fn law_steps_by_length(step: Option<Double>)
    ensures
        step_check(step) is Poll <==> step is None || (step->0).same(Double::zero()),
        step_check(step) is Invalid <==> step is Some && ((step->0).lt(Double::zero()) || (step->0).nan()
            || !(step->0).finite()),
        step_check(step) is Snap <==> step is Some && (step->0).finite() && Double::zero().lt(step->0),
{
}

/// The errors of a command are its own, and none without one.
pub proof fn law_command_errors(command: Option<ControlOutcome>)
    ensures
        command matches Some(c) ==> command_errors(command) == sim::errors_view(c.errors@),
        command is None ==> command_errors(command).len() == 0,
{
}

/// The message on an uneven step shows the step and the substep.
pub proof fn law_uneven_messages_show_both(shown: Seq<char>, substep: u64)
    ensures
        ({
            let m = uneven_message(shown, substep);
            let d = text::decimal(substep as nat);
            let a = "sim_step "@.len() as int;
            let b = m.len() - " ns substep"@.len();
            m.len() >= a + shown.len() + d.len() && m.subrange(a, a + shown.len()) == shown && m.subrange(
                b - d.len(),
                b,
            ) == d
        }),
{
    let m = uneven_message(shown, substep);
    let d = text::decimal(substep as nat);
    let a = "sim_step "@.len() as int;
    let b = m.len() - " ns substep"@.len();
    assert(m.subrange(a, a + shown.len()) =~= shown);
    assert(m.subrange(b - d.len(), b) =~= d);
}

} // verus!
