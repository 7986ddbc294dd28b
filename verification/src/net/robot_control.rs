//! Applying a team's `RobotControl` and building the `RobotControlResponse`.
//!
//! Packet loss is drawn by the caller from the world's random numbers:
//!
//! * a lost command drops the **whole datagram** (that is what a lost UDP packet
//!   does); nothing is applied and no response is produced.
//! * a lost response is dropped after the commands were applied.
use vstd::prelude::*;

use crate::net::convert;
use crate::net::sim;
use crate::net::world::{RobotCommand, RobotId, SimError, Team};
use crate::text;

verus! {

/// What happened to one `RobotControl` datagram.
#[derive(Clone, Debug, PartialEq, Eq)]
pub struct RobotControlOutcome {
    /// The response to send back, or `None` when the datagram or the response
    /// was lost.
    pub response: Option<sim::RobotControlResponse>,
    /// True when the incoming datagram itself was dropped.
    pub command_lost: bool,
}

/// What the world said to one command.
#[derive(Clone, Debug, PartialEq, Eq)]
pub enum Applied {
    /// The command was taken; `ball_contact` is the robot's break beam once all
    /// commands of the message were applied.
    Accepted {
        /// Break beam.
        ball_contact: Option<bool>,
    },
    /// The command was refused.
    Refused(SimError),
}

/// Whether a command's robot number is one that a robot can have.
pub open spec fn in_range(c: sim::RobotCommand) -> bool {
    c.id <= 255
}

/// How many commands of a list have a number in range.
pub open spec fn in_range_count(cmds: Seq<sim::RobotCommand>) -> nat
    decreases cmds.len(),
{
    if cmds.len() == 0 {
        0
    } else {
        in_range_count(cmds.drop_last()) + if in_range(cmds.last()) {
            1nat
        } else {
            0nat
        }
    }
}

/// The commands to be handed to the world, in order: each with a number in range.
pub open spec fn requests(team: Team, cmds: Seq<sim::RobotCommand>) -> Seq<(RobotId, RobotCommand)>
    decreases cmds.len(),
{
    if cmds.len() == 0 {
        seq![]
    } else {
        let before = requests(team, cmds.drop_last());
        let c = cmds.last();
        if in_range(c) {
            before.push((RobotId { team, number: c.id as u8 }, convert::command_of(c)))
        } else {
            before
        }
    }
}

/// The text for a number that is out of range.
pub open spec fn range_message(id: u32) -> Seq<char> {
    ("robot id "@ + text::decimal(id as nat)) + " out of range"@
}

/// The errors of the response, in the order of the commands: a number out of
/// range, or what the world said.
pub open spec fn response_errors(cmds: Seq<sim::RobotCommand>, applied: Seq<Applied>) -> Seq<
    (Option<Seq<char>>, Option<Seq<char>>),
>
    decreases cmds.len(),
{
    if cmds.len() == 0 {
        seq![]
    } else {
        let rest = cmds.drop_last();
        let before = response_errors(rest, applied);
        if !in_range(cmds.last()) {
            before.push(convert::error_view("UNKNOWN_ROBOT"@, range_message(cmds.last().id)))
        } else {
            match applied[in_range_count(rest) as int] {
                Applied::Refused(e) => before.push(convert::sim_error_view(e)),
                Applied::Accepted { ball_contact } => before,
            }
        }
    }
}

/// The feedback of the response: one entry for each command that was taken.
pub open spec fn response_feedback(cmds: Seq<sim::RobotCommand>, applied: Seq<Applied>) -> Seq<
    sim::RobotFeedback,
>
    decreases cmds.len(),
{
    if cmds.len() == 0 {
        seq![]
    } else {
        let rest = cmds.drop_last();
        let before = response_feedback(rest, applied);
        if !in_range(cmds.last()) {
            before
        } else {
            match applied[in_range_count(rest) as int] {
                Applied::Refused(e) => before,
                Applied::Accepted { ball_contact } => before.push(
                    sim::RobotFeedback {
                        id: cmds.last().id,
                        dribbler_ball_contact: ball_contact,
                    },
                ),
            }
        }
    }
}

proof fn lemma_count_grows(cmds: Seq<sim::RobotCommand>, n: int)
    requires
        0 <= n <= cmds.len(),
    ensures
        in_range_count(cmds.take(n)) <= in_range_count(cmds),
        in_range_count(cmds) <= cmds.len(),
    decreases cmds.len(),
{
    if cmds.len() > 0 {
        if n == cmds.len() {
            assert(cmds.take(n) =~= cmds);
            lemma_count_grows(cmds.drop_last(), 0);
        } else {
            assert(cmds.take(n) =~= cmds.drop_last().take(n));
            lemma_count_grows(cmds.drop_last(), n);
        }
    } else {
        assert(cmds.take(n) =~= cmds);
    }
}

/// The commands to hand to the world, in order, for a message of `team`.
pub fn command_requests(team: Team, control: &sim::RobotControl) -> (res: Vec<
    (RobotId, RobotCommand),
>)
    ensures
        res@ == requests(team, control.robot_commands@),
{
    let mut out: Vec<(RobotId, RobotCommand)> = Vec::new();
    let cmds = &control.robot_commands;
    let mut i: usize = 0;
    while i < cmds.len()
        invariant
            i <= cmds@.len(),
            out@ == requests(team, cmds@.take(i as int)),
        decreases cmds.len() - i,
    {
        assert(cmds@.take(i + 1).drop_last() =~= cmds@.take(i as int));
        if cmds[i].id <= 255 {
            let id = RobotId::new(team, cmds[i].id as u8);
            let cmd = convert::robot_command_from_proto(&cmds[i]);
            out.push((id, cmd));
        }
        i += 1;
    }
    assert(cmds@.take(i as int) =~= cmds@);
    out
}

/// Build the response without regard to packet loss, from what the world said to
/// each of the [`command_requests`]. Unknown ids are reported but the rest of the
/// message counts.
pub fn build_response(control: &sim::RobotControl, applied: &Vec<Applied>) -> (res:
    sim::RobotControlResponse)
    requires
        applied@.len() == in_range_count(control.robot_commands@),
    ensures
        sim::errors_view(res.errors@) == response_errors(control.robot_commands@, applied@),
        res.feedback@ == response_feedback(control.robot_commands@, applied@),
{
    let mut errors: Vec<sim::SimulatorError> = Vec::new();
    let mut feedback: Vec<sim::RobotFeedback> = Vec::new();
    let cmds = &control.robot_commands;
    let mut i: usize = 0;
    let mut next: usize = 0;
    while i < cmds.len()
        invariant
            i <= cmds@.len(),
            cmds@ == control.robot_commands@,
            applied@.len() == in_range_count(cmds@),
            next == in_range_count(cmds@.take(i as int)),
            next <= applied@.len(),
            sim::errors_view(errors@) == response_errors(cmds@.take(i as int), applied@),
            feedback@ == response_feedback(cmds@.take(i as int), applied@),
        decreases cmds.len() - i,
    {
        proof {
            assert(cmds@.take(i + 1).drop_last() =~= cmds@.take(i as int));
            lemma_count_grows(cmds@, i + 1);
        }
        let ghost before = errors@;
        if cmds[i].id > 255 {
            let digits = text::to_decimal(cmds[i].id as u64);
            let head = text::join("robot id ", digits.as_str());
            let message = text::join(head.as_str(), " out of range");
            let e = convert::error("UNKNOWN_ROBOT", message.as_str());
            errors.push(e);
            assert(sim::errors_view(errors@) =~= sim::errors_view(before).push(e@));
        } else {
            match &applied[next] {
                Applied::Refused(err) => {
                    let e = convert::sim_error(err);
                    errors.push(e);
                    assert(sim::errors_view(errors@) =~= sim::errors_view(before).push(e@));
                },
                Applied::Accepted { ball_contact } => {
                    feedback.push(
                        sim::RobotFeedback {
                            id: cmds[i].id,
                            dribbler_ball_contact: *ball_contact,
                        },
                    );
                },
            }
            next += 1;
        }
        i += 1;
    }
    assert(cmds@.take(i as int) =~= cmds@);
    sim::RobotControlResponse { errors, feedback }
}

/// The outcome of a datagram that was lost on its way in.
pub fn lost_command() -> (res: RobotControlOutcome)
    ensures
        res.response is None,
        res.command_lost,
{
    RobotControlOutcome { response: None, command_lost: true }
}

/// The outcome of a `RobotControl` message that arrived: its response, unless
/// that is lost.
pub fn apply_robot_control(
    control: &sim::RobotControl,
    applied: &Vec<Applied>,
    response_lost: bool,
) -> (res: RobotControlOutcome)
    requires
        applied@.len() == in_range_count(control.robot_commands@),
    ensures
        !res.command_lost,
        res.response is None <==> response_lost,
        res.response matches Some(r) ==> {
            &&& sim::errors_view(r.errors@) == response_errors(control.robot_commands@, applied@)
            &&& r.feedback@ == response_feedback(control.robot_commands@, applied@)
        },
{
    let response = build_response(control, applied);
    if response_lost {
        RobotControlOutcome { response: None, command_lost: false }
    } else {
        RobotControlOutcome { response: Some(response), command_lost: false }
    }
}

/// Every command of a message is answered exactly once, by an error or by
/// feedback, and one request goes to the world for each command in range.
pub proof fn law_every_command_is_answered(
    team: Team,
    cmds: Seq<sim::RobotCommand>,
    applied: Seq<Applied>,
)
    ensures
        response_errors(cmds, applied).len() + response_feedback(cmds, applied).len()
            == cmds.len(),
        requests(team, cmds).len() == in_range_count(cmds),
    decreases cmds.len(),
{
    if cmds.len() > 0 {
        law_every_command_is_answered(team, cmds.drop_last(), applied);
    }
}

/// A message is only ever applied to robots of the team whose port it came in
/// on.
pub proof fn law_requests_stay_within_the_team(team: Team, cmds: Seq<sim::RobotCommand>, i: int)
    requires
        0 <= i < requests(team, cmds).len(),
    ensures
        requests(team, cmds)[i].0.team == team,
    decreases cmds.len(),
{
    if cmds.len() > 0 {
        let before = requests(team, cmds.drop_last());
        if i < before.len() {
            law_requests_stay_within_the_team(team, cmds.drop_last(), i);
        }
    }
}

/// A number is in range if it fits a byte; the commands counted are those with one.
pub proof fn law_commands_in_range_are_counted(cmds: Seq<sim::RobotCommand>)
    ensures
        in_range_count(cmds) == cmds.filter(|c: sim::RobotCommand| c.id < 256).len(),
    decreases cmds.len(),
{
    reveal(Seq::filter);
    if cmds.len() > 0 {
        law_commands_in_range_are_counted(cmds.drop_last());
    }
}

/// Each command with a number in range goes to the robot of the team with that number,
/// in the order of the message; the others go nowhere.
pub proof fn law_commands_go_to_their_robots(team: Team, cmds: Seq<sim::RobotCommand>)
    ensures
        ({
            let kept = cmds.filter(|c: sim::RobotCommand| c.id < 256);
            let r = requests(team, cmds);
            &&& r.len() == kept.len()
            &&& forall|i: int|
                0 <= i < r.len() ==> (#[trigger] r[i]).0.number == kept[i].id && r[i].0.team == team
                    && r[i].1 == convert::command_of(kept[i])
        }),
    decreases cmds.len(),
{
    reveal(Seq::filter);
    if cmds.len() > 0 {
        law_commands_go_to_their_robots(team, cmds.drop_last());
        let f = |c: sim::RobotCommand| c.id < 256;
        let rest = cmds.drop_last();
        let kept = cmds.filter(f);
        let r = requests(team, cmds);
        let p = requests(team, rest);
        assert forall|i: int| 0 <= i < r.len() implies (#[trigger] r[i]).0.number == kept[i].id
            && r[i].0.team == team && r[i].1 == convert::command_of(kept[i]) by {
            if i < p.len() {
                assert(r[i] == p[i]);
                assert(kept[i] == rest.filter(f)[i]);
            }
        }
    }
}

/// One more command adds an error if its number is over 255 or the world refuses it, and
/// feedback with its number and the break beam if the world takes it. What the world
/// says is to the commands in range, in order.
pub proof fn law_commands_are_answered_in_order(
    cmds: Seq<sim::RobotCommand>,
    c: sim::RobotCommand,
    applied: Seq<Applied>,
)
    ensures
        response_errors(Seq::empty(), applied).len() == 0,
        response_feedback(Seq::empty(), applied).len() == 0,
        ({
            let more = cmds.push(c);
            let e = response_errors(cmds, applied);
            let f = response_feedback(cmds, applied);
            let said = applied[cmds.filter(|x: sim::RobotCommand| x.id < 256).len() as int];
            &&& c.id > 255 ==> response_errors(more, applied) == e.push(
                (Some("UNKNOWN_ROBOT"@), Some(range_message(c.id))),
            ) && response_feedback(more, applied) == f
            &&& c.id <= 255 && said is Refused ==> response_errors(more, applied) == e.push(
                convert::sim_error_view(said->Refused_0),
            ) && response_feedback(more, applied) == f
            &&& c.id <= 255 && said is Accepted ==> response_errors(more, applied) == e
                && response_feedback(more, applied).len() == f.len() + 1 && response_feedback(
                more,
                applied,
            ).drop_last() == f && response_feedback(more, applied).last().id == c.id
                && response_feedback(more, applied).last().dribbler_ball_contact
                == said->ball_contact
        }),
{
    assert(cmds.push(c).drop_last() =~= cmds);
    law_commands_in_range_are_counted(cmds);
    let f = response_feedback(cmds, applied);
    let more = response_feedback(cmds.push(c), applied);
    if more.len() > f.len() {
        assert(more.drop_last() =~= f);
    }
}

/// The message on a number out of range shows the number.
pub proof fn law_range_messages_show_the_number(id: u32)
    ensures
        ({
            let m = range_message(id);
            let d = text::decimal(id as nat);
            let front = "robot id "@.len() as int;
            m.len() == front + d.len() + " out of range"@.len() && m.subrange(front, front + d.len()) == d
        }),
{
    let d = text::decimal(id as nat);
    let front = "robot id "@.len() as int;
    assert(range_message(id).subrange(front, front + d.len()) =~= d);
}

} // verus!
