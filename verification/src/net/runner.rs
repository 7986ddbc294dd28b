//! The decisions of the simulation thread: what a datagram is, when the
//! free-running clock advances and what each turn of the main loop does.
//!
//! Three modes:
//!
//! * [`Mode::Realtime`] follows the wall clock, scaled by a speed.
//! * [`Mode::Fast`] never sleeps; vision is still generated on simulation time.
//! * [`Mode::Sync`] only advances on `SimulationSyncRequest`.
//!
//! In realtime and fast mode the free-running clock is paused while a sync
//! request has been seen within the last [`SYNC_HOLD`]. Times are nanoseconds.
use vstd::prelude::*;

use crate::double::{Double, lemma_powers};
use crate::net::control::Outcome;
use crate::net::control::ControlOutcome;
use crate::net::convert;
use crate::net::sim;
use crate::net::wire;
use crate::text;

verus! {

/// While a sync request has been seen this recently, the free-running clock is
/// paused.
pub const SYNC_HOLD: u64 = 1_000_000_000;

/// Longest single sleep in the realtime loop, so incoming datagrams stay
/// responsive.
pub const MAX_SLEEP: u64 = 5_000_000;

/// Spin-wait the last part of a sleep for timer accuracy.
pub const SPIN_MARGIN: u64 = 500_000;

/// How often the status line is written.
pub const REPORT_INTERVAL: u64 = 1_000_000_000;

/// How the runner drives simulation time.
#[derive(Clone, Copy, Debug, PartialEq, Eq, Structural)]
pub enum Mode {
    /// Follow the wall clock, scaled by a speed.
    Realtime,
    /// Run as fast as the machine allows.
    Fast,
    /// Only advance on `SimulationSyncRequest`.
    Sync,
}

impl Default for Mode {
    /// Following the wall clock.
    fn default() -> (res: Self)
        ensures
            res == Mode::Realtime,
    {
        Mode::Realtime
    }
}

/// The mode with this name, in any case of letters.
pub open spec fn mode_named(s: Seq<char>) -> Option<Mode> {
    let l = text::lowered(s);
    if l == "realtime"@ || l == "real-time"@ {
        Some(Mode::Realtime)
    } else if l == "fast"@ {
        Some(Mode::Fast)
    } else if l == "sync"@ {
        Some(Mode::Sync)
    } else {
        None
    }
}

impl Mode {
    /// The mode's name.
    pub open spec fn spec_name(self) -> Seq<char> {
        match self {
            Mode::Realtime => "realtime"@,
            Mode::Fast => "fast"@,
            Mode::Sync => "sync"@,
        }
    }

    /// The mode's name.
    pub fn name(self) -> (res: &'static str)
        ensures
            res@ == self.spec_name(),
    {
        match self {
            Mode::Realtime => "realtime",
            Mode::Fast => "fast",
            Mode::Sync => "sync",
        }
    }

    /// The mode with this name, in any case of letters; else a text that says
    /// which names there are.
    pub fn from_name(s: &str) -> (res: Result<Mode, String>)
        ensures
            match res {
                Ok(m) => mode_named(s@) == Some(m),
                Err(e) => mode_named(s@) is None && e@ == ("unknown mode `"@ + text::lowered(s@))
                    + "` (realtime|fast|sync)"@,
            },
    {
        let l = text::to_lower(s);
        if text::same(l.as_str(), "realtime") || text::same(l.as_str(), "real-time") {
            Ok(Mode::Realtime)
        } else if text::same(l.as_str(), "fast") {
            Ok(Mode::Fast)
        } else if text::same(l.as_str(), "sync") {
            Ok(Mode::Sync)
        } else {
            let head = text::join("unknown mode `", l.as_str());
            Err(text::join(head.as_str(), "` (realtime|fast|sync)"))
        }
    }
}

/// A mode's name names that mode.
pub proof fn law_mode_name_round_trip(m: Mode)
    ensures
        mode_named(m.spec_name()) == Some(m),
{
    reveal_strlit("realtime");
    reveal_strlit("real-time");
    reveal_strlit("fast");
    reveal_strlit("sync");
    assert(text::lowered("realtime"@) =~= "realtime"@);
    assert(text::lowered("fast"@) =~= "fast"@);
    assert(text::lowered("sync"@) =~= "sync"@);
    assert("fast"@[0] != "sync"@[0]);
}

// ---------------------------------------------------------------- datagrams

/// What a datagram on the control port is.
#[derive(Clone, Copy, Debug, PartialEq, Eq, Structural)]
pub enum ControlMessage {
    /// A `SimulatorCommand`.
    Command,
    /// A `SimulationSyncRequest`.
    Sync,
    /// Neither.
    Unreadable,
}

/// What a datagram on the control port is, given which of the two messages it
/// can be read as: a sync request when it is shaped like one; else a command
/// when it can be read as one; else a sync request.
pub open spec fn control_message(b: Seq<u8>, as_sync: bool, as_command: bool) -> ControlMessage {
    if as_sync && (wire::sync_shaped(b, false) || !as_command) {
        ControlMessage::Sync
    } else if as_command {
        ControlMessage::Command
    } else {
        ControlMessage::Unreadable
    }
}

/// What a datagram on the control port is; `as_sync` and `as_command` say which
/// of the two messages it can be read as.
pub fn classify_control(bytes: &[u8], as_sync: bool, as_command: bool) -> (res: ControlMessage)
    ensures
        res == control_message(bytes@, as_sync, as_command),
{
    if wire::looks_like_sync(bytes, false) && as_sync {
        return ControlMessage::Sync;
    }
    if as_command {
        ControlMessage::Command
    } else if as_sync {
        ControlMessage::Sync
    } else {
        ControlMessage::Unreadable
    }
}

/// What a datagram on a team port is.
#[derive(Clone, Copy, Debug, PartialEq, Eq, Structural)]
pub enum TeamMessage {
    /// A `RobotControl`.
    RobotControl,
    /// A `SimulationSyncRequest`.
    Sync,
    /// Neither.
    Unreadable,
}

/// What a datagram on a team port is, given which of the two messages it can be
/// read as: a sync request only when it is shaped like one.
pub open spec fn team_message(b: Seq<u8>, as_sync: bool, as_control: bool) -> TeamMessage {
    if as_sync && wire::sync_shaped(b, true) {
        TeamMessage::Sync
    } else if as_control {
        TeamMessage::RobotControl
    } else {
        TeamMessage::Unreadable
    }
}

/// What a datagram on a team port is; `as_sync` and `as_control` say which of
/// the two messages it can be read as.
pub fn classify_team(bytes: &[u8], as_sync: bool, as_control: bool) -> (res: TeamMessage)
    ensures
        res == team_message(bytes@, as_sync, as_control),
{
    if wire::looks_like_sync(bytes, true) && as_sync {
        TeamMessage::Sync
    } else if as_control {
        TeamMessage::RobotControl
    } else {
        TeamMessage::Unreadable
    }
}

/// The answer to an unreadable datagram on the control port.
pub fn unreadable_control() -> (res: sim::SimulatorResponse)
    ensures
        sim::errors_view(res.errors@) == seq![
            convert::error_view(
                "UNREADABLE"@,
                "the received message was unreadable as SimulatorCommand or SimulationSyncRequest"@,
            ),
        ],
{
    let e = convert::error(
        "UNREADABLE",
        "the received message was unreadable as SimulatorCommand or SimulationSyncRequest",
    );
    let mut errors: Vec<sim::SimulatorError> = Vec::new();
    errors.push(e);
    assert(sim::errors_view(errors@) =~= seq![e@]);
    sim::SimulatorResponse { errors }
}

/// The answer to an unreadable datagram on a team port.
pub fn unreadable_team() -> (res: sim::RobotControlResponse)
    ensures
        sim::errors_view(res.errors@) == seq![
            convert::error_view(
                "UNREADABLE"@,
                "the received message was unreadable as RobotControl or SimulationSyncRequest"@,
            ),
        ],
        res.feedback@.len() == 0,
{
    let e = convert::error(
        "UNREADABLE",
        "the received message was unreadable as RobotControl or SimulationSyncRequest",
    );
    let mut errors: Vec<sim::SimulatorError> = Vec::new();
    errors.push(e);
    assert(sim::errors_view(errors@) =~= seq![e@]);
    sim::RobotControlResponse { errors, feedback: Vec::new() }
}

/// A datagram is only unreadable when neither message can be read from it, on the
/// control port; on a team port a `RobotControl` that can be read is never
/// unreadable, and one that has only commands in it is never taken for a sync
/// request.
pub proof fn law_readable_datagrams_are_answered(b: Seq<u8>, as_sync: bool, as_primary: bool)
    ensures
        control_message(b, as_sync, as_primary) is Unreadable <==> !as_sync && !as_primary,
        as_primary ==> !(team_message(b, as_sync, as_primary) is Unreadable),
        (as_primary && forall|i: int|
            0 <= i < wire::fields(b).len() ==> #[trigger] wire::fields(b)[i] == (1u32, 2u8))
            ==> team_message(b, as_sync, as_primary) is RobotControl,
{
}

// ---------------------------------------------------------------- clock

/// Whether the free-running clock advances: it is not paused and no sync request
/// was seen within the last [`SYNC_HOLD`].
pub open spec fn runs_free(speed: Double, since_sync: Option<u64>) -> bool {
    &&& !speed.le(Double::zero())
    &&& match since_sync {
        Some(ns) => ns >= SYNC_HOLD,
        None => true,
    }
}

/// True when the free-running clock should advance; `since_sync` is the time
/// since the last sync request, if there was one.
pub fn free_running(speed: Double, since_sync: Option<u64>) -> (res: bool)
    ensures
        res == runs_free(speed, since_sync),
{
    if speed.is_at_most(Double::zero()) {
        return false;
    }
    match since_sync {
        Some(ns) => ns >= SYNC_HOLD,
        None => true,
    }
}

/// What a turn of the main loop does with the clock.
#[derive(Clone, Copy, Debug, PartialEq, Eq, Structural)]
pub enum Turn {
    /// The run is over.
    Stop,
    /// Wait for a datagram and handle what arrived; time stands still.
    AwaitRequest,
    /// Handle what arrived; hold the clock and forget accumulated time.
    Hold,
    /// Handle what arrived; take one substep.
    StepOnce,
    /// Handle what arrived; take as many substeps as wall time has accumulated.
    CatchUp,
}

/// What a turn of the main loop does.
pub open spec fn turn(mode: Mode, elapsed: u64, limit: Option<u64>, free: bool) -> Turn {
    if limit matches Some(l) && elapsed >= l {
        Turn::Stop
    } else {
        match mode {
            Mode::Sync => Turn::AwaitRequest,
            Mode::Fast => if free {
                Turn::StepOnce
            } else {
                Turn::Hold
            },
            Mode::Realtime => if free {
                Turn::CatchUp
            } else {
                Turn::Hold
            },
        }
    }
}

/// What a turn of the main loop does; `free` is whether the clock runs free.
pub fn next_turn(mode: Mode, elapsed: u64, limit: Option<u64>, free: bool) -> (res: Turn)
    ensures
        res == turn(mode, elapsed, limit, free),
{
    if let Some(l) = limit {
        if elapsed >= l {
            return Turn::Stop;
        }
    }
    match mode {
        Mode::Sync => Turn::AwaitRequest,
        Mode::Fast => if free {
            Turn::StepOnce
        } else {
            Turn::Hold
        },
        Mode::Realtime => if free {
            Turn::CatchUp
        } else {
            Turn::Hold
        },
    }
}

/// In sync mode the clock never advances by itself, whatever the speed and the
/// time of the last request; and in no mode does it while it is held.
pub proof fn law_sync_mode_never_free_runs(
    mode: Mode,
    elapsed: u64,
    limit: Option<u64>,
    free: bool,
)
    ensures
        mode is Sync || !free ==> {
            &&& turn(mode, elapsed, limit, free) != Turn::StepOnce
            &&& turn(mode, elapsed, limit, free) != Turn::CatchUp
        },
        limit is None ==> turn(mode, elapsed, limit, free) != Turn::Stop,
{
}

/// How long a pause sleeps before it spins.
pub open spec fn sleep_part(ns: u64) -> int {
    if ns > SPIN_MARGIN {
        ns - SPIN_MARGIN
    } else {
        0
    }
}

/// Split a pause of `ns` into a sleep and a spin-wait for the last
/// [`SPIN_MARGIN`]; the two make up the whole pause.
pub fn sleep_precise(ns: u64) -> (res: (u64, u64))
    ensures
        res.0 == sleep_part(ns),
        res.0 + res.1 == ns,
        res.1 <= SPIN_MARGIN,
{
    if ns > SPIN_MARGIN {
        (ns - SPIN_MARGIN, SPIN_MARGIN)
    } else {
        (0, ns)
    }
}

/// The pause after a turn in realtime mode: the time to the next substep, but at
/// most [`MAX_SLEEP`].
pub fn bounded_pause(wait: u64) -> (res: u64)
    ensures
        res == if wait < MAX_SLEEP {
            wait
        } else {
            MAX_SLEEP
        },
{
    if wait < MAX_SLEEP {
        wait
    } else {
        MAX_SLEEP
    }
}

/// Simulation time to catch up with at most in one turn: 0.25 s. A long stall is
/// not made up for, so it cannot spiral.
pub const MAX_CATCHUP: u64 = 0x3FD0_0000_0000_0000;

/// The simulation time to catch up with: what has accumulated, at most
/// [`MAX_CATCHUP`]; all of that when it is not a number.
pub open spec fn catch_up(accumulated: Double) -> Double {
    if accumulated.le(Double { bits: MAX_CATCHUP }) {
        accumulated
    } else {
        Double { bits: MAX_CATCHUP }
    }
}

/// The simulation time to catch up with.
pub fn capped(accumulated: Double) -> (res: Double)
    ensures
        res == catch_up(accumulated),
{
    if accumulated.is_at_most(Double::from_bits(MAX_CATCHUP)) {
        accumulated
    } else {
        Double::from_bits(MAX_CATCHUP)
    }
}

/// Whether a whole substep has accumulated.
pub fn substep_due(accumulated: Double, substep: Double) -> (res: bool)
    ensures
        res == substep.le(accumulated),
{
    substep.is_at_most(accumulated)
}

/// However long a stall was, no more than the cap is caught up with, and less is
/// caught up with in full.
pub proof fn law_catch_up_is_capped(accumulated: Double)
    ensures
        catch_up(accumulated).le(Double { bits: MAX_CATCHUP }),
        accumulated.le(Double { bits: MAX_CATCHUP }) ==> catch_up(accumulated) == accumulated,
        catch_up(catch_up(accumulated)) == catch_up(accumulated),
{
}

/// Whether the status line is due; `since` is the time since the last one.
pub fn report_due(since: u64) -> (res: bool)
    ensures
        res == (since >= REPORT_INTERVAL),
{
    since >= REPORT_INTERVAL
}

// ---------------------------------------------------------------- side effects

/// What the runner takes over from a command: the speed and the vision port,
/// where they are set.
pub fn apply_side_effects(outcome: &ControlOutcome, speed: &mut Double, port: &mut u16)
    ensures
        *final(speed) == convert::or_keep(outcome.simulation_speed, *old(speed)),
        *final(port) == convert::or_keep(outcome.vision_port, *old(port)),
{
    if let Some(s) = outcome.simulation_speed {
        *speed = s;
    }
    if let Some(p) = outcome.vision_port {
        *port = p;
    }
}

/// Taking over two outcomes one after the other is taking over their merge.
pub proof fn law_side_effects_follow_the_merge(a: Outcome, b: Outcome, speed: Double, port: u16)
    ensures
        convert::or_keep(crate::net::control::merged(a, b).1, speed) == convert::or_keep(
            b.1,
            convert::or_keep(a.1, speed),
        ),
        convert::or_keep(crate::net::control::merged(a, b).2, port) == convert::or_keep(
            b.2,
            convert::or_keep(a.2, port),
        ),
{
}

/// At most a quarter of a second is made up for.
pub proof fn law_catch_up_in_decimals()
    ensures
        (Double { bits: MAX_CATCHUP }).reads(25, 100),
        !(Double { bits: MAX_CATCHUP }).negative(),
{
    lemma_powers();
}

/// Modes go by their names, in any case of letters; real time also with a hyphen.
pub proof fn law_modes_go_by_their_names(s: Seq<char>, m: Mode)
    ensures
        m is Realtime ==> m.spec_name() == "realtime"@,
        m is Fast ==> m.spec_name() == "fast"@,
        m is Sync ==> m.spec_name() == "sync"@,
        text::lowered(s) == "realtime"@ || text::lowered(s) == "real-time"@ ==> mode_named(s) == Some(
            Mode::Realtime,
        ),
        mode_named(s) matches Some(n) ==> text::lowered(s) == n.spec_name() || (text::lowered(s)
            == "real-time"@ && n is Realtime),
        text::lowered(s) == m.spec_name() ==> mode_named(s) is Some,
{
}

/// On the control port what can only be read as one message is that message; what can be
/// read as both is a sync request if it is shaped like one, else a command. On a team
/// port a sync request must also be shaped like one.
pub proof fn law_datagrams_are_what_they_can_be_read_as(b: Seq<u8>)
    ensures
        control_message(b, true, false) is Sync,
        control_message(b, false, true) is Command,
        control_message(b, false, false) is Unreadable,
        control_message(b, true, true) is Sync <==> wire::sync_shaped(b, false),
        control_message(b, true, true) is Command <==> !wire::sync_shaped(b, false),
        team_message(b, false, true) is RobotControl,
        team_message(b, false, false) is Unreadable,
        team_message(b, true, true) is Sync <==> wire::sync_shaped(b, true),
        team_message(b, true, true) is RobotControl <==> !wire::sync_shaped(b, true),
        team_message(b, true, false) is Sync <==> wire::sync_shaped(b, true),
        team_message(b, true, false) is Unreadable <==> !wire::sync_shaped(b, true),
{
}

/// The clock stands while the speed is zero or below, and for one second after a sync
/// request; else it runs.
pub proof fn law_clock_stands(speed: Double, since_sync: Option<u64>)
    ensures
        speed.lt(Double::zero()) || speed.same(Double::zero()) ==> !runs_free(speed, since_sync),
        since_sync matches Some(ns) ==> (ns < 1_000_000_000 ==> !runs_free(speed, since_sync)),
        Double::zero().lt(speed) && (since_sync matches Some(ns) ==> ns >= 1_000_000_000) ==> runs_free(
            speed,
            since_sync,
        ),
        speed.nan() && since_sync is None ==> runs_free(speed, since_sync),
{
}

/// A run stops exactly when its time is up. Until then sync mode waits for a request,
/// a free clock takes one substep in fast mode and catches up in real time, and a clock
/// that is not free is held.
pub proof fn law_turns_by_mode(mode: Mode, elapsed: u64, limit: Option<u64>, free: bool)
    ensures
        ({
            let over = limit is Some && elapsed >= limit->0;
            &&& turn(mode, elapsed, limit, free) is Stop <==> over
            &&& turn(mode, elapsed, limit, free) is AwaitRequest <==> !over && mode is Sync
            &&& turn(mode, elapsed, limit, free) is StepOnce <==> !over && mode is Fast && free
            &&& turn(mode, elapsed, limit, free) is CatchUp <==> !over && mode is Realtime && free
            &&& turn(mode, elapsed, limit, free) is Hold <==> !over && !(mode is Sync) && !free
        }),
{
}

/// A pause sleeps but for its last half millisecond, which is spun; a pause no longer
/// than that is spun as a whole.
pub proof fn law_pauses_end_spinning(ns: u64)
    ensures
        ns >= 500_000 ==> sleep_part(ns) + 500_000 == ns,
        ns <= 500_000 ==> sleep_part(ns) == 0,
{
}

/// More time than a quarter of a second is caught up with as a quarter of a second, and
/// so is what is not a number.
pub proof fn law_long_stalls_count_as_the_cap(accumulated: Double)
    ensures
        (Double { bits: MAX_CATCHUP }).lt(accumulated) || accumulated.nan() ==> catch_up(accumulated).bits
            == MAX_CATCHUP,
        accumulated.lt(Double { bits: MAX_CATCHUP }) ==> catch_up(accumulated) == accumulated,
{
}

/// Pauses and reports are as long as they are said to be.
pub proof fn law_times_in_nanoseconds()
    ensures
        SYNC_HOLD == 1_000 * 1_000_000,
        MAX_SLEEP == 5 * 1_000_000,
        SPIN_MARGIN * 2 == 1_000_000,
        REPORT_INTERVAL == 1_000 * 1_000_000,
{
}

} // verus!
