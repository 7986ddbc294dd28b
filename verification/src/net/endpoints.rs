//! UDP endpoints: which sockets there are, on which ports, and what a receive
//! error means. Replies always go to the exact sender of the datagram that
//! caused them, from the socket it arrived on.
use vstd::prelude::*;

use crate::net::legacy::LEGACY_COMMAND_PORT;
use crate::net::world::Team;
use crate::text;

verus! {

/// Default control port (`SimulatorCommand` / `SimulationSyncRequest`).
pub const CONTROL_PORT: u16 = 10300;

/// Default blue `RobotControl` port.
pub const BLUE_PORT: u16 = 10301;

/// Default yellow `RobotControl` port.
pub const YELLOW_PORT: u16 = 10302;

/// Which socket a datagram arrived on.
#[derive(Clone, Copy, Debug, PartialEq, Eq, Hash, Structural)]
pub enum EndpointKind {
    /// Simulation control port.
    Control,
    /// Blue team robot control port.
    Blue,
    /// Yellow team robot control port.
    Yellow,
    /// Legacy grSim packet port.
    Legacy,
}

impl EndpointKind {
    /// Human readable name used in logs.
    pub open spec fn spec_name(self) -> Seq<char> {
        match self {
            EndpointKind::Control => "control"@,
            EndpointKind::Blue => "blue"@,
            EndpointKind::Yellow => "yellow"@,
            EndpointKind::Legacy => "legacy"@,
        }
    }

    /// Human readable name used in logs.
    pub fn name(self) -> (res: &'static str)
        ensures
            res@ == self.spec_name(),
    {
        match self {
            EndpointKind::Control => "control",
            EndpointKind::Blue => "blue",
            EndpointKind::Yellow => "yellow",
            EndpointKind::Legacy => "legacy",
        }
    }

    /// The team whose robots a datagram on this socket controls, if any.
    pub open spec fn spec_team(self) -> Option<Team> {
        match self {
            EndpointKind::Blue => Some(Team::Blue),
            EndpointKind::Yellow => Some(Team::Yellow),
            _ => None,
        }
    }

    /// The team whose robots a datagram on this socket controls, if any.
    pub fn team(self) -> (res: Option<Team>)
        ensures
            res == self.spec_team(),
    {
        match self {
            EndpointKind::Blue => Some(Team::Blue),
            EndpointKind::Yellow => Some(Team::Yellow),
            _ => None,
        }
    }
}

/// The socket on which a team sends its robot control.
pub fn team_endpoint(team: Team) -> (res: EndpointKind)
    ensures
        res.spec_team() == Some(team),
{
    match team {
        Team::Blue => EndpointKind::Blue,
        Team::Yellow => EndpointKind::Yellow,
    }
}

/// Ports to bind. `legacy` is `None` when the grSim adapter is disabled.
#[derive(Clone, Copy, Debug, PartialEq, Eq, Structural)]
pub struct EndpointPorts {
    /// Control port.
    pub control: u16,
    /// Blue robot control port.
    pub blue: u16,
    /// Yellow robot control port.
    pub yellow: u16,
    /// Legacy grSim port, or `None` to disable it.
    pub legacy: Option<u16>,
    /// Bind to `127.0.0.1` instead of `0.0.0.0`.
    pub localhost: bool,
}

impl Default for EndpointPorts {
    /// The standard ports, on all interfaces, with the grSim adapter.
    fn default() -> (res: Self)
        ensures
            res == (EndpointPorts {
                control: CONTROL_PORT,
                blue: BLUE_PORT,
                yellow: YELLOW_PORT,
                legacy: Some(LEGACY_COMMAND_PORT),
                localhost: false,
            }),
    {
        EndpointPorts {
            control: CONTROL_PORT,
            blue: BLUE_PORT,
            yellow: YELLOW_PORT,
            legacy: Some(LEGACY_COMMAND_PORT),
            localhost: false,
        }
    }
}

/// The sockets to bind, each with its port, in order.
pub open spec fn sockets(ports: EndpointPorts) -> Seq<(EndpointKind, u16)> {
    let always = seq![
        (EndpointKind::Control, ports.control),
        (EndpointKind::Blue, ports.blue),
        (EndpointKind::Yellow, ports.yellow),
    ];
    match ports.legacy {
        Some(p) => always.push((EndpointKind::Legacy, p)),
        None => always,
    }
}

impl EndpointPorts {
    /// The address to bind to.
    pub fn host(&self) -> (res: &'static str)
        ensures
            res@ == if self.localhost {
                "127.0.0.1"@
            } else {
                "0.0.0.0"@
            },
    {
        if self.localhost {
            "127.0.0.1"
        } else {
            "0.0.0.0"
        }
    }

    /// The sockets to bind, each with its port, in order.
    pub fn wanted(&self) -> (res: Vec<(EndpointKind, u16)>)
        ensures
            res@ == sockets(*self),
    {
        let mut out: Vec<(EndpointKind, u16)> = Vec::new();
        out.push((EndpointKind::Control, self.control));
        out.push((EndpointKind::Blue, self.blue));
        out.push((EndpointKind::Yellow, self.yellow));
        if let Some(p) = self.legacy {
            out.push((EndpointKind::Legacy, p));
        }
        assert(out@ =~= sockets(*self));
        out
    }
}

/// Where the socket of this kind stands among the bound ones.
pub fn socket_index(bound: &Vec<EndpointKind>, kind: EndpointKind) -> (res: Option<usize>)
    ensures
        match res {
            Some(i) => i < bound@.len() && bound@[i as int] == kind && forall|j: int|
                0 <= j < i ==> bound@[j] != kind,
            None => forall|j: int| 0 <= j < bound@.len() ==> bound@[j] != kind,
        },
{
    let mut i: usize = 0;
    while i < bound.len()
        invariant
            i <= bound@.len(),
            forall|j: int| 0 <= j < i ==> bound@[j] != kind,
        decreases bound.len() - i,
    {
        if bound[i] == kind {
            return Some(i);
        }
        i += 1;
    }
    None
}

/// The text of the error for a reply from a socket that is not bound.
pub fn unbound_message(kind: EndpointKind) -> (res: String)
    ensures
        res@ == ("no "@ + kind.spec_name()) + " socket bound"@,
{
    let head = text::join("no ", kind.name());
    text::join(head.as_str(), " socket bound")
}

/// Why a receive failed.
#[derive(Clone, Copy, Debug, PartialEq, Eq, Structural)]
pub enum ReceiveError {
    /// Nothing there yet.
    WouldBlock,
    /// Nothing came within the poll interval.
    TimedOut,
    /// An earlier send found no listener.
    ConnectionReset,
    /// Anything else.
    Other,
}

/// Whether a receiver goes on after an error: a timeout is how it polls, and a
/// reset from an earlier send is not fatal.
pub fn receives_on(e: ReceiveError) -> (res: bool)
    ensures
        res == !(e is Other),
{
    match e {
        ReceiveError::Other => false,
        _ => true,
    }
}

/// Every kind of socket is bound at most once, the control and team sockets
/// always, and the legacy socket exactly when it has a port.
pub proof fn law_sockets_are_distinct(ports: EndpointPorts)
    ensures
        forall|i: int, j: int|
            0 <= i < j < sockets(ports).len() ==> (#[trigger] sockets(ports)[i]).0 != (
            #[trigger] sockets(ports)[j]).0,
        sockets(ports).len() == 3 + (if ports.legacy is Some {
            1int
        } else {
            0
        }),
{
}

/// The team sockets are those of their teams, and no others have a team; each socket
/// goes by its own name.
pub proof fn law_sockets_of_teams(k: EndpointKind)
    ensures
        k.spec_team() == Some(Team::Blue) <==> k is Blue,
        k.spec_team() == Some(Team::Yellow) <==> k is Yellow,
        k is Control ==> k.spec_name() == "control"@,
        k is Blue ==> k.spec_name() == "blue"@,
        k is Yellow ==> k.spec_name() == "yellow"@,
        k is Legacy ==> k.spec_name() == "legacy"@,
{
}

/// Each socket is bound to its own port: the control port first, then the blue and the
/// yellow one, and the legacy one last where there is one.
pub proof fn law_sockets_have_their_ports(ports: EndpointPorts)
    ensures
        sockets(ports)[0].0 is Control && sockets(ports)[0].1 == ports.control,
        sockets(ports)[1].0 is Blue && sockets(ports)[1].1 == ports.blue,
        sockets(ports)[2].0 is Yellow && sockets(ports)[2].1 == ports.yellow,
        ports.legacy matches Some(p) ==> sockets(ports).len() == 4 && sockets(ports)[3].0 is Legacy
            && sockets(ports)[3].1 == p,
        ports.legacy is None ==> sockets(ports).len() == 3,
{
}

/// The default ports follow each other.
pub proof fn law_default_ports()
    ensures
        CONTROL_PORT == 10300,
        BLUE_PORT == CONTROL_PORT + 1,
        YELLOW_PORT == BLUE_PORT + 1,
{
}

} // verus!
