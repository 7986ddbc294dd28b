//! Mouse interaction: hit tests, dragging, rotating and the commands they send.
//!
//! Positions on the field and squared distances are computed outside.
use vstd::prelude::*;

use crate::double::Double;
use crate::net::convert;
use crate::net::sim;
use crate::net::packets::RobotMessage;
use crate::viewer::state::{since, Merged, Seen};

verus! {

/// Teleports are streamed while dragging; cap them at 60 per second.
pub const TELEPORT_PERIOD: u64 = 16_667_000;

/// Identifies a robot in the viewer: whether it is blue, and its id.
pub type RobotKey = (bool, u32);

/// What is being dragged.
#[derive(Clone, Copy, Debug, PartialEq, Eq)]
pub enum Drag {
    /// The ball.
    Ball,
    /// A robot.
    Robot(RobotKey),
}

// ---------------------------------------------------------------- hit tests

/// A robot that can be hit, where the cameras saw it.
#[derive(Clone, Copy, Debug, PartialEq, Eq)]
pub struct RobotHit {
    /// Which robot.
    pub key: RobotKey,
    /// Along the field.
    pub x: Double,
    /// Across the field.
    pub y: Double,
    /// Orientation, 0 where the camera reported none.
    pub orientation: Double,
}

/// The robots of one team that have an id, in order.
pub open spec fn hits_of(robots: Seq<Seen<RobotMessage>>, blue: bool) -> Seq<RobotHit>
    decreases robots.len(),
{
    if robots.len() == 0 {
        seq![]
    } else {
        let before = hits_of(robots.drop_last(), blue);
        let r = robots.last().value;
        match r.robot_id {
            Some(id) => before.push(
                RobotHit {
                    key: (blue, id),
                    x: r.x,
                    y: r.y,
                    orientation: match r.orientation {
                        Some(o) => o,
                        None => Double::zero(),
                    },
                },
            ),
            None => before,
        }
    }
}

fn collect_hits(robots: &Vec<Seen<RobotMessage>>, blue: bool, out: &mut Vec<RobotHit>)
    ensures
        final(out)@ == old(out)@ + hits_of(robots@, blue),
{
    let ghost start = out@;
    let mut i: usize = 0;
    while i < robots.len()
        invariant
            i <= robots@.len(),
            out@ == start + hits_of(robots@.take(i as int), blue),
        decreases robots.len() - i,
    {
        assert(robots@.take(i + 1).drop_last() =~= robots@.take(i as int));
        let r = robots[i].value;
        if let Some(id) = r.robot_id {
            out.push(
                RobotHit {
                    key: (blue, id),
                    x: r.x,
                    y: r.y,
                    orientation: r.orientation.unwrap_or(Double::zero()),
                },
            );
        }
        i += 1;
        assert(out@ =~= start + hits_of(robots@.take(i as int), blue));
    }
    assert(robots@.take(i as int) =~= robots@);
}

/// Every robot with an id, blue ones first.
pub fn robot_hits(merged: &Merged) -> (res: Vec<RobotHit>)
    ensures
        res@ == hits_of(merged.blue@, true) + hits_of(merged.yellow@, false),
{
    let mut out: Vec<RobotHit> = Vec::new();
    collect_hits(&merged.blue, true, &mut out);
    collect_hits(&merged.yellow, false, &mut out);
    assert(out@ =~= hits_of(merged.blue@, true) + hits_of(merged.yellow@, false));
    out
}

/// `i` is the first of the least distances among those within the limit.
pub open spec fn is_nearest(distances: Seq<Double>, limit: Double, i: int) -> bool {
    &&& 0 <= i < distances.len()
    &&& distances[i].le(limit)
    &&& forall|j: int|
        0 <= j < distances.len() && (#[trigger] distances[j]).le(limit) ==> if j < i {
            distances[i].lt(distances[j])
        } else {
            distances[i].le(distances[j])
        }
}

/// The nearest of some points whose (squared) distance is within a limit, if
/// any; the first one among equals.
pub fn nearest_robot(distances: &Vec<Double>, limit: Double) -> (res: Option<usize>)
    ensures
        match res {
            Some(i) => is_nearest(distances@, limit, i as int),
            None => forall|j: int|
                0 <= j < distances@.len() ==> !(#[trigger] distances@[j]).le(limit),
        },
{
    let mut best: Option<usize> = None;
    let mut i: usize = 0;
    while i < distances.len()
        invariant
            i <= distances@.len(),
            match best {
                Some(b) => b < i && is_nearest(distances@.take(i as int), limit, b as int),
                None => forall|j: int| 0 <= j < i ==> !(#[trigger] distances@[j]).le(limit),
            },
        decreases distances.len() - i,
    {
        let d = distances[i];
        let ghost seen = distances@.take(i as int);
        let ghost now = distances@.take(i + 1);
        assert(now =~= seen.push(d));
        if d.is_at_most(limit) {
            match best {
                Some(b) => {
                    assert(now[b as int] == seen[b as int]);
                    if d.is_less(distances[b]) {
                        best = Some(i);
                        assert forall|j: int| 0 <= j < now.len() && (#[trigger] now[j]).le(
                            limit,
                        ) implies if j < i {
                            now[i as int].lt(now[j])
                        } else {
                            now[i as int].le(now[j])
                        } by {
                            if j < i {
                                assert(seen[j] == now[j]);
                            }
                        }
                    } else {
                        assert forall|j: int| 0 <= j < now.len() && (#[trigger] now[j]).le(
                            limit,
                        ) implies if j < b {
                            now[b as int].lt(now[j])
                        } else {
                            now[b as int].le(now[j])
                        } by {
                            if j < i {
                                assert(seen[j] == now[j]);
                            }
                        }
                    }
                },
                None => {
                    best = Some(i);
                    assert forall|j: int| 0 <= j < now.len() && (#[trigger] now[j]).le(
                        limit,
                    ) implies j == i by {
                        if j < i {
                            assert(!distances@[j].le(limit));
                        }
                    }
                },
            }
        } else {
            if let Some(b) = best {
                assert forall|j: int| 0 <= j < now.len() && (#[trigger] now[j]).le(
                    limit,
                ) implies if j < b {
                    now[b as int].lt(now[j])
                } else {
                    now[b as int].le(now[j])
                } by {
                    if j < i {
                        assert(seen[j] == now[j]);
                    }
                }
            }
        }
        i += 1;
    }
    assert(distances@.take(i as int) =~= distances@);
    best
}

/// `i` is the first hit with this key.
pub open spec fn is_first_hit(hits: Seq<RobotHit>, key: RobotKey, i: int) -> bool {
    &&& 0 <= i < hits.len()
    &&& hits[i].key == key
    &&& forall|j: int| 0 <= j < i ==> (#[trigger] hits[j]).key != key
}

/// Whether a robot was seen.
pub open spec fn has_hit(hits: Seq<RobotHit>, key: RobotKey) -> bool {
    exists|i: int| is_first_hit(hits, key, i)
}

/// The first hit of a robot.
pub open spec fn first_hit(hits: Seq<RobotHit>, key: RobotKey) -> RobotHit {
    hits[choose|i: int| is_first_hit(hits, key, i)]
}

/// The first hit of a robot, if it was seen.
pub fn find_robot(hits: &Vec<RobotHit>, key: RobotKey) -> (res: Option<RobotHit>)
    ensures
        match res {
            Some(h) => has_hit(hits@, key) && h == first_hit(hits@, key),
            None => !has_hit(hits@, key),
        },
{
    let mut i: usize = 0;
    while i < hits.len()
        invariant
            i <= hits@.len(),
            forall|j: int| 0 <= j < i ==> (#[trigger] hits@[j]).key != key,
        decreases hits.len() - i,
    {
        if hits[i].key.0 == key.0 && hits[i].key.1 == key.1 {
            assert(is_first_hit(hits@, key, i as int));
            assert forall|k: int| is_first_hit(hits@, key, k) implies k == i by {
                if k < i {
                    assert(hits@[k].key != key);
                }
            }
            return Some(hits[i]);
        }
        i += 1;
    }
    None
}

/// Whether any ball is within a (squared) distance.
pub fn near_ball(distances: &Vec<Double>, limit: Double) -> (res: bool)
    ensures
        res == exists|i: int| 0 <= i < distances@.len() && (#[trigger] distances@[i]).le(limit),
{
    let mut i: usize = 0;
    while i < distances.len()
        invariant
            i <= distances@.len(),
            forall|j: int| 0 <= j < i ==> !(#[trigger] distances@[j]).le(limit),
        decreases distances.len() - i,
    {
        if distances[i].is_at_most(limit) {
            return true;
        }
        i += 1;
    }
    false
}

// ---------------------------------------------------------------- dragging

/// What the mouse did during one frame of the UI.
#[derive(Clone, Copy, Debug, PartialEq, Eq)]
pub struct Input {
    /// The pointer is over the field.
    pub pointer: bool,
    /// The field is hovered.
    pub hovered: bool,
    /// Some button drags.
    pub dragged: bool,
    /// A drag with the primary button began.
    pub primary_started: bool,
    /// A drag with the secondary button began.
    pub secondary_started: bool,
    /// The primary button drags.
    pub primary_dragged: bool,
    /// The secondary button drags.
    pub secondary_dragged: bool,
    /// A drag ended.
    pub stopped: bool,
    /// The middle button was clicked.
    pub middle_clicked: bool,
    /// The cursor is near a ball.
    pub near_ball: bool,
    /// The robot under the cursor.
    pub nearest: Option<RobotKey>,
}

/// A command to send, for the place under the cursor.
#[derive(Clone, Copy, Debug, PartialEq, Eq)]
pub enum Action {
    /// Put the ball there.
    PlaceBall,
    /// Put the robot there, with this orientation.
    PlaceRobot(RobotKey, Double),
}

/// Where the interaction stands.
#[derive(Clone, Copy, Debug, PartialEq, Eq)]
pub struct Interaction {
    /// What is being dragged.
    pub drag: Option<Drag>,
    /// When the last streamed teleport was sent.
    pub last_teleport: Option<u64>,
    /// The highlighted robot.
    pub selected: Option<RobotKey>,
    /// Orientation the user has scrolled a robot to, overriding detection.
    pub rotation: Option<(RobotKey, Double)>,
}

impl Interaction {
    /// Nothing dragged, nothing selected.
    pub fn new() -> (res: Self)
        ensures
            res.drag is None,
            res.last_teleport is None,
            res.selected is None,
            res.rotation is None,
    {
        Interaction { drag: None, last_teleport: None, selected: None, rotation: None }
    }

    /// Whether enough time has passed since the last streamed teleport.
    pub open spec fn due(self, now: u64) -> bool {
        match self.last_teleport {
            Some(t) => since(t, now) >= TELEPORT_PERIOD,
            None => true,
        }
    }

    /// What is dragged while this input is handled: a drag with the primary
    /// button that began near a ball takes the ball, one with the secondary
    /// button that began on a robot takes the robot.
    pub open spec fn drag_during(self, input: Input) -> Option<Drag> {
        if input.secondary_started {
            match input.nearest {
                Some(k) => Some(Drag::Robot(k)),
                None => None,
            }
        } else if input.primary_started {
            if input.near_ball {
                Some(Drag::Ball)
            } else {
                None
            }
        } else {
            self.drag
        }
    }

    /// Whether this input moves what is dragged.
    pub open spec fn moves(self, input: Input) -> bool {
        match self.drag_during(input) {
            Some(Drag::Ball) => input.primary_dragged,
            Some(Drag::Robot(_)) => input.secondary_dragged,
            None => false,
        }
    }

    /// The robot highlighted after this input: the dragged one, else the one
    /// under the cursor while the field is hovered.
    pub open spec fn selected_after(self, input: Input) -> Option<RobotKey> {
        match self.drag {
            Some(Drag::Robot(k)) => Some(k),
            _ => if input.hovered {
                input.nearest
            } else {
                self.selected
            },
        }
    }

    /// Orientation to keep when teleporting: whatever the user last scrolled this
    /// robot to, otherwise the orientation from the latest detection, else 0.
    pub open spec fn kept_orientation(self, key: RobotKey, hits: Seq<RobotHit>) -> Double {
        if self.rotation matches Some((k, o)) && k == key {
            self.rotation.unwrap().1
        } else if has_hit(hits, key) {
            first_hit(hits, key).orientation
        } else {
            Double::zero()
        }
    }

    /// The commands that an input sends: a streamed teleport of what is dragged,
    /// when one is due, then the ball on a middle click.
    pub open spec fn actions(self, input: Input, hits: Seq<RobotHit>, now: u64) -> Seq<Action> {
        let streamed = if self.moves(input) && self.due(now) {
            match self.drag_during(input)->0 {
                Drag::Ball => seq![Action::PlaceBall],
                Drag::Robot(k) => seq![Action::PlaceRobot(k, self.kept_orientation(k, hits))],
            }
        } else {
            seq![]
        };
        if input.middle_clicked {
            streamed.push(Action::PlaceBall)
        } else {
            streamed
        }
    }

    /// Where the interaction stands after an input.
    pub open spec fn after(self, input: Input, now: u64) -> Interaction {
        if !input.pointer {
            Interaction {
                drag: if input.dragged {
                    self.drag
                } else {
                    None
                },
                ..self
            }
        } else {
            Interaction {
                drag: if input.stopped {
                    None
                } else {
                    self.drag_during(input)
                },
                last_teleport: if input.stopped {
                    None
                } else if self.moves(input) && self.due(now) {
                    Some(now)
                } else {
                    self.last_teleport
                },
                selected: self.selected_after(input),
                rotation: self.rotation,
            }
        }
    }

    /// True if enough time has passed since the last streamed teleport, which is
    /// then taken to be now.
    pub fn teleport_due(&mut self, now: u64) -> (res: bool)
        ensures
            res == old(self).due(now),
            *final(self) == (Interaction {
                last_teleport: if old(self).due(now) {
                    Some(now)
                } else {
                    old(self).last_teleport
                },
                ..*old(self)
            }),
    {
        let due = match self.last_teleport {
            Some(t) => now >= t && now - t >= TELEPORT_PERIOD,
            None => true,
        };
        if due {
            self.last_teleport = Some(now);
        }
        due
    }

    /// Orientation to keep when teleporting: whatever the user last scrolled this
    /// robot to, otherwise the orientation from the latest detection.
    pub fn orientation_of(&self, key: RobotKey, hits: &Vec<RobotHit>) -> (res: Double)
        ensures
            res == self.kept_orientation(key, hits@),
    {
        if let Some((k, o)) = self.rotation {
            if k.0 == key.0 && k.1 == key.1 {
                return o;
            }
        }
        match find_robot(hits, key) {
            Some(h) => h.orientation,
            None => Double::zero(),
        }
    }

    /// Handle one frame of mouse input; returns the commands to send, in order.
    pub fn handle_input(&mut self, input: &Input, hits: &Vec<RobotHit>, now: u64) -> (res: Vec<
        Action,
    >)
        ensures
            *final(self) == old(self).after(*input, now),
            res@ == if input.pointer {
                old(self).actions(*input, hits@, now)
            } else {
                Seq::empty()
            },
    {
        let mut out: Vec<Action> = Vec::new();
        if !input.pointer {
            if !input.dragged {
                self.drag = None;
            }
            return out;
        }
        // Hover selection, frozen while dragging a robot.
        match self.drag {
            Some(Drag::Robot(key)) => {
                self.selected = Some(key);
            },
            _ => {
                if input.hovered {
                    self.selected = input.nearest;
                }
            },
        }
        if input.primary_started {
            self.drag = if input.near_ball {
                Some(Drag::Ball)
            } else {
                None
            };
        }
        if input.secondary_started {
            self.drag = match input.nearest {
                Some(k) => Some(Drag::Robot(k)),
                None => None,
            };
        }
        match self.drag {
            Some(Drag::Ball) => {
                if input.primary_dragged && self.teleport_due(now) {
                    out.push(Action::PlaceBall);
                }
            },
            Some(Drag::Robot(key)) => {
                if input.secondary_dragged && self.teleport_due(now) {
                    let orientation = self.orientation_of(key, hits);
                    out.push(Action::PlaceRobot(key, orientation));
                }
            },
            None => {},
        }
        if input.stopped {
            self.drag = None;
            self.last_teleport = None;
        }
        if input.middle_clicked {
            out.push(Action::PlaceBall);
        }
        assert(out@ =~= old(self).actions(*input, hits@, now));
        out
    }

    /// The robot that scrolling rotates, where it stands and how it is turned:
    /// the selected one, when it was seen.
    pub fn rotation_target(&self, hits: &Vec<RobotHit>) -> (res: Option<(RobotHit, Double)>)
        ensures
            match self.selected {
                Some(k) => if has_hit(hits@, k) {
                    res == Some((first_hit(hits@, k), self.kept_orientation(k, hits@)))
                } else {
                    res is None
                },
                None => res is None,
            },
    {
        match self.selected {
            Some(k) => match find_robot(hits, k) {
                Some(h) => Some((h, self.orientation_of(k, hits))),
                None => None,
            },
            None => None,
        }
    }

    /// Remember the orientation that the user scrolled a robot to.
    pub fn set_rotation(&mut self, key: RobotKey, orientation: Double)
        ensures
            *final(self) == (Interaction { rotation: Some((key, orientation)), ..*old(self) }),
    {
        self.rotation = Some((key, orientation));
    }
}

// ---------------------------------------------------------------- commands

/// The control message that puts the ball at rest on the field.
pub open spec fn ball_placement(x: Double, y: Double) -> sim::TeleportBall {
    sim::TeleportBall {
        x: Some(x),
        y: Some(y),
        z: Some(Double::zero()),
        vx: Some(Double::zero()),
        vy: Some(Double::zero()),
        vz: Some(Double::zero()),
        teleport_safely: Some(false),
        roll: None,
        by_force: Some(false),
    }
}

/// The control message that puts a robot at rest on the field.
pub open spec fn robot_placement(
    key: RobotKey,
    x: Double,
    y: Double,
    orientation: Double,
) -> sim::TeleportRobot {
    sim::TeleportRobot {
        id: sim::RobotId {
            id: Some(key.1),
            team: Some(
                if key.0 {
                    sim::TEAM_BLUE
                } else {
                    sim::TEAM_YELLOW
                },
            ),
        },
        x: Some(x),
        y: Some(y),
        orientation: Some(orientation),
        v_x: Some(Double::zero()),
        v_y: Some(Double::zero()),
        v_angular: Some(Double::zero()),
        present: Some(true),
        by_force: Some(false),
    }
}

/// The command that sets the simulation speed.
pub fn speed_command(speed: Double) -> (res: sim::SimulatorControl)
    ensures
        res.simulation_speed == Some(speed),
        res.teleport_ball is None,
        res.teleport_robot@.len() == 0,
{
    sim::SimulatorControl {
        teleport_ball: None,
        teleport_robot: Vec::new(),
        simulation_speed: Some(speed),
    }
}

/// The command that puts the ball at rest at a place.
pub fn teleport_ball_command(x: Double, y: Double) -> (res: sim::SimulatorControl)
    ensures
        res.teleport_ball == Some(ball_placement(x, y)),
        res.teleport_robot@.len() == 0,
        res.simulation_speed is None,
{
    sim::SimulatorControl {
        teleport_ball: Some(
            sim::TeleportBall {
                x: Some(x),
                y: Some(y),
                z: Some(Double::zero()),
                vx: Some(Double::zero()),
                vy: Some(Double::zero()),
                vz: Some(Double::zero()),
                teleport_safely: Some(false),
                roll: None,
                by_force: Some(false),
            },
        ),
        teleport_robot: Vec::new(),
        simulation_speed: None,
    }
}

/// The command that puts a robot at rest at a place.
pub fn teleport_robot_command(key: RobotKey, x: Double, y: Double, orientation: Double) -> (res:
    sim::SimulatorControl)
    ensures
        res.teleport_robot@ == seq![robot_placement(key, x, y, orientation)],
        res.teleport_ball is None,
        res.simulation_speed is None,
{
    let mut robots: Vec<sim::TeleportRobot> = Vec::new();
    robots.push(
        sim::TeleportRobot {
            id: sim::RobotId {
                id: Some(key.1),
                team: Some(
                    if key.0 {
                        sim::TEAM_BLUE
                    } else {
                        sim::TEAM_YELLOW
                    },
                ),
            },
            x: Some(x),
            y: Some(y),
            orientation: Some(orientation),
            v_x: Some(Double::zero()),
            v_y: Some(Double::zero()),
            v_angular: Some(Double::zero()),
            present: Some(true),
            by_force: Some(false),
        },
    );
    sim::SimulatorControl { teleport_ball: None, teleport_robot: robots, simulation_speed: None }
}

/// What the viewer sends, the simulator takes: a ball placement is never refused,
/// nor is a robot placement for a robot number that exists, and both put the
/// object at the place asked for.
pub proof fn law_placements_are_accepted(
    key: RobotKey,
    x: Double,
    y: Double,
    orientation: Double,
)
    requires
        key.1 <= 255,
    ensures
        convert::ball_refusal(ball_placement(x, y)) is None,
        convert::ball_request(ball_placement(x, y)).position matches Some(p) && p.x == x && p.y == y,
        convert::robot_refusal(robot_placement(key, x, y, orientation)) is None,
        convert::robot_request(robot_placement(key, x, y, orientation)).position matches Some(p)
            && p.x == x && p.y == y,
        convert::robot_request(robot_placement(key, x, y, orientation)).id.number == key.1,
{
}

/// Dragging streams at most one teleport per [`TELEPORT_PERIOD`]: right after one
/// none is sent until the period is over, unless the drag is let go.
pub proof fn law_teleports_are_rate_limited(
    s: Interaction,
    input: Input,
    next: Input,
    hits: Seq<RobotHit>,
    now: u64,
    later: u64,
)
    requires
        input.pointer,
        next.pointer,
        s.moves(input),
        s.due(now),
        !input.stopped,
        now <= later < now + TELEPORT_PERIOD,
    ensures
        s.after(input, now).actions(next, hits, later) == if next.middle_clicked {
            seq![Action::PlaceBall]
        } else {
            seq![]
        },
{
    assert(Seq::<Action>::empty().push(Action::PlaceBall) =~= seq![Action::PlaceBall]);
}

/// Letting go forgets the drag: no later input moves anything until a new drag
/// begins.
pub proof fn law_release_ends_the_drag(s: Interaction, input: Input, next: Input, now: u64)
    requires
        input.pointer,
        input.stopped,
        !next.primary_started,
        !next.secondary_started,
    ensures
        s.after(input, now).drag is None,
        !s.after(input, now).moves(next),
{
}

/// The robots that can be hit are those with an id, in order, each under its team and id
/// where it was seen; without an orientation it is taken as zero.
pub proof fn law_robots_with_an_id_can_be_hit(robots: Seq<Seen<RobotMessage>>, blue: bool)
    ensures
        ({
            let kept = robots.filter(|r: Seen<RobotMessage>| r.value.robot_id is Some);
            let hits = hits_of(robots, blue);
            &&& hits.len() == kept.len()
            &&& forall|i: int|
                0 <= i < hits.len() ==> {
                    let h = #[trigger] hits[i];
                    let r = kept[i].value;
                    &&& h.key.0 == blue
                    &&& Some(h.key.1) == r.robot_id
                    &&& h.x == r.x
                    &&& h.y == r.y
                    &&& r.orientation matches Some(o) ==> h.orientation == o
                    &&& r.orientation is None ==> h.orientation.bits == 0
                }
        }),
    decreases robots.len(),
{
    reveal(Seq::filter);
    if robots.len() > 0 {
        let rest = robots.drop_last();
        law_robots_with_an_id_can_be_hit(rest, blue);
        let f = |r: Seen<RobotMessage>| r.value.robot_id is Some;
        let kept = robots.filter(f);
        let hits = hits_of(robots, blue);
        let before = hits_of(rest, blue);
        assert forall|i: int| 0 <= i < hits.len() implies {
            let h = #[trigger] hits[i];
            let r = kept[i].value;
            &&& h.key.0 == blue
            &&& Some(h.key.1) == r.robot_id
            &&& h.x == r.x
            &&& h.y == r.y
            &&& r.orientation matches Some(o) ==> h.orientation == o
            &&& r.orientation is None ==> h.orientation.bits == 0
        } by {
            if i < before.len() {
                assert(hits[i] == before[i]);
                assert(kept[i] == rest.filter(f)[i]);
            }
        }
    }
}

/// The nearest is within the limit, none within it is nearer, and none before it is as
/// near.
pub proof fn law_nearest_is_within_the_limit(distances: Seq<Double>, limit: Double, i: int, j: int)
    requires
        is_nearest(distances, limit, i),
        0 <= j < distances.len(),
    ensures
        !limit.lt(distances[i]),
        !distances[i].nan(),
        !distances[j].lt(distances[i]),
        j < i && !distances[j].nan() ==> distances[i].lt(distances[j]),
{
    if !distances[j].nan() && !distances[j].le(limit) {
        assert(limit.lt(distances[j]));
    }
}

/// The first hit of a robot is the first with its key.
pub proof fn law_first_hit_of_a_robot(hits: Seq<RobotHit>, key: RobotKey, i: int, j: int)
    ensures
        is_first_hit(hits, key, i) ==> 0 <= i < hits.len() && hits[i].key == key && (0 <= j < i
            ==> hits[j].key != key) && has_hit(hits, key) && first_hit(hits, key) == hits[i],
        has_hit(hits, key) ==> first_hit(hits, key).key == key,
{
    if has_hit(hits, key) {
        let k = choose|k: int| is_first_hit(hits, key, k);
        assert(is_first_hit(hits, key, k));
        if is_first_hit(hits, key, i) {
            if k < i {
                assert(hits[k].key != key);
            } else if i < k {
                assert(hits[i].key != key);
            }
        }
    }
}

/// The secondary button drags the nearest robot, the primary one the ball if it is near;
/// a button that starts on nothing lets go, and without a start the drag goes on. The
/// secondary button goes first.
pub proof fn law_drags_start_with_a_button(s: Interaction, input: Input)
    ensures
        ({
            let d = s.drag_during(input);
            &&& input.secondary_started && input.nearest is Some ==> d == Some(
                Drag::Robot(input.nearest->0),
            )
            &&& input.secondary_started && input.nearest is None ==> d is None
            &&& !input.secondary_started && input.primary_started ==> (d == Some(Drag::Ball)
                <==> input.near_ball) && !(d is Some && d->0 is Robot)
            &&& !input.secondary_started && !input.primary_started ==> d == s.drag
        }),
{
}

/// The ball moves with the primary button and a robot with the secondary one, and nothing
/// without a drag.
pub proof fn law_drags_move_with_their_button(s: Interaction, input: Input)
    ensures
        s.drag_during(input) is None ==> !s.moves(input),
        s.drag_during(input) == Some(Drag::Ball) ==> (s.moves(input) <==> input.primary_dragged),
        s.drag_during(input) matches Some(Drag::Robot(k)) ==> (s.moves(input) <==> input.secondary_dragged),
{
}

/// A dragged robot is the one selected; else it is the nearest one under a hovering
/// pointer, and the last one without.
pub proof fn law_selection(s: Interaction, input: Input)
    ensures
        s.drag matches Some(Drag::Robot(k)) ==> s.selected_after(input) == Some(k),
        !(s.drag is Some && s.drag->0 is Robot) && input.hovered ==> s.selected_after(input) == input.nearest,
        !(s.drag is Some && s.drag->0 is Robot) && !input.hovered ==> s.selected_after(input) == s.selected,
{
}

/// A robot keeps the orientation that it was last rotated to, else the one it was seen
/// with, else none.
pub proof fn law_orientation_is_kept(s: Interaction, key: RobotKey, hits: Seq<RobotHit>)
    ensures
        ({
            let o = s.kept_orientation(key, hits);
            let rotated = s.rotation is Some && (s.rotation->0).0 == key;
            &&& rotated ==> o == (s.rotation->0).1
            &&& !rotated && has_hit(hits, key) ==> o == first_hit(hits, key).orientation
            &&& !rotated && !has_hit(hits, key) ==> o.bits == 0
        }),
{
}

/// What is dragged is placed under the pointer when it moves and a placement is due: the
/// ball, or the robot with its orientation. The middle button also places the ball.
pub proof fn law_actions_place_what_is_dragged(s: Interaction, input: Input, hits: Seq<RobotHit>, now: u64)
    ensures
        ({
            let a = s.actions(input, hits, now);
            let streams = s.moves(input) && (s.last_teleport is None || since(
                s.last_teleport->0,
                now,
            ) >= 16_667_000);
            &&& a.len() == (if streams {
                1int
            } else {
                0
            }) + (if input.middle_clicked {
                1int
            } else {
                0
            })
            &&& streams && s.drag_during(input) == Some(Drag::Ball) ==> a[0] is PlaceBall
            &&& streams ==> (s.drag_during(input) matches Some(Drag::Robot(k)) ==> a[0]
                == Action::PlaceRobot(k, s.kept_orientation(k, hits)))
            &&& input.middle_clicked ==> a[a.len() - 1] is PlaceBall
        }),
{
}

/// Without a pointer only a drag that is over is forgotten. With one, a release forgets
/// the drag and when the last placement was; else the drag goes on, and a placement is
/// noted. The rotation stays in any case.
pub proof fn law_state_after_input(s: Interaction, input: Input, now: u64)
    ensures
        ({
            let n = s.after(input, now);
            let placed = s.moves(input) && s.due(now);
            &&& n.rotation == s.rotation
            &&& !input.pointer ==> n.selected == s.selected && n.last_teleport == s.last_teleport
                && n.drag == if input.dragged {
                s.drag
            } else {
                None
            }
            &&& input.pointer ==> n.selected == s.selected_after(input)
            &&& input.pointer && input.stopped ==> n.drag is None && n.last_teleport is None
            &&& input.pointer && !input.stopped ==> n.drag == s.drag_during(input)
            &&& input.pointer && !input.stopped && placed ==> n.last_teleport == Some(now)
            &&& input.pointer && !input.stopped && !placed ==> n.last_teleport == s.last_teleport
        }),
{
}

/// A placement says where to, at rest: the ball on the ground, the robot of the key
/// facing as asked, present; neither by force.
pub proof fn law_placements_say_where_to(key: RobotKey, x: Double, y: Double, orientation: Double)
    ensures
        ({
            let b = ball_placement(x, y);
            let r = robot_placement(key, x, y, orientation);
            let none = Some(Double { bits: 0 });
            &&& b.x == Some(x) && b.y == Some(y) && b.z == none
            &&& b.vx == none && b.vy == none && b.vz == none
            &&& b.teleport_safely != Some(true) && b.roll is None && b.by_force != Some(true)
            &&& r.id.id == Some(key.1)
            &&& r.id.team == Some(
                if key.0 {
                    2i32
                } else {
                    1i32
                },
            )
            &&& r.x == Some(x) && r.y == Some(y) && r.orientation == Some(orientation)
            &&& r.v_x == none && r.v_y == none && r.v_angular == none
            &&& r.present == Some(true) && r.by_force != Some(true)
        }),
        key.1 <= 255 ==> {
            let q = convert::robot_request(robot_placement(key, x, y, orientation));
            q.orientation == Some(orientation) && (q.id.team is Blue <==> key.0) && q.present == Some(true)
        },
{
}

} // verus!
