//! Contacts of a grounded ball with robots, goals and the boundary: when there is
//! one, with which surface, and how it ends.
use vstd::prelude::*;

use crate::double::{Double, lemma_powers};
use crate::logtool::dynamics::stats::{in_range, places, set_places};

verus! {

/// Velocity change between consecutive same-camera samples that flags an event:
/// 0.5 m/s.
pub const JUMP: u64 = 0x3FE0_0000_0000_0000;

/// One of the two samples of an event is faster than this: 0.4 m/s.
pub const EVENT_SPEED: u64 = 0x3FD9_9999_9999_999A;

/// The two samples of an event are at most this far apart: 0.04 s.
pub const EVENT_GAP: u64 = 0x3FA4_7AE1_47AE_147B;

/// Events nearer than this are one: 0.1 s.
pub const EVENT_SEPARATION: u64 = 0x3FB9_9999_9999_999A;

/// Events within this of a kick are kicks: 0.2 s.
pub const KICK_EXCLUDE: u64 = 0x3FC9_9999_9999_999A;

/// Height below which the ball is on the ground: 0.03 m.
pub const GROUND_Z: u64 = 0x3F9E_B851_EB85_1EB8;

/// Distance at the closest approach below which there is contact: robot radius,
/// ball radius and slack.
pub const CONTACT_DIST: u64 = 0x3FC7_3B64_5A1C_AC08;

/// Normal speed above which the ball rebounds: 0.15 m/s.
pub const REBOUND_SPEED: u64 = 0x3FC3_3333_3333_3333;

/// Relative speed below which the ball is captured: 0.3 m/s.
pub const CAPTURE_SPEED: u64 = 0x3FD3_3333_3333_3333;

/// Least approach speed along the normal, with its sign: -0.3 m/s.
pub const MIN_APPROACH: u64 = 0xBFD3_3333_3333_3333;

/// Least relative speed along the surface for an estimate of its friction: 0.4 m/s.
pub const MIN_TANGENT: u64 = 0x3FD9_9999_9999_999A;

/// Distance below which the ball is at a wall: 0.06 m.
pub const WALL_NEAR: u64 = 0x3FAE_B851_EB85_1EB8;

/// Distance below which the ball is at a post: 0.08 m.
pub const POST_NEAR: u64 = 0x3FB4_7AE1_47AE_147B;

/// What the ball touches.
#[derive(Clone, Copy, Debug, PartialEq, Eq, Structural)]
pub enum Surface {
    /// A robot's hull.
    Hull,
    /// A robot's front.
    Face,
    /// A goal post.
    Post,
    /// The back of a goal.
    GoalBack,
    /// The field's boundary.
    Boundary,
}

/// How a contact ends.
#[derive(Clone, Copy, Debug, PartialEq, Eq, Structural)]
pub enum Outcome {
    /// The ball leaves the surface.
    Rebound,
    /// The ball stays with the robot.
    Captured,
    /// Neither.
    Other,
}

// ---------------------------------------------------------------- events

/// Two consecutive same-camera samples.
#[derive(Clone, Copy, Debug, PartialEq, Eq, Structural)]
pub struct Change {
    /// Time between them.
    pub gap: Double,
    /// Change of velocity.
    pub dv: Double,
    /// Speed at the first.
    pub speed_before: Double,
    /// Speed at the second.
    pub speed_after: Double,
}

/// The velocity jumps.
pub open spec fn is_event(c: Change) -> bool {
    &&& !(Double { bits: EVENT_GAP }).lt(c.gap)
    &&& (Double { bits: JUMP }).lt(c.dv)
    &&& (Double { bits: EVENT_SPEED }).lt(c.speed_before) || (Double { bits: EVENT_SPEED }).lt(
        c.speed_after,
    )
}

/// Whether a contact event is here: the velocity jumps, and not too soon after the
/// last event.
pub fn event_starts(c: Change, since_last: Option<Double>) -> (res: bool)
    ensures
        res == (is_event(c) && !(since_last matches Some(d) && d.lt(
            Double { bits: EVENT_SEPARATION },
        ))),
{
    if Double::from_bits(EVENT_GAP).is_less(c.gap) || !Double::from_bits(JUMP).is_less(c.dv) {
        return false;
    }
    if !Double::from_bits(EVENT_SPEED).is_less(c.speed_before) && !Double::from_bits(
        EVENT_SPEED,
    ).is_less(c.speed_after) {
        return false;
    }
    match since_last {
        Some(d) => !d.is_less(Double::from_bits(EVENT_SEPARATION)),
        None => true,
    }
}

/// Whether an event is at a kick; the distances in time to the kicks are given.
pub fn near_kick(kicks: &Vec<Double>, own: &Vec<Double>) -> (res: bool)
    ensures
        res == ((exists|i: int|
            0 <= i < kicks@.len() && (#[trigger] kicks@[i]).lt(Double { bits: KICK_EXCLUDE }))
            || (exists|i: int|
            0 <= i < own@.len() && (#[trigger] own@[i]).lt(Double { bits: KICK_EXCLUDE }))),
{
    crate::logtool::select::any_within(kicks, Double::from_bits(KICK_EXCLUDE))
        || crate::logtool::select::any_within(own, Double::from_bits(KICK_EXCLUDE))
}

/// Whether the ball is known to be on the ground.
pub fn grounded(z: Double) -> (res: bool)
    ensures
        res == (z.finite() && z.lt(Double { bits: GROUND_Z })),
{
    z.is_finite() && z.is_less(Double::from_bits(GROUND_Z))
}

/// The closest approach: the first of the least distances, if that is a contact.
pub open spec fn is_approach(d: Seq<Double>, i: int) -> bool {
    &&& 0 <= i < d.len()
    &&& d[i].lt(Double { bits: CONTACT_DIST })
    &&& forall|j: int| 0 <= j < d.len() ==> !(#[trigger] d[j]).lt(d[i])
    &&& forall|j: int|
        0 <= j < i && (#[trigger] d[j]).lt(Double { bits: CONTACT_DIST }) ==> d[i].lt(d[j])
}

/// The closest approach of the ball to a robot, if that is a contact.
pub fn closest_approach(d: &Vec<Double>) -> (res: Option<usize>)
    ensures
        match res {
            Some(i) => is_approach(d@, i as int),
            None => forall|j: int|
                0 <= j < d@.len() ==> !(#[trigger] d@[j]).lt(Double { bits: CONTACT_DIST }),
        },
{
    let mut best: Option<usize> = None;
    let mut i: usize = 0;
    while i < d.len()
        invariant
            i <= d@.len(),
            match best {
                Some(b) => b < i && d@[b as int].lt(Double { bits: CONTACT_DIST }) && (forall|j: int|
                    0 <= j < i ==> !(#[trigger] d@[j]).lt(d@[b as int])) && (forall|j: int|
                    0 <= j < b && (#[trigger] d@[j]).lt(Double { bits: CONTACT_DIST })
                        ==> d@[b as int].lt(d@[j])),
                None => forall|j: int|
                    0 <= j < i ==> !(#[trigger] d@[j]).lt(Double { bits: CONTACT_DIST }),
            },
        decreases d.len() - i,
    {
        let nearer = match best {
            Some(b) => d[i].is_less(d[b]),
            None => true,
        };
        if d[i].is_less(Double::from_bits(CONTACT_DIST)) && nearer {
            best = Some(i);
        }
        i += 1;
    }
    best
}

// ---------------------------------------------------------------- surfaces

/// The part of a robot that is touched: its front within the mouth's half angle,
/// else its hull. `phi` is the angle from the heading without sign.
pub fn robot_surface(phi: Double, mouth_half: Double) -> (res: Surface)
    ensures
        res == if phi.lt(mouth_half) {
            Surface::Face
        } else {
            Surface::Hull
        },
{
    if phi.is_less(mouth_half) {
        Surface::Face
    } else {
        Surface::Hull
    }
}

/// Whether a contact counts: a front contact at a kick is the kick.
pub fn counts(surface: Surface, at_kick: bool) -> (res: bool)
    ensures
        res == !(surface is Face && at_kick),
{
    match surface {
        Surface::Face => !at_kick,
        _ => true,
    }
}

/// What a contact with a robot ends in.
pub fn robot_outcome(vn_out: Double, rel_out: Double) -> (res: Outcome)
    ensures
        res == if (Double { bits: REBOUND_SPEED }).lt(vn_out) {
            Outcome::Rebound
        } else if rel_out.lt(Double { bits: CAPTURE_SPEED }) {
            Outcome::Captured
        } else {
            Outcome::Other
        },
{
    if Double::from_bits(REBOUND_SPEED).is_less(vn_out) {
        Outcome::Rebound
    } else if rel_out.is_less(Double::from_bits(CAPTURE_SPEED)) {
        Outcome::Captured
    } else {
        Outcome::Other
    }
}

/// What a contact with a wall or post ends in.
pub fn wall_outcome(vn_out: Double) -> (res: Outcome)
    ensures
        res == if (Double { bits: REBOUND_SPEED }).lt(vn_out) {
            Outcome::Rebound
        } else {
            Outcome::Other
        },
{
    if Double::from_bits(REBOUND_SPEED).is_less(vn_out) {
        Outcome::Rebound
    } else {
        Outcome::Other
    }
}

/// Whether the ball approaches fast enough for its rebound to be judged.
pub fn approaches(vn_in: Double) -> (res: bool)
    ensures
        res == !(Double { bits: MIN_APPROACH }).lt(vn_in),
{
    !Double::from_bits(MIN_APPROACH).is_less(vn_in)
}

/// Whether the ball slides fast enough along the surface for its friction.
pub fn slides(vt: Double) -> (res: bool)
    ensures
        res == (Double { bits: MIN_TANGENT }).le(vt),
{
    Double::from_bits(MIN_TANGENT).is_at_most(vt)
}

/// Where the ball is with respect to goals and boundary; distances are without
/// sign.
#[derive(Clone, Copy, Debug, PartialEq, Eq, Structural)]
pub struct WallFact {
    /// Distance to the post at negative x and negative y.
    pub post_nn: Double,
    /// Distance to the post at negative x and positive y.
    pub post_np: Double,
    /// Distance to the post at positive x and negative y.
    pub post_pn: Double,
    /// Distance to the post at positive x and positive y.
    pub post_pp: Double,
    /// Distance of the ball's |x| from the back of the goals.
    pub back: Double,
    /// Whether the ball's |y| is less than half a goal's width.
    pub in_goal: bool,
    /// Whether the sign of the ball's x is negative.
    pub negative_x: bool,
    /// Whether the ball's x is not a number.
    pub x_nan: bool,
    /// Distance of the ball's |x| from the boundary behind the goals.
    pub end: Double,
    /// Distance of the ball's |y| from the boundary beside the field.
    pub side: Double,
}

/// What the ball touches away from robots.
#[derive(Clone, Copy, Debug, PartialEq, Eq, Structural)]
pub enum Wall {
    /// A post: whether at positive x, whether at positive y.
    Post(bool, bool),
    /// The back of the goal at positive x or not.
    GoalBack(bool),
    /// The boundary behind a goal.
    End,
    /// The boundary beside the field.
    Side,
}

impl WallFact {
    /// Near a post.
    pub open spec fn at(d: Double) -> bool {
        d.lt(Double { bits: POST_NEAR })
    }

    /// At the back of the goal on one side.
    pub open spec fn at_back(self, positive: bool) -> bool {
        self.back.lt(Double { bits: WALL_NEAR }) && self.in_goal && !self.x_nan
            && self.negative_x == !positive
    }

    /// What the ball touches: a post first, the last one in order of its signs; else
    /// the back of a goal; else the boundary. A goal's back at negative x counts
    /// only without a post there, and gives way to a post at positive x.
    pub open spec fn wall(self) -> Option<Wall> {
        if Self::at(self.post_pp) {
            Some(Wall::Post(true, true))
        } else if Self::at(self.post_pn) {
            Some(Wall::Post(true, false))
        } else if Self::at(self.post_np) {
            Some(Wall::Post(false, true))
        } else if Self::at(self.post_nn) {
            Some(Wall::Post(false, false))
        } else if self.at_back(false) {
            Some(Wall::GoalBack(false))
        } else if self.at_back(true) {
            Some(Wall::GoalBack(true))
        } else if self.end.lt(Double { bits: WALL_NEAR }) {
            Some(Wall::End)
        } else if self.side.lt(Double { bits: WALL_NEAR }) {
            Some(Wall::Side)
        } else {
            None
        }
    }
}

/// What the ball touches away from robots: the posts and goals at negative x are
/// looked at first, then those at positive x, then the boundary.
pub fn find_wall(f: WallFact) -> (res: Option<Wall>)
    ensures
        res == f.wall(),
{
    let post = Double::from_bits(POST_NEAR);
    let near = Double::from_bits(WALL_NEAR);
    let back = f.back.is_less(near) && f.in_goal && !f.x_nan;
    let mut wall: Option<Wall> = None;
    if f.post_nn.is_less(post) {
        wall = Some(Wall::Post(false, false));
    }
    if f.post_np.is_less(post) {
        wall = Some(Wall::Post(false, true));
    }
    if wall.is_none() && back && f.negative_x {
        wall = Some(Wall::GoalBack(false));
    }
    if f.post_pn.is_less(post) {
        wall = Some(Wall::Post(true, false));
    }
    if f.post_pp.is_less(post) {
        wall = Some(Wall::Post(true, true));
    }
    if wall.is_none() && back && !f.negative_x {
        wall = Some(Wall::GoalBack(true));
    }
    if wall.is_none() {
        if f.end.is_less(near) {
            wall = Some(Wall::End);
        } else if f.side.is_less(near) {
            wall = Some(Wall::Side);
        }
    }
    wall
}

/// Whether walls and posts are looked at: the field is known and no kick is near.
pub fn walls_apply(field_length: Double, at_kick: bool) -> (res: bool)
    ensures
        res == (!field_length.le(Double::zero()) && !at_kick),
{
    !field_length.is_at_most(Double::zero()) && !at_kick
}

/// The surface of a wall.
pub open spec fn surface_of(w: Wall) -> Surface {
    match w {
        Wall::Post(_, _) => Surface::Post,
        Wall::GoalBack(_) => Surface::GoalBack,
        Wall::End => Surface::Boundary,
        Wall::Side => Surface::Boundary,
    }
}

/// The surface of a wall.
pub fn wall_surface(w: Wall) -> (res: Surface)
    ensures
        res == surface_of(w),
{
    match w {
        Wall::Post(_, _) => Surface::Post,
        Wall::GoalBack(_) => Surface::GoalBack,
        Wall::End => Surface::Boundary,
        Wall::Side => Surface::Boundary,
    }
}

// ---------------------------------------------------------------- many contacts

/// A contact, as far as it is counted.
#[derive(Clone, Copy, Debug, PartialEq, Eq, Structural)]
pub struct ContactFact {
    /// The surface.
    pub surface: Surface,
    /// The outcome.
    pub outcome: Outcome,
    /// The approach speed, positive.
    pub approach: Double,
}

/// The contacts with a surface, with one outcome or any.
pub open spec fn is_kind(c: ContactFact, s: Surface, o: Option<Outcome>) -> bool {
    c.surface == s && (o matches Some(x) ==> c.outcome == x)
}

/// The contacts with a surface, with one outcome or any.
pub fn select_contacts(c: &Vec<ContactFact>, s: Surface, o: Option<Outcome>) -> (res: Vec<usize>)
    ensures
        res@ == set_places(Seq::new(c@.len(), |i: int| is_kind(c@[i], s, o))),
{
    let mut flags: Vec<bool> = Vec::new();
    let mut i: usize = 0;
    while i < c.len()
        invariant
            i <= c@.len(),
            flags@.len() == i,
            forall|j: int| 0 <= j < i ==> #[trigger] flags@[j] == is_kind(c@[j], s, o),
        decreases c.len() - i,
    {
        let same = match o {
            Some(x) => c[i].outcome == x,
            None => true,
        };
        flags.push(c[i].surface == s && same);
        i += 1;
    }
    assert(flags@ =~= Seq::new(c@.len(), |i: int| is_kind(c@[i], s, o)));
    places(&flags)
}

/// A rebound off a hull with an approach speed within `[lo, hi)`.
pub open spec fn hull_rebound(c: ContactFact, lo: Double, hi: Double) -> bool {
    is_kind(c, Surface::Hull, Some(Outcome::Rebound)) && in_range(c.approach, lo, hi)
}

/// The rebounds off a hull with an approach speed within `[lo, hi)`; none if there
/// are fewer than four.
pub fn select_hull_rebounds(c: &Vec<ContactFact>, lo: Double, hi: Double) -> (res: Option<
    Vec<usize>,
>)
    ensures
        ({
            let all = set_places(Seq::new(c@.len(), |i: int| hull_rebound(c@[i], lo, hi)));
            match res {
                Some(p) => p@ == all && all.len() >= 4,
                None => all.len() < 4,
            }
        }),
{
    let mut flags: Vec<bool> = Vec::new();
    let mut i: usize = 0;
    while i < c.len()
        invariant
            i <= c@.len(),
            flags@.len() == i,
            forall|j: int| 0 <= j < i ==> #[trigger] flags@[j] == hull_rebound(c@[j], lo, hi),
        decreases c.len() - i,
    {
        flags.push(
            c[i].surface == Surface::Hull && c[i].outcome == Outcome::Rebound && lo.is_at_most(
                c[i].approach,
            ) && c[i].approach.is_less(hi),
        );
        i += 1;
    }
    assert(flags@ =~= Seq::new(c@.len(), |i: int| hull_rebound(c@[i], lo, hi)));
    let p = places(&flags);
    if p.len() >= 4 {
        Some(p)
    } else {
        None
    }
}

/// The limits are the decimal numbers that they are said to be.
pub proof fn law_limits_in_decimals()
    ensures
        (Double { bits: JUMP }).reads(5, 10),
        !(Double { bits: JUMP }).negative(),
        (Double { bits: EVENT_SPEED }).reads(4, 10),
        !(Double { bits: EVENT_SPEED }).negative(),
        (Double { bits: EVENT_GAP }).reads(4, 100),
        !(Double { bits: EVENT_GAP }).negative(),
        (Double { bits: EVENT_SEPARATION }).reads(1, 10),
        !(Double { bits: EVENT_SEPARATION }).negative(),
        (Double { bits: KICK_EXCLUDE }).reads(2, 10),
        !(Double { bits: KICK_EXCLUDE }).negative(),
        (Double { bits: GROUND_Z }).reads(3, 100),
        !(Double { bits: GROUND_Z }).negative(),
        (Double { bits: CONTACT_DIST }).reads(1815, 10000),
        !(Double { bits: CONTACT_DIST }).negative(),
        (Double { bits: REBOUND_SPEED }).reads(15, 100),
        !(Double { bits: REBOUND_SPEED }).negative(),
        (Double { bits: CAPTURE_SPEED }).reads(3, 10),
        !(Double { bits: CAPTURE_SPEED }).negative(),
        (Double { bits: MIN_APPROACH }).reads(3, 10),
        (Double { bits: MIN_APPROACH }).negative(),
        (Double { bits: MIN_TANGENT }).reads(4, 10),
        !(Double { bits: MIN_TANGENT }).negative(),
        (Double { bits: WALL_NEAR }).reads(6, 100),
        !(Double { bits: WALL_NEAR }).negative(),
        (Double { bits: POST_NEAR }).reads(8, 100),
        !(Double { bits: POST_NEAR }).negative(),
{
    lemma_powers();
}

/// An event is a change by more than 0.5 m/s within 0.04 s of a ball that is faster
/// than 0.4 m/s before or after it.
pub proof fn law_events_are_jumps(c: Change)
    ensures
        is_event(c) <==> !(Double { bits: EVENT_GAP }).lt(c.gap) && (Double { bits: JUMP }).lt(c.dv) && ((
        Double { bits: EVENT_SPEED }).lt(c.speed_before) || (Double { bits: EVENT_SPEED }).lt(
            c.speed_after,
        )),
{
}

/// The closest approach is within contact distance, no distance is less, and no
/// earlier one as little.
pub proof fn law_approach_is_the_closest(d: Seq<Double>, i: int, j: int)
    requires
        is_approach(d, i),
        0 <= j < d.len(),
    ensures
        d[i].lt(Double { bits: CONTACT_DIST }),
        !d[j].lt(d[i]),
        j < i && !d[j].nan() ==> d[i].lt(d[j]),
{
}

/// The ball touches a post exactly if one is within 0.08 m, and then that one, one at
/// positive x before one at negative x and one at positive y before one at negative y.
/// Else it touches the back of the goal on its side of the field if it is in a goal's
/// width and within 0.06 m of the back; else the boundary behind a goal, else the one
/// beside the field, if it is within 0.06 m of it.
pub proof fn law_walls_by_distance(f: WallFact)
    ensures
        ({
            let post = Double { bits: POST_NEAR };
            let near = Double { bits: WALL_NEAR };
            let posts = f.post_nn.lt(post) || f.post_np.lt(post) || f.post_pn.lt(post) || f.post_pp.lt(
                post,
            );
            let back = f.back.lt(near) && f.in_goal && !f.x_nan;
            &&& (f.wall() is Some && f.wall()->0 is Post) <==> posts
            &&& f.wall() == Some(Wall::Post(true, true)) <==> f.post_pp.lt(post)
            &&& f.wall() == Some(Wall::Post(true, false)) ==> f.post_pn.lt(post)
            &&& f.wall() == Some(Wall::Post(false, true)) ==> f.post_np.lt(post) && !f.post_pn.lt(post)
            &&& f.wall() == Some(Wall::Post(false, false)) ==> f.post_nn.lt(post) && !f.post_np.lt(post)
                && !f.post_pn.lt(post)
            &&& f.wall() == Some(Wall::GoalBack(true)) <==> !posts && back && !f.negative_x
            &&& f.wall() == Some(Wall::GoalBack(false)) <==> !posts && back && f.negative_x
            &&& f.wall() == Some(Wall::End) <==> !posts && !back && f.end.lt(near)
            &&& f.wall() == Some(Wall::Side) <==> !posts && !back && !f.end.lt(near) && f.side.lt(near)
            &&& f.wall() is None <==> !posts && !back && !f.end.lt(near) && !f.side.lt(near)
        }),
{
}

/// Posts and goal backs are their own surfaces; both sides of the boundary are one.
pub proof fn law_surfaces_of_walls(w: Wall)
    ensures
        surface_of(w) is Post <==> w is Post,
        surface_of(w) is GoalBack <==> w is GoalBack,
        surface_of(w) is Boundary <==> w is End || w is Side,
        !(surface_of(w) is Hull || surface_of(w) is Face),
{
}

/// A contact is selected by its surface and, where one is asked for, its outcome; a
/// hull rebound also by its approach speed.
pub proof fn law_contacts_are_selected(
    c: ContactFact,
    s: Surface,
    o: Outcome,
    lo: Double,
    hi: Double,
)
    ensures
        is_kind(c, s, None) <==> c.surface == s,
        is_kind(c, s, Some(o)) <==> c.surface == s && c.outcome == o,
        hull_rebound(c, lo, hi) <==> c.surface is Hull && c.outcome is Rebound && lo.le(c.approach)
            && c.approach.lt(hi),
{
}

} // verus!
