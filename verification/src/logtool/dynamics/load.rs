//! What is kept of a recorded game: teams, tracker sources, referee commands.
use vstd::prelude::*;

use crate::double::{Double, INFINITY_BITS, lemma_powers};
use crate::logtool::dynamics::stats::{partition_point, partitioned, splits};
use crate::logtool::select::{closest, closest_within, law_closest_is_the_first_least};
use crate::text;

verus! {

/// Team colour.
#[derive(Clone, Copy, Debug, PartialEq, Eq, PartialOrd, Ord, Hash, Structural)]
pub enum Team {
    /// Yellow.
    Yellow,
    /// Blue.
    Blue,
}

impl Team {
    /// Its name.
    pub open spec fn spec_name(self) -> Seq<char> {
        match self {
            Team::Yellow => "yellow"@,
            Team::Blue => "blue"@,
        }
    }

    /// Its name.
    pub fn name(self) -> (res: &'static str)
        ensures
            res@ == self.spec_name(),
    {
        match self {
            Team::Yellow => "yellow",
            Team::Blue => "blue",
        }
    }
}

/// The team of a tracker's colour number: blue is 2, all else is yellow.
pub fn team_of(color: i32) -> (res: Team)
    ensures
        res == if color == 2 {
            Team::Blue
        } else {
            Team::Yellow
        },
{
    if color == 2 {
        Team::Blue
    } else {
        Team::Yellow
    }
}

// ---------------------------------------------------------------- names

/// Whether `hay` holds `needle` at `at`.
pub open spec fn found_at(hay: Seq<char>, needle: Seq<char>, at: int) -> bool {
    0 <= at && at + needle.len() <= hay.len() && hay.subrange(at, at + needle.len()) == needle
}

fn is_found_at(hay: &Vec<char>, needle: &Vec<char>, at: usize) -> (res: bool)
    requires
        at <= hay@.len(),
    ensures
        res == found_at(hay@, needle@, at as int),
{
    let total: usize = hay.len();
    if needle.len() > total - at {
        return false;
    }
    let mut k: usize = 0;
    while k < needle.len()
        invariant
            k <= needle@.len(),
            at + needle@.len() <= hay@.len(),
            total == hay@.len(),
            forall|j: int| 0 <= j < k ==> hay@[at + j] == needle@[j],
        decreases needle.len() - k,
    {
        if hay[at + k] != needle[k] {
            assert(hay@.subrange(at as int, at + needle@.len())[k as int] == hay@[at + k]);
            return false;
        }
        k += 1;
    }
    assert(hay@.subrange(at as int, at + needle@.len()) =~= needle@);
    true
}

/// Whether a text holds another.
pub fn contains(hay: &str, needle: &str) -> (res: bool)
    ensures
        res == exists|at: int| found_at(hay@, needle@, at),
{
    let h = text::chars_of(hay);
    let n = text::chars_of(needle);
    let total: usize = h.len();
    let mut at: usize = 0;
    loop
        invariant
            at <= total,
            total == h@.len(),
            h@ == hay@,
            n@ == needle@,
            forall|a: int| 0 <= a < at ==> !found_at(hay@, needle@, a),
        decreases total - at,
    {
        if is_found_at(&h, &n, at) {
            return true;
        }
        if at == total {
            return false;
        }
        at += 1;
    }
}

/// Whether a text starts with another.
pub fn starts_with(s: &str, prefix: &str) -> (res: bool)
    ensures
        res == found_at(s@, prefix@, 0),
{
    let h = text::chars_of(s);
    let n = text::chars_of(prefix);
    is_found_at(&h, &n, 0)
}

/// A name without the `.log` at its end, however often it stands there.
pub open spec fn without_log(s: Seq<char>) -> Seq<char>
    decreases s.len(),
{
    if s.len() >= 4 && s.subrange(s.len() - 4, s.len() as int) == seq!['.', 'l', 'o', 'g'] {
        without_log(s.take(s.len() - 4))
    } else {
        s
    }
}

/// The name of a game, from the stem of its file's name.
pub fn game_name(stem: &str) -> (res: String)
    ensures
        res@ == without_log(stem@),
{
    let mut chars = text::chars_of(stem);
    while chars.len() >= 4 && chars[chars.len() - 4] == '.' && chars[chars.len() - 3] == 'l'
        && chars[chars.len() - 2] == 'o' && chars[chars.len() - 1] == 'g'
        invariant
            without_log(chars@) == without_log(stem@),
        decreases chars.len(),
    {
        let n: usize = chars.len() - 4;
        assert(chars@.subrange(chars@.len() - 4, chars@.len() as int) =~= seq!['.', 'l', 'o', 'g']);
        chars.truncate(n);
    }
    proof {
        if chars@.len() >= 4 {
            let tail = chars@.subrange(chars@.len() - 4, chars@.len() as int);
            if tail == seq!['.', 'l', 'o', 'g'] {
                assert(tail[0] == chars@[chars@.len() - 4]);
                assert(tail[1] == chars@[chars@.len() - 3]);
                assert(tail[2] == chars@[chars@.len() - 2]);
                assert(tail[3] == chars@[chars@.len() - 1]);
            }
        }
    }
    text::string_of(&chars)
}

/// The competition a game belongs to, from the date in its name.
pub open spec fn competition(name: Seq<char>) -> Seq<char> {
    if found_at(name, "2026-03"@, 0) {
        "GO26"@
    } else if found_at(name, "2026-07"@, 0) {
        "RC26"@
    } else {
        "other"@
    }
}

/// The competition a game belongs to, from the date in its name.
pub fn competition_of(name: &str) -> (res: &'static str)
    ensures
        res@ == competition(name@),
{
    if starts_with(name, "2026-03") {
        "GO26"
    } else if starts_with(name, "2026-07") {
        "RC26"
    } else {
        "other"
    }
}

/// Names of the teams.
#[derive(Clone, Debug)]
pub struct TeamNames {
    /// Yellow.
    pub yellow: String,
    /// Blue.
    pub blue: String,
}

impl TeamNames {
    /// The name of a team.
    pub open spec fn spec_of(&self, team: Team) -> Seq<char> {
        match team {
            Team::Yellow => self.yellow@,
            Team::Blue => self.blue@,
        }
    }

    /// Not known yet.
    pub fn new() -> (res: Self)
        ensures
            res.yellow@.len() == 0,
            res.blue@.len() == 0,
    {
        TeamNames { yellow: String::new(), blue: String::new() }
    }

    /// Note the names of a referee record. The first record that names the yellow
    /// team counts.
    pub fn observe(&mut self, yellow: &str, blue: &str)
        ensures
            old(self).yellow@.len() == 0 && yellow@.len() > 0 ==> final(self).yellow@ == yellow@
                && final(self).blue@ == blue@,
            !(old(self).yellow@.len() == 0 && yellow@.len() > 0) ==> *final(self) == *old(self),
    {
        let known = text::chars_of(self.yellow.as_str());
        let named = text::chars_of(yellow);
        if known.len() == 0 && named.len() > 0 {
            self.yellow = yellow.to_owned();
            self.blue = blue.to_owned();
        }
    }

    /// The name of a team.
    pub fn of(&self, team: Team) -> (res: &str)
        ensures
            res@ == self.spec_of(team),
    {
        match team {
            Team::Yellow => self.yellow.as_str(),
            Team::Blue => self.blue.as_str(),
        }
    }

    /// Label of a team in a competition: its name, or its colour if it has none.
    pub open spec fn label(&self, team: Team, competition: Seq<char>) -> Seq<char> {
        (if self.spec_of(team).len() == 0 {
            team.spec_name()
        } else {
            self.spec_of(team)
        }) + " ("@ + competition + ")"@
    }

    /// Label of a team in a competition.
    pub fn team_key(&self, team: Team, competition: &str) -> (res: String)
        ensures
            res@ == self.label(team, competition@),
    {
        let name = self.of(team);
        let chars = text::chars_of(name);
        let shown = if chars.len() == 0 {
            team.name()
        } else {
            name
        };
        let a = text::join(shown, " (");
        let b = text::join(a.as_str(), competition);
        text::join(b.as_str(), ")")
    }
}

// ---------------------------------------------------------------- sources

/// Summary of a tracker source seen in a log.
#[derive(Clone, Debug)]
pub struct SourceInfo {
    /// Its name.
    pub name: String,
    /// Frames.
    pub frames: u64,
    /// Frames with a ball off the ground plane.
    pub frames_with_ball_z: u64,
    /// Frames with a ball velocity.
    pub frames_with_ball_vel: u64,
    /// Frames with a robot velocity.
    pub frames_with_robot_vel: u64,
    /// Frames with a kick.
    pub frames_with_kick: u64,
    /// What the source says it can do.
    pub capabilities: Vec<i32>,
    /// Time of the first frame.
    pub t_first: Double,
    /// Time of the last frame.
    pub t_last: Double,
}

/// What a summary notes of one frame.
#[derive(Clone, Copy, Debug, PartialEq, Eq, Structural)]
pub struct SourceFrame {
    /// Its time.
    pub t: Double,
    /// Height of the ball, if there is one.
    pub ball_z: Option<Double>,
    /// Whether the ball has a velocity.
    pub ball_vel: bool,
    /// Whether any robot has a velocity.
    pub robot_vel: bool,
    /// Whether there is a kick.
    pub kick: bool,
}

/// One if a condition holds.
pub open spec fn one_if(b: bool) -> int {
    if b {
        1
    } else {
        0
    }
}

impl SourceInfo {
    /// No count exceeds the number of frames.
    pub open spec fn wf(&self) -> bool {
        &&& self.frames_with_ball_z <= self.frames
        &&& self.frames_with_ball_vel <= self.frames
        &&& self.frames_with_robot_vel <= self.frames
        &&& self.frames_with_kick <= self.frames
    }

    /// A source before its first frame, at time `t`.
    pub fn new(name: &str, t: Double) -> (res: Self)
        ensures
            res.wf(),
            res.name@ == name@,
            res.frames == 0,
            res.frames_with_ball_z == 0,
            res.frames_with_ball_vel == 0,
            res.frames_with_robot_vel == 0,
            res.frames_with_kick == 0,
            res.capabilities@.len() == 0,
            res.t_first == t,
            res.t_last == t,
    {
        SourceInfo {
            name: name.to_owned(),
            frames: 0,
            frames_with_ball_z: 0,
            frames_with_ball_vel: 0,
            frames_with_robot_vel: 0,
            frames_with_kick: 0,
            capabilities: Vec::new(),
            t_first: t,
            t_last: t,
        }
    }

    /// Note a frame. The capabilities are those of the first frame that has any.
    pub fn observe(&mut self, f: SourceFrame, capabilities: &Vec<i32>)
        requires
            old(self).wf(),
            old(self).frames < u64::MAX,
        ensures
            final(self).wf(),
            final(self).name == old(self).name,
            final(self).t_first == old(self).t_first,
            final(self).t_last == f.t,
            final(self).frames == old(self).frames + 1,
            final(self).frames_with_ball_z == old(self).frames_with_ball_z + one_if(
                f.ball_z is Some && !f.ball_z->0.same(Double::zero()),
            ),
            final(self).frames_with_ball_vel == old(self).frames_with_ball_vel + one_if(
                f.ball_z is Some && f.ball_vel,
            ),
            final(self).frames_with_robot_vel == old(self).frames_with_robot_vel + one_if(
                f.robot_vel,
            ),
            final(self).frames_with_kick == old(self).frames_with_kick + one_if(f.kick),
            final(self).capabilities@ == if old(self).capabilities@.len() == 0 {
                capabilities@
            } else {
                old(self).capabilities@
            },
    {
        self.frames = self.frames + 1;
        self.t_last = f.t;
        if self.capabilities.len() == 0 {
            let mut i: usize = 0;
            while i < capabilities.len()
                invariant
                    i <= capabilities@.len(),
                    self.capabilities@ == capabilities@.take(i as int),
                    *self == (SourceInfo {
                        capabilities: self.capabilities,
                        frames: self.frames,
                        t_last: self.t_last,
                        ..*old(self)
                    }),
                    self.frames == old(self).frames + 1,
                    self.t_last == f.t,
                decreases capabilities.len() - i,
            {
                self.capabilities.push(capabilities[i]);
                i += 1;
            }
            assert(capabilities@.take(i as int) =~= capabilities@);
        }
        if let Some(z) = f.ball_z {
            if !z.is_same(Double::zero()) {
                self.frames_with_ball_z = self.frames_with_ball_z + 1;
            }
            if f.ball_vel {
                self.frames_with_ball_vel = self.frames_with_ball_vel + 1;
            }
        }
        if f.robot_vel {
            self.frames_with_robot_vel = self.frames_with_robot_vel + 1;
        }
        if f.kick {
            self.frames_with_kick = self.frames_with_kick + 1;
        }
    }

    /// Whether this source is worse than another: first by whether it has kicks,
    /// then by its frames with a ball off the ground plane, then by its frames.
    pub open spec fn worse(&self, o: SourceInfo) -> bool {
        if (self.frames_with_kick > 0) != (o.frames_with_kick > 0) {
            o.frames_with_kick > 0
        } else if self.frames_with_ball_z != o.frames_with_ball_z {
            self.frames_with_ball_z < o.frames_with_ball_z
        } else {
            self.frames < o.frames
        }
    }

    fn is_worse(&self, o: &SourceInfo) -> (res: bool)
        ensures
            res == self.worse(*o),
    {
        if (self.frames_with_kick > 0) != (o.frames_with_kick > 0) {
            o.frames_with_kick > 0
        } else if self.frames_with_ball_z != o.frames_with_ball_z {
            self.frames_with_ball_z < o.frames_with_ball_z
        } else {
            self.frames < o.frames
        }
    }
}

/// The name of a source holds a text.
pub open spec fn named(s: SourceInfo, part: Seq<char>) -> bool {
    exists|at: int| found_at(s.name@, part, at)
}

/// `i` is the first source whose name holds the text.
pub open spec fn is_preferred(s: Seq<SourceInfo>, part: Seq<char>, i: int) -> bool {
    &&& 0 <= i < s.len()
    &&& named(s[i], part)
    &&& forall|j: int| 0 <= j < i ==> !named(#[trigger] s[j], part)
}

/// No source is better than the one at `i`, and none after it is as good.
pub open spec fn is_richest(s: Seq<SourceInfo>, i: int) -> bool {
    &&& 0 <= i < s.len()
    &&& forall|j: int| 0 <= j < s.len() ==> !s[i].worse(#[trigger] s[j])
    &&& forall|j: int| i < j < s.len() ==> (#[trigger] s[j]).worse(s[i])
}

/// Choose the tracker source: the first whose name holds `prefer`, if that is
/// given and there is one; else the richest one, of equally rich ones the last.
pub fn choose_source(s: &Vec<SourceInfo>, prefer: Option<&str>) -> (res: Option<usize>)
    ensures
        res is None <==> s@.len() == 0,
        res matches Some(i) ==> (prefer matches Some(part) && is_preferred(s@, part@, i as int))
            || (is_richest(s@, i as int) && (prefer matches Some(part) ==> forall|j: int|
            0 <= j < s@.len() ==> !named(#[trigger] s@[j], part@))),
{
    let total: usize = s.len();
    if let Some(part) = prefer {
        let mut i: usize = 0;
        while i < total
            invariant
                i <= total,
                total == s@.len(),
                prefer == Some(part),
                forall|j: int| 0 <= j < i ==> !named(#[trigger] s@[j], part@),
            decreases total - i,
        {
            if contains(s[i].name.as_str(), part) {
                assert(named(s@[i as int], part@));
                assert(is_preferred(s@, part@, i as int));
                return Some(i);
            }
            i += 1;
        }
    }
    if total == 0 {
        return None;
    }
    let mut b: usize = 0;
    let mut i: usize = 1;
    while i < total
        invariant
            total == s@.len(),
            b < i <= total,
            prefer matches Some(part) ==> forall|j: int|
                0 <= j < s@.len() ==> !named(#[trigger] s@[j], part@),
            forall|j: int| 0 <= j < i ==> !s@[b as int].worse(#[trigger] s@[j]),
            forall|j: int| b < j < i ==> (#[trigger] s@[j]).worse(s@[b as int]),
        decreases total - i,
    {
        if !s[i].is_worse(&s[b]) {
            b = i;
        }
        i += 1;
    }
    Some(b)
}

/// A source with kicks wins over sources without, unless another is asked for.
pub proof fn law_kick_events_win(s: Seq<SourceInfo>, i: int, j: int)
    requires
        is_richest(s, i),
        0 <= j < s.len(),
        s[j].frames_with_kick > 0,
    ensures
        s[i].frames_with_kick > 0,
{
    assert(!s[i].worse(s[j]));
}

// ---------------------------------------------------------------- clocks

/// The offset with the least cost: the first of the least finite costs. `None`
/// when no cost is finite; then no offset is better than another.
pub fn best_offset(costs: &Vec<Double>) -> (res: Option<usize>)
    ensures
        match res {
            Some(i) => i < costs@.len() && closest(costs@) == Some(i as int) && costs@[i as int].finite(),
            None => closest(costs@) matches Some(i) ==> !costs@[i].finite(),
        },
{
    match closest_within(costs, Double::from_bits(INFINITY_BITS)) {
        Some(i) => if costs[i].is_finite() {
            Some(i)
        } else {
            None
        },
        None => {
            proof {
                law_closest_is_the_first_least(costs@);
            }
            None
        },
    }
}

/// The samples around a time: the last one before it and the first one not before
/// it. `None` before the first sample and after the last one.
pub fn bracket(times: &Vec<Double>, t: Double) -> (res: Option<usize>)
    ensures
        partitioned(times@, t, false) ==> match res {
            Some(i) => 0 < i < times@.len() && splits(times@, t, false, i as int),
            None => splits(times@, t, false, 0) || splits(times@, t, false, times@.len() as int),
        },
        res matches Some(i) ==> 0 < i < times@.len(),
{
    let i: usize = partition_point(times, t, false);
    if i == 0 || i >= times.len() {
        None
    } else {
        Some(i)
    }
}

/// A robot slower than this says nothing about the clocks: 0.8 m/s.
pub const OFFSET_MIN_SPEED: u64 = 0x3FE9_9999_9999_999A;

/// Detections farther apart than this are not interpolated between: 0.05 s.
pub const OFFSET_MAX_GAP: u64 = 0x3FA9_9999_9999_999A;

/// Least number of distances that an offset is judged by.
pub const OFFSET_LEAST: usize = 200;

/// A frame adds no more distances once there are more than this.
pub const OFFSET_MOST: usize = 20_000;

/// Whether a tracked robot is fast enough to compare clocks by.
pub fn compares_clocks(speed: Double) -> (res: bool)
    ensures
        res == !speed.lt(Double { bits: OFFSET_MIN_SPEED }),
{
    !speed.is_less(Double::from_bits(OFFSET_MIN_SPEED))
}

/// Whether detections this far apart in time are interpolated between.
pub fn bridges(gap: Double) -> (res: bool)
    ensures
        res == !(Double { bits: OFFSET_MAX_GAP }).lt(gap),
{
    !Double::from_bits(OFFSET_MAX_GAP).is_less(gap)
}

/// Whether the offset with the least cost is refined by a parabola: it has a
/// neighbour on either side, and the cost curves upwards there.
pub fn refines(i: usize, total: usize, curvature: Double) -> (res: bool)
    requires
        i < total,
    ensures
        res == (0 < i && i + 1 < total && Double::zero().lt(curvature)),
{
    i > 0 && i < total - 1 && curvature.is_positive()
}

// ---------------------------------------------------------------- referee

/// The referee command in force at a time: that of the last sample that is not
/// later; none before the first sample.
pub fn command_at(times: &Vec<Double>, commands: &Vec<i32>, t: Double) -> (res: Option<i32>)
    requires
        times@.len() == commands@.len(),
    ensures
        partitioned(times@, t, true) ==> exists|n: int|
            #![trigger splits(times@, t, true, n)]
            splits(times@, t, true, n) && res == if n == 0 {
                None
            } else {
                Some(commands@[n - 1])
            },
{
    let n: usize = partition_point(times, t, true);
    if n == 0 {
        None
    } else {
        Some(commands[n - 1])
    }
}

/// Whether the game runs under a command: it is known and neither halt, stop, a
/// timeout nor a ball placement.
pub open spec fn runs(command: i32) -> bool {
    2 <= command <= 11 || command == 14 || command == 15
}

/// Whether the game runs under the command in force, if there is one.
pub fn running(command: Option<i32>) -> (res: bool)
    ensures
        res == (command matches Some(c) && runs(c)),
{
    match command {
        Some(c) => (2 <= c && c <= 11) || c == 14 || c == 15,
        None => false,
    }
}

/// Whether a command counts as play for robot statistics: there is one, and it is
/// not halt.
pub fn not_halted(command: Option<i32>) -> (res: bool)
    ensures
        res == (command matches Some(c) && c != 0),
{
    match command {
        Some(c) => c != 0,
        None => false,
    }
}

/// The game never runs while it is held.
pub proof fn law_held_games_do_not_run(command: i32)
    requires
        crate::logtool::sources::holds_game(command),
    ensures
        !runs(command),
{
}

/// The limits are the decimal numbers that they are said to be.
pub proof fn law_limits_in_decimals()
    ensures
        (Double { bits: OFFSET_MIN_SPEED }).reads(8, 10),
        !(Double { bits: OFFSET_MIN_SPEED }).negative(),
        (Double { bits: OFFSET_MAX_GAP }).reads(5, 100),
        !(Double { bits: OFFSET_MAX_GAP }).negative(),
{
    lemma_powers();
}

/// The teams are named by their colours.
pub proof fn law_teams_have_names(t: Team, names: TeamNames)
    ensures
        t is Yellow ==> t.spec_name() == "yellow"@ && names.spec_of(t) == names.yellow@,
        t is Blue ==> t.spec_name() == "blue"@ && names.spec_of(t) == names.blue@,
{
}

/// A text is found where each of its characters stands.
pub proof fn law_found_character_by_character(hay: Seq<char>, needle: Seq<char>, at: int)
    ensures
        found_at(hay, needle, at) <==> 0 <= at && at + needle.len() <= hay.len() && forall|k: int|
            0 <= k < needle.len() ==> hay[at + k] == #[trigger] needle[k],
{
    if 0 <= at && at + needle.len() <= hay.len() {
        let part = hay.subrange(at, at + needle.len());
        if found_at(hay, needle, at) {
            assert forall|k: int| 0 <= k < needle.len() implies hay[at + k] == #[trigger] needle[k] by {
                assert(part[k] == hay[at + k]);
            }
        }
        if forall|k: int| 0 <= k < needle.len() ==> hay[at + k] == #[trigger] needle[k] {
            assert(part =~= needle);
        }
    }
}

/// A game's name is the front of its file's stem: what is cut off is nothing but
/// `.log`, over and over, and the name does not end in it.
pub proof fn law_names_lose_only_log(s: Seq<char>)
    ensures
        ({
            let n = without_log(s).len();
            &&& n <= s.len()
            &&& without_log(s) == s.take(n as int)
            &&& (s.len() - n) % 4 == 0
            &&& forall|k: int|
                n <= k < s.len() ==> #[trigger] s[k] == (if (k - n) % 4 == 0 {
                    '.'
                } else if (k - n) % 4 == 1 {
                    'l'
                } else if (k - n) % 4 == 2 {
                    'o'
                } else {
                    'g'
                })
            &&& !(n >= 4 && s[n - 4] == '.' && s[n - 3] == 'l' && s[n - 2] == 'o' && s[n - 1] == 'g')
        }),
    decreases s.len(),
{
    let ext = seq!['.', 'l', 'o', 'g'];
    if s.len() >= 4 && s.subrange(s.len() - 4, s.len() as int) == ext {
        let t = s.take(s.len() - 4);
        law_names_lose_only_log(t);
        let n = without_log(s).len();
        assert(t.take(n as int) =~= s.take(n as int));
        let part = s.subrange(s.len() - 4, s.len() as int);
        assert(part[0] == s[s.len() - 4] && part[1] == s[s.len() - 3] && part[2] == s[s.len() - 2]
            && part[3] == s[s.len() - 1]);
        assert forall|k: int| n <= k < s.len() implies #[trigger] s[k] == (if (k - n) % 4 == 0 {
            '.'
        } else if (k - n) % 4 == 1 {
            'l'
        } else if (k - n) % 4 == 2 {
            'o'
        } else {
            'g'
        }) by {
            if k < t.len() {
                assert(t[k] == s[k]);
            }
        }
        if n >= 4 {
            assert(t[n - 4] == s[n - 4] && t[n - 3] == s[n - 3] && t[n - 2] == s[n - 2] && t[n - 1]
                == s[n - 1]);
        }
    } else {
        let n = s.len();
        assert(s.take(n as int) =~= s);
        if n >= 4 && s[n - 4] == '.' && s[n - 3] == 'l' && s[n - 2] == 'o' && s[n - 1] == 'g' {
            assert(s.subrange(n - 4, n as int) =~= ext);
        }
    }
}

/// Games of March 2026 are of one competition, those of July 2026 of another, by the
/// start of their names; all else is of none.
pub proof fn law_competitions_by_month(name: Seq<char>)
    ensures
        ({
            let of_2026 = name.len() >= 7 && name[0] == '2' && name[1] == '0' && name[2] == '2'
                && name[3] == '6' && name[4] == '-' && name[5] == '0';
            &&& of_2026 && name[6] == '3' ==> competition(name) == "GO26"@
            &&& of_2026 && name[6] == '7' ==> competition(name) == "RC26"@
            &&& !(of_2026 && (name[6] == '3' || name[6] == '7')) ==> competition(name) == "other"@
        }),
{
    reveal_strlit("2026-03");
    reveal_strlit("2026-07");
    law_found_character_by_character(name, "2026-03"@, 0);
    law_found_character_by_character(name, "2026-07"@, 0);
    let a = "2026-03"@;
    let b = "2026-07"@;
    assert(a[0] == '2' && a[1] == '0' && a[2] == '2' && a[3] == '6' && a[4] == '-' && a[5] == '0'
        && a[6] == '3');
    assert(b[0] == '2' && b[1] == '0' && b[2] == '2' && b[3] == '6' && b[4] == '-' && b[5] == '0'
        && b[6] == '7');
    if found_at(name, a, 0) {
        assert forall|k: int| 0 <= k < 7 implies name[k] == a[k] by {
            assert(name[0 + k] == a[k]);
        }
    }
    if found_at(name, b, 0) {
        assert forall|k: int| 0 <= k < 7 implies name[k] == b[k] by {
            assert(name[0 + k] == b[k]);
        }
    }
}

/// A label is the team's name, or its colour without one, and the competition in
/// brackets behind it.
pub proof fn law_labels_name_team_and_competition(n: TeamNames, team: Team, competition: Seq<char>)
    ensures
        ({
            let own = match team {
                Team::Yellow => n.yellow@,
                Team::Blue => n.blue@,
            };
            let colour = match team {
                Team::Yellow => "yellow"@,
                Team::Blue => "blue"@,
            };
            let front = if own.len() > 0 {
                own
            } else {
                colour
            };
            n.label(team, competition) == front + (seq![' ', '('] + competition + seq![')'])
        }),
{
    reveal_strlit(" (");
    reveal_strlit(")");
    let own = n.spec_of(team);
    let front = if own.len() > 0 {
        own
    } else {
        team.spec_name()
    };
    assert(n.label(team, competition) =~= front + (seq![' ', '('] + competition + seq![')']));
}

/// A source with kicks is never worse than one without; among equals in that, one with
/// more frames with a ball off the ground never is; among equals in both, one with more
/// frames never is. A source is not worse than itself, and of two different in any of
/// these one is worse.
pub proof fn law_worse_sources(a: SourceInfo, b: SourceInfo)
    ensures
        a.frames_with_kick > 0 && b.frames_with_kick == 0 ==> b.worse(a) && !a.worse(b),
        (a.frames_with_kick > 0 <==> b.frames_with_kick > 0) && a.frames_with_ball_z > b.frames_with_ball_z
            ==> b.worse(a) && !a.worse(b),
        (a.frames_with_kick > 0 <==> b.frames_with_kick > 0) && a.frames_with_ball_z == b.frames_with_ball_z
            ==> (b.worse(a) <==> a.frames > b.frames),
        !a.worse(a),
{
}

/// A preferred source holds the text in its name, and none before it does; the richest
/// source has none better, and none as good behind it.
pub proof fn law_chosen_sources(s: Seq<SourceInfo>, part: Seq<char>, i: int, j: int)
    requires
        0 <= j < s.len(),
    ensures
        is_preferred(s, part, i) ==> 0 <= i < s.len() && named(s[i], part) && (j < i ==> !named(
            s[j],
            part,
        )),
        is_richest(s, i) ==> 0 <= i < s.len() && !s[i].worse(s[j]) && (j > i ==> s[j].worse(s[i])),
        named(s[j], part) <==> exists|at: int| found_at(s[j].name@, part, at),
{
}

/// The game runs under the commands of the protocol but halt, stop, the timeouts and
/// the ball placements.
pub proof fn law_commands_under_which_the_game_runs(command: i32)
    ensures
        0 <= command <= 17 ==> (runs(command) <==> !(command == 0 || command == 1 || command == 12
            || command == 13 || command == 16 || command == 17)),
        command < 0 || command > 17 ==> !runs(command),
{
}

/// A condition counts once if it holds.
pub proof fn law_one_if(b: bool)
    ensures
        one_if(b) == 1 <==> b,
        one_if(b) == 0 <==> !b,
{
}

/// The numbers of samples are as they are said to be.
pub proof fn law_least_numbers()
    ensures
        OFFSET_LEAST == 200,
        OFFSET_MOST == 20_000,
{
}

} // verus!
