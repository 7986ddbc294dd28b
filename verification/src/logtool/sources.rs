//! Tracker sources, the referee's state and the calibration seen in a log.
use vstd::prelude::*;

use crate::double::{Double, lemma_powers};
use crate::logtool::stats::{counted, merged_counts, no_counts, Hist};
use crate::names::Names;
use crate::table::Table;
use crate::text;

verus! {

/// Bytes that a character takes in UTF-8.
pub open spec fn utf8_len(c: char) -> nat {
    if (c as int) < 0x80 {
        1
    } else if (c as int) < 0x800 {
        2
    } else if (c as int) < 0x1_0000 {
        3
    } else {
        4
    }
}

/// Bytes that some characters take in UTF-8.
pub open spec fn utf8_bytes(s: Seq<char>) -> nat
    decreases s.len(),
{
    if s.len() == 0 {
        0
    } else {
        utf8_bytes(s.drop_last()) + utf8_len(s.last())
    }
}

/// `n` characters are the first `limit` bytes of `s`, or all of it if it is
/// shorter.
pub open spec fn is_byte_prefix(s: Seq<char>, limit: nat, n: int) -> bool {
    0 <= n <= s.len() && (utf8_bytes(s.take(n)) == limit || (n == s.len() && utf8_bytes(s)
        < limit))
}

proof fn lemma_bytes_grow(s: Seq<char>, a: int, b: int)
    requires
        0 <= a < b <= s.len(),
    ensures
        utf8_bytes(s.take(a)) < utf8_bytes(s.take(b)),
    decreases b,
{
    assert(s.take(b).drop_last() =~= s.take(b - 1));
    if a < b - 1 {
        lemma_bytes_grow(s, a, b - 1);
    }
}

/// The first eight bytes of a text, or all of it if it is shorter; none when a
/// character straddles the cut.
pub fn first_eight(s: &str) -> (res: Option<String>)
    ensures
        match res {
            Some(p) => p@.len() <= s@.len() && p@ == s@.take(p@.len() as int) && is_byte_prefix(
                s@,
                8,
                p@.len() as int,
            ),
            None => forall|n: int| !is_byte_prefix(s@, 8, n),
        },
{
    let chars = text::chars_of(s);
    let mut out: Vec<char> = Vec::new();
    let mut bytes: usize = 0;
    let mut i: usize = 0;
    while i < chars.len() && bytes < 8
        invariant
            i <= chars@.len(),
            chars@ == s@,
            bytes < 12,
            bytes == utf8_bytes(s@.take(i as int)),
            out@ == s@.take(i as int),
            bytes >= 8 ==> i > 0 && utf8_bytes(s@.take(i - 1)) < 8,
        decreases chars.len() - i,
    {
        let c = chars[i];
        let len: usize = if '\u{80}' > c {
            1
        } else if '\u{800}' > c {
            2
        } else if '\u{10000}' > c {
            3
        } else {
            4
        };
        assert(s@.take(i + 1).drop_last() =~= s@.take(i as int));
        assert(s@.take(i + 1) =~= s@.take(i as int).push(c));
        bytes += len;
        out.push(c);
        i += 1;
    }
    proof {
        assert(s@.take(s@.len() as int) =~= s@);
    }
    if bytes <= 8 {
        Some(text::string_of(&out))
    } else {
        proof {
            assert forall|n: int| !is_byte_prefix(s@, 8, n) by {
                if 0 <= n <= s@.len() {
                    if n < i - 1 {
                        lemma_bytes_grow(s@, n, i - 1);
                    }
                    if n > i {
                        lemma_bytes_grow(s@, i as int, n);
                    }
                    if i < s@.len() {
                        lemma_bytes_grow(s@, i as int, s@.len() as int);
                    }
                }
            }
        }
        None
    }
}

/// Label of a tracker source: its name, or `?`, and the beginning of its uuid.
pub open spec fn source_label(name: Option<Seq<char>>, uuid: Seq<char>) -> Seq<char> {
    (match name {
        Some(n) => n,
        None => "?"@,
    }) + " ["@ + uuid + "]"@
}

/// Label of a tracker source, from its name and the beginning of its uuid (see
/// [`first_eight`]).
pub fn source_key(name: Option<&str>, uuid: &str) -> (res: String)
    ensures
        res@ == source_label(
            match name {
                Some(n) => Some(n@),
                None => None,
            },
            uuid@,
        ),
{
    let start = match name {
        Some(n) => n.to_owned(),
        None => "?".to_owned(),
    };
    let a = text::join(start.as_str(), " [");
    let b = text::join(a.as_str(), uuid);
    text::join(b.as_str(), "]")
}

/// What was seen of a tracker source while choosing.
#[derive(Clone, Copy, Debug, PartialEq, Eq, Structural)]
pub struct Probe {
    /// Frames.
    pub frames: u64,
    /// Frames whose time stamp is near the capture times.
    pub same_clock: u64,
    /// Whether it says that it detects flying balls.
    pub flying: bool,
}

impl Probe {
    /// No more frames on the same clock than frames.
    pub open spec fn wf(self) -> bool {
        self.same_clock <= self.frames <= PROBED
    }

    /// At least half of the frames are on the same clock.
    pub open spec fn on_clock(self) -> bool {
        self.same_clock * 2 >= self.frames
    }

    /// Whether this source is worse than another: first by its clock, then by
    /// whether it detects flying balls, then by its frames.
    pub open spec fn worse(self, o: Probe) -> bool {
        if self.on_clock() != o.on_clock() {
            o.on_clock()
        } else if self.flying != o.flying {
            o.flying
        } else {
            self.frames < o.frames
        }
    }

    fn is_worse(self, o: Probe) -> (res: bool)
        requires
            self.wf(),
            o.wf(),
        ensures
            res == self.worse(o),
    {
        let mine = self.same_clock * 2 >= self.frames;
        let theirs = o.same_clock * 2 >= o.frames;
        if mine != theirs {
            theirs
        } else if self.flying != o.flying {
            o.flying
        } else {
            self.frames < o.frames
        }
    }
}

/// Tracker frames after which a source is chosen.
pub const PROBED: u64 = 400;

/// Choice of the tracker source that serves as reference.
#[derive(Clone, Debug)]
pub struct TrackerChoice {
    /// Frames by source.
    pub sources: Names<u64>,
    /// What was seen of each source so far.
    pub probe: Names<Probe>,
    /// Frames seen while choosing.
    pub probed: u64,
    /// The chosen source.
    pub primary: Option<String>,
    /// Whether the choice is made.
    pub decided: bool,
}

/// No source is better than the one at `i`, and none after it is as good.
pub open spec fn is_best(probe: Names<Probe>, i: int) -> bool {
    &&& 0 <= i < probe.spec_len()
    &&& forall|j: int| 0 <= j < probe.spec_len() ==> !probe.value(i).worse(#[trigger] probe.value(j))
    &&& forall|j: int|
        i < j < probe.spec_len() ==> (#[trigger] probe.value(j)).worse(probe.value(i))
}

fn best_source(probe: &Names<Probe>) -> (res: usize)
    requires
        probe.wf(),
        probe.spec_len() > 0,
        forall|j: int| 0 <= j < probe.spec_len() ==> (#[trigger] probe.value(j)).wf(),
    ensures
        is_best(*probe, res as int),
{
    let total: usize = probe.len();
    let mut b: usize = 0;
    let mut i: usize = 1;
    while i < total
        invariant
            total == probe.spec_len(),
            b < i <= total,
            forall|j: int| 0 <= j < probe.spec_len() ==> (#[trigger] probe.value(j)).wf(),
            forall|j: int|
                0 <= j < i ==> !probe.value(b as int).worse(#[trigger] probe.value(j)),
            forall|j: int| b < j < i ==> (#[trigger] probe.value(j)).worse(probe.value(b as int)),
        decreases total - i,
    {
        let here = probe.value_at(i);
        assert(probe.value(i as int).wf() && probe.value(b as int).wf());
        if !here.is_worse(probe.value_at(b)) {
            b = i;
        }
        i += 1;
    }
    b
}

/// What is known of a source after one more frame.
pub open spec fn probed(
    m: Map<Seq<char>, Probe>,
    key: Seq<char>,
    same_clock: bool,
    flying: bool,
) -> Probe {
    let p = if m.contains_key(key) {
        m[key]
    } else {
        Probe { frames: 0, same_clock: 0, flying: false }
    };
    Probe {
        frames: (p.frames + 1) as u64,
        same_clock: if same_clock {
            (p.same_clock + 1) as u64
        } else {
            p.same_clock
        },
        flying: p.flying || flying,
    }
}

impl TrackerChoice {
    /// No source has more frames than were seen.
    pub open spec fn wf(&self) -> bool {
        &&& self.sources.wf()
        &&& self.probe.wf()
        &&& self.probe.spec_len() <= self.probed
        &&& self.probed <= PROBED
        &&& !self.decided ==> self.probed < PROBED && self.primary is None
        &&& self.decided ==> self.primary is Some
        &&& forall|n: Seq<char>| #[trigger] self.probe.map().contains_key(n) ==> {
            &&& self.probe.map()[n].same_clock <= self.probe.map()[n].frames
            &&& self.probe.map()[n].frames <= self.probed
        }
    }

    /// The counts by source after one more frame.
    pub open spec fn counted(&self, key: Seq<char>) -> Map<Seq<char>, u64> {
        let m = self.sources.map();
        m.insert(
            key,
            if m.contains_key(key) {
                (m[key] + 1) as u64
            } else {
                1
            },
        )
    }

    /// Nothing seen yet.
    pub fn new() -> (res: Self)
        ensures
            res.wf(),
            !res.decided,
            res.primary is None,
            res.probed == 0,
            res.sources.spec_len() == 0,
            res.sources.map() == Map::<Seq<char>, u64>::empty(),
            res.probe.spec_len() == 0,
            res.probe.map() == Map::<Seq<char>, Probe>::empty(),
    {
        TrackerChoice {
            sources: Names::new(),
            probe: Names::new(),
            probed: 0,
            primary: None,
            decided: false,
        }
    }

    /// Note a tracker frame of a source; returns whether to use the frame. The
    /// first frames only serve to choose the source: the best one, of equally
    /// good ones the one that is last by name. Later frames are used if they are
    /// of that source.
    pub fn observe(&mut self, key: &str, same_clock: bool, flying: bool) -> (res: bool)
        requires
            old(self).wf(),
            old(self).sources.spec_len() < usize::MAX,
            old(self).sources.map().contains_key(key@) ==> old(self).sources.map()[key@]
                < u64::MAX,
        ensures
            final(self).wf(),
            final(self).sources.map() == old(self).counted(key@),
            old(self).decided ==> {
                &&& res == (old(self).primary matches Some(p) && p@ == key@)
                &&& final(self).decided
                &&& final(self).primary == old(self).primary
                &&& final(self).probe == old(self).probe
            },
            !old(self).decided ==> {
                &&& !res
                &&& final(self).probed == old(self).probed + 1
                &&& final(self).probe.map() == old(self).probe.map().insert(
                    key@,
                    probed(old(self).probe.map(), key@, same_clock, flying),
                )
                &&& final(self).decided == (final(self).probed == PROBED)
                &&& final(self).decided ==> exists|i: int|
                    #![trigger is_best(final(self).probe, i)]
                    is_best(final(self).probe, i) && final(self).primary->0@ == final(
                        self).probe.name(i)
            },
    {
        let seen: u64 = match self.sources.get(key) {
            Some(n) => n + 1,
            None => 1,
        };
        self.sources.put(key, seen);
        if self.decided {
            return match &self.primary {
                Some(p) => text::same(p.as_str(), key),
                None => false,
            };
        }
        let ghost before = self.probe.map();
        let p = match self.probe.get(key) {
            Some(p) => {
                assert(before.contains_key(key@));
                p
            },
            None => Probe { frames: 0, same_clock: 0, flying: false },
        };
        let next = Probe {
            frames: p.frames + 1,
            same_clock: if same_clock {
                p.same_clock + 1
            } else {
                p.same_clock
            },
            flying: p.flying || flying,
        };
        self.probe.put(key, next);
        self.probed = self.probed + 1;
        assert forall|n: Seq<char>| #[trigger] self.probe.map().contains_key(n) implies {
            &&& self.probe.map()[n].same_clock <= self.probe.map()[n].frames
            &&& self.probe.map()[n].frames <= self.probed
        } by {
            if n != key@ {
                assert(before.contains_key(n));
            }
        }
        if self.probed == PROBED {
            proof {
                self.probe.lemma_places();
                assert forall|j: int| 0 <= j < self.probe.spec_len() implies (
                #[trigger] self.probe.value(j)).wf() by {
                    assert(self.probe.map().contains_key(self.probe.name(j)));
                }
                assert(self.probe.map().contains_key(key@));
                assert(self.probe.has(key@));
            }
            let b: usize = best_source(&self.probe);
            let name = self.probe.name_at(b).as_str().to_owned();
            self.primary = Some(name);
            self.decided = true;
            assert(is_best(self.probe, b as int));
        }
        false
    }
}

/// The chosen source is on the clock of the cameras if any source is.
pub proof fn law_chosen_source_is_on_the_clock(probe: Names<Probe>, i: int, j: int)
    requires
        is_best(probe, i),
        0 <= j < probe.spec_len(),
        probe.value(j).on_clock(),
    ensures
        probe.value(i).on_clock(),
{
    assert(!probe.value(i).worse(probe.value(j)));
}

// ---------------------------------------------------------------- referee

/// The referee's command and how long it has held.
#[derive(Clone, Copy, Debug, PartialEq, Eq, Structural)]
pub struct RefereeState {
    /// The command; negative before the first one.
    pub command: i32,
    /// When it was first seen.
    pub since: Double,
    /// When the last referee record came.
    pub last: Double,
    /// How often the command changed.
    pub switches: u64,
}

/// The command a game is held under: halt, or a timeout of either team.
pub open spec fn holds_game(command: i32) -> bool {
    command == 0 || command == 12 || command == 13
}

/// Time that a command must have held for the game to have come to rest: 2 s.
pub const REF_STATIC_SETTLE: u64 = 0x4000_0000_0000_0000;

impl RefereeState {
    /// No command yet.
    pub fn new() -> (res: Self)
        ensures
            res == (RefereeState {
                command: -1i32,
                since: Double::zero(),
                last: Double::zero(),
                switches: 0,
            }),
    {
        RefereeState { command: -1, since: Double::zero(), last: Double::zero(), switches: 0 }
    }

    /// The state once a first command is known.
    pub open spec fn started(self, command: i32, now: Double) -> RefereeState {
        if self.command < 0 {
            RefereeState { command, since: now, last: now, switches: self.switches }
        } else {
            self
        }
    }

    /// The state after a referee record.
    pub open spec fn observed(self, command: i32, now: Double) -> RefereeState {
        let s = self.started(command, now);
        if command != s.command {
            RefereeState { command, since: now, last: now, switches: (s.switches + 1) as u64 }
        } else {
            RefereeState { last: now, ..s }
        }
    }

    /// Note a referee record; returns the command that held since the last record
    /// and when that record came. The time until now is that command's.
    pub fn observe(&mut self, command: i32, now: Double) -> (res: (i32, Double))
        requires
            old(self).switches < u64::MAX,
        ensures
            res.0 == old(self).started(command, now).command,
            res.1 == old(self).started(command, now).last,
            *final(self) == old(self).observed(command, now),
    {
        if self.command < 0 {
            self.command = command;
            self.since = now;
            self.last = now;
        }
        let credited = (self.command, self.last);
        self.last = now;
        if command != self.command {
            self.command = command;
            self.since = now;
            self.switches = self.switches + 1;
        }
        credited
    }

    /// Whether the game has been held for long, `held` after the command came.
    pub fn is_static(&self, held: Double) -> (res: bool)
        ensures
            res == (holds_game(self.command) && (Double { bits: REF_STATIC_SETTLE }).lt(held)),
    {
        (self.command == 0 || self.command == 12 || self.command == 13) && Double::from_bits(
            REF_STATIC_SETTLE,
        ).is_less(held)
    }
}

/// The first command is no switch, and a repeated command neither: exactly the
/// commands that differ from the one that holds are counted, and only they restart
/// the time that a command has held.
pub proof fn law_only_changes_are_switches(s: RefereeState, command: i32, now: Double)
    requires
        s.switches < u64::MAX,
    ensures
        s.observed(command, now).command == command,
        s.observed(command, now).switches == s.switches + (if s.command >= 0 && command
            != s.command {
            1int
        } else {
            0
        }),
        s.command == command && command >= 0 ==> s.observed(command, now).since == s.since,
{
}

// ---------------------------------------------------------------- calibration

/// Camera calibration as read from a geometry packet.
#[derive(Clone, Copy, Debug, PartialEq, Eq, Structural)]
pub struct Calib {
    /// Camera.
    pub id: u32,
    /// Focal length.
    pub focal: Double,
    /// Principal point along x.
    pub ppx: Double,
    /// Principal point along y.
    pub ppy: Double,
    /// Distortion.
    pub distortion: Double,
    /// First component of the rotation.
    pub q0: Double,
    /// Second component of the rotation.
    pub q1: Double,
    /// Third component of the rotation.
    pub q2: Double,
    /// Fourth component of the rotation.
    pub q3: Double,
    /// Translation along x.
    pub tx: Double,
    /// Translation along y.
    pub ty: Double,
    /// Translation along z.
    pub tz: Double,
    /// Camera position in the world, if known.
    pub world: Option<Position>,
    /// Image width.
    pub width: u32,
    /// Image height.
    pub height: u32,
}

/// A position in the world.
#[derive(Clone, Copy, Debug, PartialEq, Eq, Structural)]
pub struct Position {
    /// Along x.
    pub x: Double,
    /// Along y.
    pub y: Double,
    /// Along z.
    pub z: Double,
}

/// Two positions are numerically equal.
pub open spec fn same_position(a: Option<Position>, b: Option<Position>) -> bool {
    match (a, b) {
        (Some(p), Some(q)) => p.x.same(q.x) && p.y.same(q.y) && p.z.same(q.z),
        (None, None) => true,
        _ => false,
    }
}

impl Calib {
    /// Numerically equal in every component.
    pub open spec fn same(self, o: Calib) -> bool {
        &&& self.id == o.id
        &&& self.focal.same(o.focal)
        &&& self.ppx.same(o.ppx)
        &&& self.ppy.same(o.ppy)
        &&& self.distortion.same(o.distortion)
        &&& self.q0.same(o.q0)
        &&& self.q1.same(o.q1)
        &&& self.q2.same(o.q2)
        &&& self.q3.same(o.q3)
        &&& self.tx.same(o.tx)
        &&& self.ty.same(o.ty)
        &&& self.tz.same(o.tz)
        &&& same_position(self.world, o.world)
        &&& self.width == o.width
        &&& self.height == o.height
    }

    fn is_same(self, o: Calib) -> (res: bool)
        ensures
            res == self.same(o),
    {
        let world = match (self.world, o.world) {
            (Some(p), Some(q)) => p.x.is_same(q.x) && p.y.is_same(q.y) && p.z.is_same(q.z),
            (None, None) => true,
            _ => false,
        };
        self.id == o.id && self.focal.is_same(o.focal) && self.ppx.is_same(o.ppx)
            && self.ppy.is_same(o.ppy) && self.distortion.is_same(o.distortion)
            && self.q0.is_same(o.q0) && self.q1.is_same(o.q1) && self.q2.is_same(o.q2)
            && self.q3.is_same(o.q3) && self.tx.is_same(o.tx) && self.ty.is_same(o.ty)
            && self.tz.is_same(o.tz) && world && self.width == o.width && self.height == o.height
    }
}

/// The calibrations after one more, and whether it is a change: a camera that had
/// a different calibration before.
pub open spec fn calibrated(m: Map<u64, Calib>, c: Calib) -> (Map<u64, Calib>, bool) {
    let k = c.id as u64;
    if !m.contains_key(k) {
        (m.insert(k, c), false)
    } else if !m[k].same(c) {
        (m.insert(k, c), true)
    } else {
        (m, false)
    }
}

/// Note a camera's calibration; returns whether it differs from the one the camera
/// had before.
pub fn note_calibration(table: &mut Table<Calib>, c: Calib) -> (res: bool)
    requires
        old(table).wf(),
    ensures
        final(table).wf(),
        (final(table)@, res) == calibrated(old(table)@, c),
{
    let k: u64 = c.id as u64;
    match table.get(k) {
        None => {
            table.insert(k, c);
            false
        },
        Some(before) => {
            if !before.is_same(c) {
                table.insert(k, c);
                true
            } else {
                false
            }
        },
    }
}

/// A packet that repeats a calibration of numbers changes nothing.
pub proof fn law_repeated_calibration_is_no_change(m: Map<u64, Calib>, c: Calib)
    requires
        c.same(c),
    ensures
        calibrated(calibrated(m, c).0, c).1 == false,
        m.contains_key(c.id as u64) && m[c.id as u64] == c ==> calibrated(m, c).0 == m,
{
}

/// The calibrations after several more, and how many were changes.
pub open spec fn calibrated_all(m: Map<u64, Calib>, c: Seq<Calib>) -> (Map<u64, Calib>, nat)
    decreases c.len(),
{
    if c.len() == 0 {
        (m, 0)
    } else {
        let (before, n) = calibrated_all(m, c.drop_last());
        let (after, change) = calibrated(before, c.last());
        (
            after,
            if change {
                n + 1
            } else {
                n
            },
        )
    }
}

/// Counts of the geometry packets of a log.
#[derive(Clone, Debug)]
pub struct GeometryCounts {
    /// Packets.
    pub packets: u64,
    /// Calibrations that changed.
    pub changes: u64,
    /// Calibrations per packet.
    pub calibs_per_packet: Hist,
}

impl GeometryCounts {
    /// No packets yet.
    pub fn new() -> (res: Self)
        ensures
            res.packets == 0,
            res.changes == 0,
            res.calibs_per_packet@ == no_counts(10),
            res.calibs_per_packet.total() == 0,
    {
        GeometryCounts { packets: 0, changes: 0, calibs_per_packet: Hist::new(10) }
    }

    /// Note the calibrations of a packet.
    pub fn observe(&mut self, table: &mut Table<Calib>, calibs: &Vec<Calib>)
        requires
            old(table).wf(),
            old(self).packets < u64::MAX,
            old(self).changes + calibs@.len() <= u64::MAX,
            calibs@.len() <= i64::MAX,
            old(self).calibs_per_packet.total() < u64::MAX,
        ensures
            final(table).wf(),
            final(table)@ == calibrated_all(old(table)@, calibs@).0,
            final(self).packets == old(self).packets + 1,
            final(self).changes == old(self).changes + calibrated_all(old(table)@, calibs@).1,
            final(self).calibs_per_packet@ == counted(
                old(self).calibs_per_packet@,
                calibs@.len() as int,
            ),
    {
        let ghost start = table@;
        let total: usize = calibs.len();
        self.packets = self.packets + 1;
        self.calibs_per_packet.push(total as i64);
        let mut i: usize = 0;
        while i < total
            invariant
                i <= total,
                total == calibs@.len(),
                table.wf(),
                old(self).changes + calibs@.len() <= u64::MAX,
                calibrated_all(start, calibs@.take(i as int)).1 <= i,
                (table@, (self.changes - old(self).changes) as nat) == calibrated_all(
                    start,
                    calibs@.take(i as int),
                ),
                self.changes >= old(self).changes,
                *self == (GeometryCounts { changes: self.changes, ..*self }),
                self.packets == old(self).packets + 1,
                self.calibs_per_packet@ == counted(
                    old(self).calibs_per_packet@,
                    calibs@.len() as int,
                ),
            decreases total - i,
        {
            assert(calibs@.take(i + 1).drop_last() =~= calibs@.take(i as int));
            if note_calibration(table, calibs[i]) {
                self.changes = self.changes + 1;
            }
            i += 1;
        }
        assert(calibs@.take(i as int) =~= calibs@);
    }

    /// Fold the counts of another log in.
    pub fn merge(&mut self, o: &Self)
        requires
            old(self).packets + o.packets <= u64::MAX,
            old(self).changes + o.changes <= u64::MAX,
            old(self).calibs_per_packet.bins@.len() == o.calibs_per_packet.bins@.len(),
            old(self).calibs_per_packet.total() + o.calibs_per_packet.total() <= u64::MAX,
        ensures
            final(self).packets == old(self).packets + o.packets,
            final(self).changes == old(self).changes + o.changes,
            final(self).calibs_per_packet@ == merged_counts(
                old(self).calibs_per_packet@,
                o.calibs_per_packet@,
            ),
    {
        self.packets = self.packets + o.packets;
        self.changes = self.changes + o.changes;
        self.calibs_per_packet.merge(&o.calibs_per_packet);
    }
}

/// An interval between geometry packets counts below this: 60 s.
pub const GEOMETRY_MAX_INTERVAL: u64 = 0x404E_0000_0000_0000;

/// Whether the time since the last geometry packet counts: there was one, and it is
/// not negative nor a minute or longer.
pub fn interval_counts(last: Double, dt: Double) -> (res: bool)
    ensures
        res == (Double::zero().lt(last) && Double::zero().le(dt) && dt.lt(
            Double { bits: GEOMETRY_MAX_INTERVAL },
        )),
{
    last.is_positive() && Double::zero().is_at_most(dt) && dt.is_less(
        Double::from_bits(GEOMETRY_MAX_INTERVAL),
    )
}

/// The limits are the decimal numbers that they are said to be.
pub proof fn law_limits_in_decimals()
    ensures
        (Double { bits: REF_STATIC_SETTLE }).reads(2, 1),
        !(Double { bits: REF_STATIC_SETTLE }).negative(),
        (Double { bits: GEOMETRY_MAX_INTERVAL }).reads(60, 1),
        !(Double { bits: GEOMETRY_MAX_INTERVAL }).negative(),
{
    lemma_powers();
}

/// A character takes one byte up to 7 bits, two up to 11, three up to 16, four beyond.
pub proof fn law_utf8_lengths(c: char)
    ensures
        utf8_len(c) == 1 <==> (c as int) <= 0x7F,
        utf8_len(c) == 2 <==> 0x80 <= (c as int) <= 0x7FF,
        utf8_len(c) == 3 <==> 0x800 <= (c as int) <= 0xFFFF,
        utf8_len(c) == 4 <==> (c as int) > 0xFFFF,
{
}

/// The bytes of a text are those of its parts; a text of one character takes its bytes.
pub proof fn law_bytes_add_up(a: Seq<char>, b: Seq<char>, c: char)
    ensures
        utf8_bytes(a + b) == utf8_bytes(a) + utf8_bytes(b),
        utf8_bytes(seq![c]) == utf8_len(c),
        utf8_bytes(Seq::<char>::empty()) == 0,
    decreases b.len(),
{
    reveal_with_fuel(utf8_bytes, 2);
    assert(seq![c].drop_last() =~= Seq::<char>::empty());
    if b.len() == 0 {
        assert(a + b =~= a);
    } else {
        law_bytes_add_up(a, b.drop_last(), c);
        assert((a + b).drop_last() =~= a + b.drop_last());
    }
}

/// A beginning of a text holds exactly the bytes asked for, or is all of a text that
/// has fewer; there is at most one such beginning.
pub proof fn law_byte_prefixes(s: Seq<char>, limit: nat, n: int, m: int)
    ensures
        is_byte_prefix(s, limit, n) <==> 0 <= n <= s.len() && (utf8_bytes(s.take(n)) == limit || (n
            == s.len() && utf8_bytes(s) < limit)),
        is_byte_prefix(s, limit, n) && is_byte_prefix(s, limit, m) ==> m == n,
{
    assert(s.take(s.len() as int) =~= s);
    if is_byte_prefix(s, limit, n) && is_byte_prefix(s, limit, m) {
        if m < n {
            lemma_bytes_grow(s, m, n);
        } else if n < m {
            lemma_bytes_grow(s, n, m);
        }
    }
}

/// A label is the source's name, or a question mark without one, and the uuid in square
/// brackets behind it.
pub proof fn law_labels_name_source_and_uuid(name: Option<Seq<char>>, uuid: Seq<char>)
    ensures
        name matches Some(n) ==> source_label(name, uuid) == n + (seq![' ', '['] + uuid + seq![']']),
        name is None ==> source_label(name, uuid) == seq!['?', ' ', '['] + uuid + seq![']'],
{
    reveal_strlit("?");
    reveal_strlit(" [");
    reveal_strlit("]");
    if let Some(n) = name {
        assert(source_label(name, uuid) =~= n + (seq![' ', '['] + uuid + seq![']']));
    } else {
        assert(source_label(name, uuid) =~= seq!['?', ' ', '['] + uuid + seq![']']);
    }
}

/// A source is on the clock if half of its frames or more are. One on the clock beats
/// one that is not; among equals in that, one that detects flying balls beats one that
/// does not; among equals in both, the one with more frames wins.
pub proof fn law_worse_sources(a: Probe, b: Probe)
    ensures
        a.on_clock() <==> a.same_clock >= a.frames - a.same_clock,
        a.on_clock() && !b.on_clock() ==> b.worse(a) && !a.worse(b),
        a.on_clock() == b.on_clock() && a.flying && !b.flying ==> b.worse(a) && !a.worse(b),
        a.on_clock() == b.on_clock() && a.flying == b.flying ==> (b.worse(a) <==> b.frames < a.frames),
{
}

/// The best source has none better, and none as good behind it.
pub proof fn law_best_source(probe: Names<Probe>, i: int, j: int)
    requires
        is_best(probe, i),
        0 <= j < probe.spec_len(),
    ensures
        0 <= i < probe.spec_len(),
        !probe.value(i).worse(probe.value(j)),
        j > i ==> probe.value(j).worse(probe.value(i)),
{
}

/// A frame adds one to its source's frames, and one to those on the clock if it is; a
/// source that ever detected flying balls does so from then on. A new source starts
/// from nothing.
pub proof fn law_probes_add_up(m: Map<Seq<char>, Probe>, key: Seq<char>, same_clock: bool, flying: bool)
    requires
        m.contains_key(key) ==> m[key].frames < u64::MAX && m[key].same_clock < u64::MAX,
    ensures
        ({
            let p = probed(m, key, same_clock, flying);
            let one = if same_clock {
                1int
            } else {
                0
            };
            &&& m.contains_key(key) ==> p.frames == m[key].frames + 1 && p.same_clock == m[key].same_clock
                + one && (p.flying <==> m[key].flying || flying)
            &&& !m.contains_key(key) ==> p.frames == 1 && p.same_clock == one && p.flying == flying
        }),
{
}

/// Counting a frame of a source raises its count by one, from nothing for a new source,
/// and no other.
pub proof fn law_frames_are_counted_by_source(t: TrackerChoice, key: Seq<char>, other: Seq<char>)
    requires
        t.sources.map().contains_key(key) ==> t.sources.map()[key] < u64::MAX,
    ensures
        t.counted(key).contains_key(key),
        t.counted(key)[key] == if t.sources.map().contains_key(key) {
            t.sources.map()[key] + 1
        } else {
            1
        },
        other != key ==> (t.counted(key).contains_key(other) <==> t.sources.map().contains_key(other)),
        other != key && t.sources.map().contains_key(other) ==> t.counted(key)[other]
            == t.sources.map()[other],
{
}

/// Halt is command 0, the timeouts of the teams are 12 and 13; these and no others hold
/// the game.
pub proof fn law_commands_that_hold_the_game(command: i32)
    ensures
        holds_game(command) <==> command == 0 || command == 12 || command == 13,
{
}

/// A command holds since it was first seen: since now if it is the first or another
/// one than before, else since when it did. The last record is always the one now.
pub proof fn law_commands_hold_since_they_came(s: RefereeState, command: i32, now: Double)
    ensures
        s.observed(command, now).last == now,
        s.command < 0 || s.command != command ==> s.observed(command, now).since == now,
        s.command >= 0 && s.command == command ==> s.observed(command, now).since == s.since,
        s.command < 0 ==> s.started(command, now).command == command && s.started(command, now).last
            == now && s.started(command, now).since == now && s.started(command, now).switches
            == s.switches,
        s.command >= 0 ==> s.started(command, now) == s,
{
}

/// Calibrations are the same if every component is: a difference in any one of them is
/// a difference.
pub proof fn law_calibrations_differ_in_any_component(a: Calib, b: Calib)
    ensures
        a.same(b) <==> a.id == b.id && a.width == b.width && a.height == b.height
            && a.focal.same(b.focal)
            && a.ppx.same(b.ppx)
            && a.ppy.same(b.ppy)
            && a.distortion.same(b.distortion)
            && a.q0.same(b.q0)
            && a.q1.same(b.q1)
            && a.q2.same(b.q2)
            && a.q3.same(b.q3)
            && a.tx.same(b.tx)
            && a.ty.same(b.ty)
            && a.tz.same(b.tz)
            && same_position(a.world, b.world),
        same_position(a.world, b.world) <==> (a.world is None && b.world is None) || (a.world is Some
            && b.world is Some && (a.world->0).x.same((b.world->0).x) && (a.world->0).y.same(
            (b.world->0).y,
        ) && (a.world->0).z.same((b.world->0).z)),
{
}

/// A calibration is held under its camera's id and changes no other camera's; it is a
/// change exactly if that camera had a different one.
pub proof fn law_calibrations_are_held_by_camera(m: Map<u64, Calib>, c: Calib, k: u64)
    ensures
        ({
            let (after, change) = calibrated(m, c);
            &&& after.contains_key(c.id as u64)
            &&& change <==> m.contains_key(c.id as u64) && !m[c.id as u64].same(c)
            &&& change || !m.contains_key(c.id as u64) ==> after[c.id as u64] == c
            &&& m.contains_key(c.id as u64) && !change ==> after == m
            &&& k != c.id ==> (after.contains_key(k) <==> m.contains_key(k))
            &&& k != c.id && m.contains_key(k) ==> after[k] == m[k]
        }),
{
}

/// Several calibrations are noted one after the other, each against what those before it
/// left.
pub proof fn law_calibrations_are_noted_in_order(m: Map<u64, Calib>, c: Seq<Calib>, x: Calib)
    ensures
        calibrated_all(m, Seq::empty()) == (m, 0nat),
        calibrated_all(m, c.push(x)).0 == calibrated(calibrated_all(m, c).0, x).0,
        calibrated_all(m, c.push(x)).1 == calibrated_all(m, c).1 + (if calibrated(
            calibrated_all(m, c).0,
            x,
        ).1 {
            1int
        } else {
            0
        }),
{
    assert(c.push(x).drop_last() =~= c);
}

/// A source is chosen after four hundred frames.
pub proof fn law_probed_frames()
    ensures
        PROBED == 400,
{
}

} // verus!
