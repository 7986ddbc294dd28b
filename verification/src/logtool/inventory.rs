//! What a log holds: record counts, time span, cameras and referee commands.
use vstd::prelude::*;

use crate::double::Double;
use crate::table::Table;

verus! {

/// What an inventory notes of one record.
#[derive(Clone, Copy, Debug, PartialEq, Eq, Structural)]
pub enum Item {
    /// A vision record: its detection's camera and capture time, if it has a
    /// detection, and whether it has a geometry.
    Vision {
        /// Camera and capture time.
        detection: Option<Capture>,
        /// Whether a geometry is there.
        geometry: bool,
    },
    /// A referee record with its command.
    Referee(i32),
    /// A tracker record.
    Tracker,
    /// Anything else.
    Other,
}

/// A camera's capture.
#[derive(Clone, Copy, Debug, PartialEq, Eq, Structural)]
pub struct Capture {
    /// Camera.
    pub camera_id: u32,
    /// Capture time in seconds.
    pub t_capture: Double,
}

/// How many records of each kind there are.
#[derive(Clone, Copy, Debug, PartialEq, Eq, Structural)]
pub struct Kinds {
    /// Vision records.
    pub vision: u64,
    /// Referee records.
    pub referee: u64,
    /// Tracker records.
    pub tracker: u64,
    /// Other records.
    pub other: u64,
}

/// What is known of one camera.
#[derive(Clone, Copy, Debug, PartialEq, Eq, Structural)]
pub struct CameraSpan {
    /// Frames.
    pub frames: u64,
    /// Capture time of the first frame.
    pub first: Double,
    /// Capture time of the last frame.
    pub last: Double,
}

/// Key of a referee command, in the order of the commands.
pub open spec fn command_key(command: i32) -> u64 {
    (command + 0x8000_0000) as u64
}

/// The command with this key.
pub open spec fn command_of_key(key: u64) -> int {
    key - 0x8000_0000
}

/// An inventory of the records seen so far.
#[derive(Clone, Debug)]
pub struct Inventory {
    /// Records by kind.
    pub kinds: Kinds,
    /// Cameras, by id.
    pub cameras: Table<CameraSpan>,
    /// Geometry packets.
    pub geometry: u64,
    /// Receive time of the first and last record.
    pub times: Option<(i64, i64)>,
    /// How often each referee command was seen, by [`command_key`].
    pub commands: Table<u64>,
    /// Records seen.
    pub records: u64,
}

impl Inventory {
    /// No count exceeds the number of records.
    pub open spec fn wf(&self) -> bool {
        &&& self.cameras.wf()
        &&& self.commands.wf()
        &&& self.kinds.vision + self.kinds.referee + self.kinds.tracker + self.kinds.other
            == self.records
        &&& self.geometry <= self.records
        &&& forall|k: u64|
            #![trigger self.cameras@.contains_key(k)]
            self.cameras@.contains_key(k) ==> self.cameras@[k].frames <= self.records
        &&& forall|k: u64|
            #![trigger self.commands@.contains_key(k)]
            self.commands@.contains_key(k) ==> self.commands@[k] <= self.records
    }

    /// The camera's entry after one more capture.
    pub open spec fn camera_after(&self, c: Capture) -> CameraSpan {
        let k = c.camera_id as u64;
        if self.cameras@.contains_key(k) {
            let old_span = self.cameras@[k];
            CameraSpan {
                frames: (old_span.frames + 1) as u64,
                first: old_span.first,
                last: c.t_capture,
            }
        } else {
            CameraSpan { frames: 1, first: c.t_capture, last: c.t_capture }
        }
    }

    /// The cameras after one more record.
    pub open spec fn cameras_after(&self, item: Item) -> Map<u64, CameraSpan> {
        match item {
            Item::Vision { detection: Some(c), geometry } => self.cameras@.insert(
                c.camera_id as u64,
                self.camera_after(c),
            ),
            _ => self.cameras@,
        }
    }

    /// The referee commands after one more record.
    pub open spec fn commands_after(&self, item: Item) -> Map<u64, u64> {
        match item {
            Item::Referee(c) => {
                let k = command_key(c);
                self.commands@.insert(
                    k,
                    if self.commands@.contains_key(k) {
                        (self.commands@[k] + 1) as u64
                    } else {
                        1
                    },
                )
            },
            _ => self.commands@,
        }
    }

    /// The counts by kind after one more record.
    pub open spec fn kinds_after(&self, item: Item) -> Kinds {
        match item {
            Item::Vision { .. } => Kinds { vision: (self.kinds.vision + 1) as u64, ..self.kinds },
            Item::Referee(_) => Kinds { referee: (self.kinds.referee + 1) as u64, ..self.kinds },
            Item::Tracker => Kinds { tracker: (self.kinds.tracker + 1) as u64, ..self.kinds },
            Item::Other => Kinds { other: (self.kinds.other + 1) as u64, ..self.kinds },
        }
    }

    /// Nothing seen yet.
    pub fn new() -> (res: Self)
        ensures
            res.wf(),
            res.records == 0,
            res.geometry == 0,
            res.times is None,
            res.kinds == (Kinds { vision: 0, referee: 0, tracker: 0, other: 0 }),
            res.cameras.entries().len() == 0,
            res.cameras@ == Map::<u64, CameraSpan>::empty(),
            res.commands.entries().len() == 0,
            res.commands@ == Map::<u64, u64>::empty(),
    {
        Inventory {
            kinds: Kinds { vision: 0, referee: 0, tracker: 0, other: 0 },
            cameras: Table::new(),
            geometry: 0,
            times: None,
            commands: Table::new(),
            records: 0,
        }
    }

    /// Note one record received at `time_ns`.
    pub fn add_record(&mut self, time_ns: i64, item: Item)
        requires
            old(self).wf(),
            old(self).records < u64::MAX,
        ensures
            final(self).wf(),
            final(self).records == old(self).records + 1,
            final(self).kinds == old(self).kinds_after(item),
            final(self).cameras@ == old(self).cameras_after(item),
            final(self).commands@ == old(self).commands_after(item),
            final(self).geometry == old(self).geometry + (if item matches Item::Vision {
                detection,
                geometry,
            } && geometry {
                1int
            } else {
                0
            }),
            final(self).times == Some(
                (
                    match old(self).times {
                        Some((first, last)) => first,
                        None => time_ns,
                    },
                    time_ns,
                ),
            ),
    {
        let ghost cameras0 = self.cameras@;
        let ghost commands0 = self.commands@;
        self.records = self.records + 1;
        self.times = match self.times {
            Some((first, _)) => Some((first, time_ns)),
            None => Some((time_ns, time_ns)),
        };
        match item {
            Item::Vision { detection, geometry } => {
                self.kinds.vision = self.kinds.vision + 1;
                if let Some(c) = detection {
                    let k: u64 = c.camera_id as u64;
                    let span = match self.cameras.get(k) {
                        Some(s) => {
                            assert(cameras0.contains_key(k));
                            CameraSpan { frames: s.frames + 1, first: s.first, last: c.t_capture }
                        },
                        None => CameraSpan { frames: 1, first: c.t_capture, last: c.t_capture },
                    };
                    self.cameras.insert(k, span);
                }
                if geometry {
                    self.geometry = self.geometry + 1;
                }
            },
            Item::Referee(c) => {
                self.kinds.referee = self.kinds.referee + 1;
                let k: u64 = (c as i64 + 0x8000_0000) as u64;
                let n: u64 = match self.commands.get(k) {
                    Some(n) => {
                        assert(commands0.contains_key(k));
                        *n + 1
                    },
                    None => 1,
                };
                self.commands.insert(k, n);
            },
            Item::Tracker => {
                self.kinds.tracker = self.kinds.tracker + 1;
            },
            Item::Other => {
                self.kinds.other = self.kinds.other + 1;
            },
        }
    }

    /// Time from the first to the last record; 0 before there is one.
    pub fn span_ns(&self) -> (res: i128)
        ensures
            res == match self.times {
                Some((first, last)) => last - first,
                None => 0,
            },
    {
        match self.times {
            Some((first, last)) => last as i128 - first as i128,
            None => 0,
        }
    }
}

/// Whether to stop reading after `count` records; a limit of 0 is none.
pub fn limit_reached(count: u64, limit: u64) -> (res: bool)
    ensures
        res == (limit > 0 && count >= limit),
{
    limit > 0 && count >= limit
}

/// Keys keep the order of the commands, and each gives its command back.
pub proof fn law_command_keys_keep_order(a: i32, b: i32)
    ensures
        a < b <==> command_key(a) < command_key(b),
        command_of_key(command_key(a)) == a,
{
}

/// A record of each kind raises the count of that kind by one and no other.
pub proof fn law_records_count_by_kind(v: Inventory, item: Item)
    requires
        v.kinds.vision < u64::MAX && v.kinds.referee < u64::MAX && v.kinds.tracker < u64::MAX
            && v.kinds.other < u64::MAX,
    ensures
        ({
            let k = v.kinds_after(item);
            let one = |b: bool| if b {
                1int
            } else {
                0int
            };
            &&& k.vision == v.kinds.vision + one(item is Vision)
            &&& k.referee == v.kinds.referee + one(item is Referee)
            &&& k.tracker == v.kinds.tracker + one(item is Tracker)
            &&& k.other == v.kinds.other + one(item is Other)
        }),
{
}

/// A detection counts one frame for its camera, whose first capture stays and whose last
/// one is this; other cameras and other records change no camera.
pub proof fn law_detections_count_by_camera(v: Inventory, item: Item, k: u64)
    requires
        v.cameras@.contains_key(k) ==> v.cameras@[k].frames < u64::MAX,
    ensures
        ({
            let m = v.cameras@;
            let after = v.cameras_after(item);
            let of_camera = item matches Item::Vision { detection: Some(c), geometry } && c.camera_id
                == k;
            &&& !of_camera ==> (after.contains_key(k) <==> m.contains_key(k))
            &&& !of_camera && m.contains_key(k) ==> after[k] == m[k]
            &&& item matches Item::Vision { detection: Some(c), geometry } ==> (c.camera_id == k ==> {
                &&& after.contains_key(k)
                &&& after[k].last == c.t_capture
                &&& m.contains_key(k) ==> after[k].first == m[k].first && after[k].frames == m[k].frames
                    + 1
                &&& !m.contains_key(k) ==> after[k].first == c.t_capture && after[k].frames == 1
            })
        }),
{
}

/// A referee record counts one for its command and none for any other.
pub proof fn law_commands_are_counted(v: Inventory, item: Item, command: i32)
    requires
        v.commands@.contains_key(command_key(command)) ==> v.commands@[command_key(command)] < u64::MAX,
    ensures
        ({
            let k = command_key(command);
            let m = v.commands@;
            let after = v.commands_after(item);
            &&& item == Item::Referee(command) ==> after.contains_key(k) && after[k] == (
            if m.contains_key(k) {
                m[k] + 1
            } else {
                1
            })
            &&& item != Item::Referee(command) ==> (after.contains_key(k) <==> m.contains_key(k)) && (
            m.contains_key(k) ==> after[k] == m[k])
        }),
{
    if let Item::Referee(c) = item {
        if c != command {
            law_command_keys_keep_order(c, command);
            law_command_keys_keep_order(command, c);
        }
    }
}

} // verus!
