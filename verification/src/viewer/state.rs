//! Shared world snapshot fed by the receiver threads and read by the UI.
//!
//! Detection coordinates stay in the millimetres the SSL vision protocol uses.
//! Times are nanoseconds on a clock that does not run backwards.
use vstd::prelude::*;

use crate::net::packets::{BallMessage, FrameMessage, RobotMessage, WrapperPacket};
use crate::net::wire;
use crate::table::Table;
use crate::text;

verus! {

/// A stream is considered live if a packet arrived within this long.
pub const LIVE_TIMEOUT: u64 = 1_500_000_000;

/// Length of the sliding window used for the packet-rate counters.
pub const RATE_WINDOW: u64 = 1_000_000_000;

/// Time from `a` to `b`, or 0 when `b` is before `a`.
pub open spec fn since(a: u64, b: u64) -> int {
    if b >= a {
        b - a
    } else {
        0
    }
}

fn elapsed(a: u64, b: u64) -> (res: u64)
    ensures
        res == since(a, b),
{
    if b >= a {
        b - a
    } else {
        0
    }
}

/// Sliding-window packet rate counter.
#[derive(Clone, Copy, Debug, PartialEq, Eq)]
pub struct RateCounter {
    /// When the current window started.
    pub window_start: u64,
    /// Packets in the current window.
    pub window_count: u32,
    /// Packets and length of the last completed window; their quotient is the
    /// packet rate. `None` before a window is complete.
    pub completed: Option<(u32, u64)>,
    /// Total packets seen since start.
    pub total: u64,
    /// When the most recent packet arrived.
    pub last: u64,
}

impl RateCounter {
    /// Whether one more packet can be counted.
    pub open spec fn has_room(self) -> bool {
        self.total < u64::MAX && self.window_count < u32::MAX
    }

    /// Whether the stream counts as up: its last packet is more recent than
    /// [`LIVE_TIMEOUT`].
    pub open spec fn live(self, now: u64) -> bool {
        since(self.last, now) < LIVE_TIMEOUT
    }

    /// The counter after one more packet at `now`: when the window is over, its
    /// packets and its length are kept and a new window starts.
    pub open spec fn ticked(self, now: u64) -> RateCounter {
        let length = since(self.window_start, now);
        if length >= RATE_WINDOW {
            RateCounter {
                window_start: now,
                window_count: 0,
                completed: Some(((self.window_count + 1) as u32, length as u64)),
                total: (self.total + 1) as u64,
                last: now,
            }
        } else {
            RateCounter {
                window_start: self.window_start,
                window_count: (self.window_count + 1) as u32,
                completed: self.completed,
                total: (self.total + 1) as u64,
                last: now,
            }
        }
    }

    /// The counter that has just seen its first packet.
    pub open spec fn first(now: u64) -> RateCounter {
        RateCounter { window_start: now, window_count: 1, completed: None, total: 1, last: now }
    }

    /// A counter that has just seen its first packet at `now`.
    pub fn new(now: u64) -> (res: Self)
        ensures
            res == RateCounter::first(now),
    {
        RateCounter { window_start: now, window_count: 1, completed: None, total: 1, last: now }
    }

    /// Record one packet received at `now`.
    pub fn tick(&mut self, now: u64)
        requires
            old(self).has_room(),
        ensures
            *final(self) == old(self).ticked(now),
    {
        self.total = self.total + 1;
        self.window_count = self.window_count + 1;
        self.last = now;
        let length: u64 = elapsed(self.window_start, now);
        if length >= RATE_WINDOW {
            self.completed = Some((self.window_count, length));
            self.window_start = now;
            self.window_count = 0;
        }
    }

    /// Whether a packet arrived recently enough for the stream to count as up.
    pub fn is_live(&self, now: u64) -> (res: bool)
        ensures
            res == self.live(now),
    {
        elapsed(self.last, now) < LIVE_TIMEOUT
    }
}

/// The latest detection frame from one camera plus its rate counter.
#[derive(Clone, Debug, PartialEq, Eq)]
pub struct CameraState {
    /// Most recent detection frame from this camera.
    pub frame: FrameMessage,
    /// Packet rate for this camera.
    pub rate: RateCounter,
}

/// Ground truth from the optional tracker stream, with frames of type `T`.
#[derive(Clone, Debug, PartialEq, Eq)]
pub struct TruthState<T> {
    /// Most recent tracked frame.
    pub frame: T,
    /// Name reported by the source, if any.
    pub source: Option<String>,
    /// Packet rate for the tracker stream.
    pub rate: RateCounter,
}

/// One detection with the camera that reported it.
#[derive(Clone, Copy, Debug, PartialEq, Eq)]
pub struct Seen<T> {
    /// Camera that reported the detection.
    pub camera_id: u32,
    /// The detection itself.
    pub value: T,
}

/// Detections merged across all cameras, ready for drawing.
#[derive(Clone, Debug, PartialEq, Eq)]
pub struct Merged {
    /// All balls from all cameras.
    pub balls: Vec<Seen<BallMessage>>,
    /// All blue robots from all cameras.
    pub blue: Vec<Seen<RobotMessage>>,
    /// All yellow robots from all cameras.
    pub yellow: Vec<Seen<RobotMessage>>,
}

/// Detections with the camera that reported them.
pub open spec fn seen_by<T>(camera: u64, values: Seq<T>) -> Seq<Seen<T>> {
    Seq::new(values.len(), |i: int| Seen { camera_id: camera as u32, value: values[i] })
}

/// The balls of all live cameras, camera by camera.
pub open spec fn live_balls(cameras: Seq<(u64, CameraState)>, now: u64) -> Seq<Seen<BallMessage>>
    decreases cameras.len(),
{
    if cameras.len() == 0 {
        seq![]
    } else {
        let before = live_balls(cameras.drop_last(), now);
        let (id, c) = cameras.last();
        if c.rate.live(now) {
            before + seen_by(id, c.frame.balls@)
        } else {
            before
        }
    }
}

/// The robots of one team of all live cameras, camera by camera.
pub open spec fn live_robots(cameras: Seq<(u64, CameraState)>, now: u64, blue: bool) -> Seq<
    Seen<RobotMessage>,
>
    decreases cameras.len(),
{
    if cameras.len() == 0 {
        seq![]
    } else {
        let before = live_robots(cameras.drop_last(), now, blue);
        let (id, c) = cameras.last();
        if c.rate.live(now) {
            before + seen_by(
                id,
                if blue {
                    c.frame.robots_blue@
                } else {
                    c.frame.robots_yellow@
                },
            )
        } else {
            before
        }
    }
}

fn extend_seen<T: Copy>(out: &mut Vec<Seen<T>>, camera: u64, values: &Vec<T>)
    requires
        camera <= u32::MAX,
    ensures
        final(out)@ == old(out)@ + seen_by(camera, values@),
{
    let ghost start = out@;
    let mut i: usize = 0;
    while i < values.len()
        invariant
            camera <= u32::MAX,
            i <= values@.len(),
            out@ == start + seen_by(camera, values@.take(i as int)),
        decreases values.len() - i,
    {
        out.push(Seen { camera_id: camera as u32, value: values[i] });
        i += 1;
        assert(seen_by(camera, values@.take(i as int)) =~= seen_by(
            camera,
            values@.take(i - 1),
        ).push(Seen { camera_id: camera as u32, value: values@[i - 1] }));
        assert(out@ =~= start + seen_by(camera, values@.take(i as int)));
    }
    assert(values@.take(i as int) =~= values@);
}

/// What the status panel shows of one camera.
#[derive(Clone, Copy, Debug, PartialEq, Eq)]
pub struct CameraStat {
    /// Camera.
    pub id: u32,
    /// Packet rate.
    pub rate: RateCounter,
    /// Whether it is up.
    pub live: bool,
    /// Balls in the last frame.
    pub balls: usize,
    /// Robots in the last frame, of both teams together, up to the largest count.
    pub robots: usize,
}

/// What the status panel shows of one camera.
pub open spec fn stat_of(id: u64, c: CameraState, now: u64) -> CameraStat {
    let robots = c.frame.robots_blue@.len() + c.frame.robots_yellow@.len();
    CameraStat {
        id: id as u32,
        rate: c.rate,
        live: c.rate.live(now),
        balls: c.frame.balls@.len() as usize,
        robots: if robots > usize::MAX {
            usize::MAX
        } else {
            robots as usize
        },
    }
}

/// Everything the UI draws, updated by the receiver threads, with geometry of
/// type `G` and ground-truth frames of type `T`.
#[derive(Clone, Debug)]
pub struct State<G, T> {
    /// Latest geometry packet seen on the vision stream.
    pub geometry: Option<G>,
    /// Latest detection frame per camera id.
    pub cameras: Table<CameraState>,
    /// Latest ground-truth frame, if the tracker stream is enabled.
    pub truth: Option<TruthState<T>>,
    /// Vision packets that failed to decode.
    pub vision_decode_errors: u64,
    /// Tracker packets that failed to decode.
    pub truth_decode_errors: u64,
    /// Last socket/decode error message, for the status panel.
    pub last_error: Option<String>,
}

impl<G, T> State<G, T> {
    /// The cameras are in order and have 32-bit ids.
    pub open spec fn wf(&self) -> bool {
        &&& self.cameras.wf()
        &&& forall|i: int|
            0 <= i < self.cameras.entries().len() ==> (#[trigger] self.cameras.entries()[i]).0
                <= u32::MAX
    }

    /// Whether one more frame of a camera can be counted.
    pub open spec fn has_room(&self, camera_id: u32) -> bool {
        self.cameras@.contains_key(camera_id as u64) ==> self.cameras@[camera_id as u64].rate.has_room()
    }

    /// The camera's state after one more frame at `now`.
    pub open spec fn camera_after(&self, frame: FrameMessage, now: u64) -> CameraState {
        let id = frame.camera_id as u64;
        CameraState {
            frame,
            rate: if self.cameras@.contains_key(id) {
                self.cameras@[id].rate.ticked(now)
            } else {
                RateCounter::first(now)
            },
        }
    }

    /// Nothing received yet.
    pub fn new() -> (res: Self)
        ensures
            res.wf(),
            res.geometry is None,
            res.cameras.entries().len() == 0,
            res.cameras@ == Map::<u64, CameraState>::empty(),
            res.truth is None,
            res.vision_decode_errors == 0,
            res.truth_decode_errors == 0,
            res.last_error is None,
    {
        State {
            geometry: None,
            cameras: Table::new(),
            truth: None,
            vision_decode_errors: 0,
            truth_decode_errors: 0,
            last_error: None,
        }
    }

    /// Fold a decoded vision wrapper packet into the state.
    ///
    /// Geometry is latched (the simulator only sends it every N frames) and
    /// detection frames are kept per camera, newest wins.
    pub fn apply_wrapper(&mut self, packet: WrapperPacket<G>, now: u64)
        requires
            old(self).wf(),
            packet.detection matches Some(f) ==> old(self).has_room(f.camera_id),
        ensures
            final(self).wf(),
            final(self).geometry == if packet.geometry is Some {
                packet.geometry
            } else {
                old(self).geometry
            },
            match packet.detection {
                Some(f) => final(self).cameras@ == old(self).cameras@.insert(
                    f.camera_id as u64,
                    old(self).camera_after(f, now),
                ),
                None => final(self).cameras == old(self).cameras,
            },
            final(self).truth == old(self).truth,
            final(self).vision_decode_errors == old(self).vision_decode_errors,
            final(self).truth_decode_errors == old(self).truth_decode_errors,
            final(self).last_error == old(self).last_error,
    {
        if packet.geometry.is_some() {
            self.geometry = packet.geometry;
        }
        if let Some(frame) = packet.detection {
            let id: u64 = frame.camera_id as u64;
            let mut rate = RateCounter::new(now);
            if let Some(camera) = self.cameras.get(id) {
                rate = camera.rate;
                rate.tick(now);
            }
            let ghost before = self.cameras;
            self.cameras.insert(id, CameraState { frame, rate });
            proof {
                assert forall|i: int| 0 <= i < self.cameras.entries().len() implies (
                #[trigger] self.cameras.entries()[i]).0 <= u32::MAX by {
                    crate::table::law_entries_are_the_map(self.cameras, i);
                    let k = self.cameras.entries()[i].0;
                    if k != id {
                        assert(before@.contains_key(k));
                        let s = before.entries();
                        let j = choose|j: int| 0 <= j < s.len() && (#[trigger] s[j]).0 == k;
                        assert(s[j].0 <= u32::MAX);
                    }
                }
            }
        }
    }

    /// Take in a vision datagram: `decoded` is what it was decoded to, or why it
    /// could not be. A datagram that cannot be a message at all, or was not
    /// decoded, is counted and its error kept; it changes nothing else.
    pub fn receive_vision(
        &mut self,
        bytes: &[u8],
        decoded: Result<WrapperPacket<G>, String>,
        now: u64,
    )
        requires
            old(self).wf(),
            old(self).vision_decode_errors < u64::MAX,
            decoded matches Ok(p) ==> (p.detection matches Some(f) ==> old(self).has_room(
                f.camera_id,
            )),
        ensures
            final(self).wf(),
            final(self).truth == old(self).truth,
            final(self).truth_decode_errors == old(self).truth_decode_errors,
            wire::walkable(bytes@) && decoded is Ok ==> {
                let p = decoded->Ok_0;
                &&& final(self).vision_decode_errors == old(self).vision_decode_errors
                &&& final(self).last_error == old(self).last_error
                &&& final(self).geometry == if p.geometry is Some {
                    p.geometry
                } else {
                    old(self).geometry
                }
                &&& match p.detection {
                    Some(f) => final(self).cameras@ == old(self).cameras@.insert(
                        f.camera_id as u64,
                        old(self).camera_after(f, now),
                    ),
                    None => final(self).cameras == old(self).cameras,
                }
            },
            !(wire::walkable(bytes@) && decoded is Ok) ==> {
                &&& final(self).vision_decode_errors == old(self).vision_decode_errors + 1
                &&& final(self).last_error matches Some(t) && t@ == "vision decode: "@ + (
                match decoded {
                    Err(e) => e@,
                    Ok(_) => "malformed message"@,
                })
                &&& final(self).geometry == old(self).geometry
                &&& final(self).cameras == old(self).cameras
            },
            bytes@.len() > 0 && (forall|i: int| 0 <= i < bytes@.len() ==> bytes@[i] >= 128)
                ==> final(self).vision_decode_errors == old(self).vision_decode_errors + 1,
    {
        let ok = wire::readable(bytes);
        match decoded {
            Ok(packet) => {
                if ok {
                    self.apply_wrapper(packet, now);
                } else {
                    self.vision_decode_errors = self.vision_decode_errors + 1;
                    self.last_error = Some(text::join("vision decode: ", "malformed message"));
                }
            },
            Err(e) => {
                self.vision_decode_errors = self.vision_decode_errors + 1;
                self.last_error = Some(text::join("vision decode: ", e.as_str()));
            },
        }
    }

    /// The ground truth after one more frame.
    pub open spec fn truth_after(
        &self,
        frame: T,
        source: Option<String>,
        now: u64,
    ) -> TruthState<T> {
        TruthState {
            frame,
            source,
            rate: match self.truth {
                Some(t) => t.rate.ticked(now),
                None => RateCounter::first(now),
            },
        }
    }

    /// Fold a decoded tracker wrapper packet into the state; one without a frame
    /// changes nothing.
    pub fn apply_tracker(&mut self, frame: Option<T>, source: Option<String>, now: u64)
        requires
            old(self).wf(),
            old(self).truth matches Some(t) ==> t.rate.has_room(),
        ensures
            final(self).wf(),
            final(self).truth == match frame {
                Some(f) => Some(old(self).truth_after(f, source, now)),
                None => old(self).truth,
            },
            final(self).geometry == old(self).geometry,
            final(self).cameras == old(self).cameras,
            final(self).vision_decode_errors == old(self).vision_decode_errors,
            final(self).truth_decode_errors == old(self).truth_decode_errors,
            final(self).last_error == old(self).last_error,
    {
        if let Some(f) = frame {
            let mut rate = RateCounter::new(now);
            if let Some(t) = &self.truth {
                rate = t.rate;
                rate.tick(now);
            }
            self.truth = Some(TruthState { frame: f, source, rate });
        }
    }

    /// Count a tracker datagram that could not be decoded, and keep its error.
    pub fn reject_tracker(&mut self, error: &str)
        requires
            old(self).wf(),
            old(self).truth_decode_errors < u64::MAX,
        ensures
            final(self).wf(),
            final(self).truth_decode_errors == old(self).truth_decode_errors + 1,
            final(self).last_error matches Some(t) && t@ == "truth decode: "@ + error@,
            final(self).geometry == old(self).geometry,
            final(self).cameras == old(self).cameras,
            final(self).truth == old(self).truth,
            final(self).vision_decode_errors == old(self).vision_decode_errors,
    {
        self.truth_decode_errors = self.truth_decode_errors + 1;
        self.last_error = Some(text::join("truth decode: ", error));
    }

    /// The detections of every camera that is up, camera by camera. Cameras that
    /// went quiet are left out, so the merged view does not keep drawing stale
    /// robots forever.
    pub fn merged(&self, now: u64) -> (res: Merged)
        requires
            self.wf(),
        ensures
            res.balls@ == live_balls(self.cameras.entries(), now),
            res.blue@ == live_robots(self.cameras.entries(), now, true),
            res.yellow@ == live_robots(self.cameras.entries(), now, false),
    {
        let ghost all = self.cameras.entries();
        let mut balls: Vec<Seen<BallMessage>> = Vec::new();
        let mut blue: Vec<Seen<RobotMessage>> = Vec::new();
        let mut yellow: Vec<Seen<RobotMessage>> = Vec::new();
        let mut i: usize = 0;
        while i < self.cameras.len()
            invariant
                self.wf(),
                all == self.cameras.entries(),
                i <= all.len(),
                balls@ == live_balls(all.take(i as int), now),
                blue@ == live_robots(all.take(i as int), now, true),
                yellow@ == live_robots(all.take(i as int), now, false),
            decreases all.len() - i,
        {
            assert(all.take(i + 1).drop_last() =~= all.take(i as int));
            let (id, camera) = self.cameras.at(i);
            if camera.rate.is_live(now) {
                extend_seen(&mut balls, id, &camera.frame.balls);
                extend_seen(&mut blue, id, &camera.frame.robots_blue);
                extend_seen(&mut yellow, id, &camera.frame.robots_yellow);
            }
            i += 1;
        }
        assert(all.take(i as int) =~= all);
        Merged { balls, blue, yellow }
    }

    /// What the status panel shows of each camera, in order.
    pub fn camera_stats(&self, now: u64) -> (res: Vec<CameraStat>)
        requires
            self.wf(),
        ensures
            res@ == self.cameras.entries().map_values(
                |e: (u64, CameraState)| stat_of(e.0, e.1, now),
            ),
    {
        let mut out: Vec<CameraStat> = Vec::new();
        let mut i: usize = 0;
        while i < self.cameras.len()
            invariant
                self.wf(),
                i <= self.cameras.entries().len(),
                out@.len() == i,
                forall|j: int|
                    0 <= j < i ==> out@[j] == stat_of(
                        (#[trigger] self.cameras.entries()[j]).0,
                        self.cameras.entries()[j].1,
                        now,
                    ),
            decreases self.cameras.entries().len() - i,
        {
            let (id, c) = self.cameras.at(i);
            out.push(
                CameraStat {
                    id: id as u32,
                    rate: c.rate,
                    live: c.rate.is_live(now),
                    balls: c.frame.balls.len(),
                    robots: c.frame.robots_blue.len().saturating_add(c.frame.robots_yellow.len()),
                },
            );
            i += 1;
        }
        assert(out@ =~= self.cameras.entries().map_values(
            |e: (u64, CameraState)| stat_of(e.0, e.1, now),
        ));
        out
    }

    /// Whether any camera has produced a packet recently.
    pub fn vision_live(&self, now: u64) -> (res: bool)
        requires
            self.wf(),
        ensures
            res == exists|i: int|
                0 <= i < self.cameras.entries().len() && (
                #[trigger] self.cameras.entries()[i]).1.rate.live(now),
    {
        let mut i: usize = 0;
        while i < self.cameras.len()
            invariant
                self.wf(),
                i <= self.cameras.entries().len(),
                forall|j: int|
                    0 <= j < i ==> !(#[trigger] self.cameras.entries()[j]).1.rate.live(now),
            decreases self.cameras.entries().len() - i,
        {
            let (_id, camera) = self.cameras.at(i);
            if camera.rate.is_live(now) {
                assert(self.cameras.entries()[i as int].1.rate.live(now));
                return true;
            }
            i += 1;
        }
        false
    }
}

/// A stream that is up stays up for exactly [`LIVE_TIMEOUT`] after its last
/// packet.
pub proof fn law_live_until_the_timeout(c: RateCounter, at: u64, later: u64)
    requires
        c.has_room(),
        at <= later,
    ensures
        c.ticked(at).live(later) <==> later - at < LIVE_TIMEOUT,
{
}

/// Every packet is counted once in the total, and the current window never holds
/// more packets than the total.
pub proof fn law_rate_counter_counts(c: RateCounter, now: u64)
    requires
        c.has_room(),
        c.window_count <= c.total,
    ensures
        c.ticked(now).total == c.total + 1,
        c.ticked(now).window_count <= c.ticked(now).total,
        RateCounter::first(now).total == 1,
        c.ticked(now).completed != c.completed ==> c.ticked(now).completed.unwrap().1 >= RATE_WINDOW,
{
}

/// When no camera is up, nothing is drawn.
pub proof fn law_quiet_cameras_show_nothing(cameras: Seq<(u64, CameraState)>, now: u64)
    requires
        forall|i: int| 0 <= i < cameras.len() ==> !(#[trigger] cameras[i]).1.rate.live(now),
    ensures
        live_balls(cameras, now).len() == 0,
        live_robots(cameras, now, true).len() == 0,
        live_robots(cameras, now, false).len() == 0,
    decreases cameras.len(),
{
    if cameras.len() > 0 {
        let rest = cameras.drop_last();
        assert forall|i: int| 0 <= i < rest.len() implies !(#[trigger] rest[i]).1.rate.live(
            now,
        ) by {
            assert(rest[i] == cameras[i]);
        }
        law_quiet_cameras_show_nothing(rest, now);
        assert(!cameras[cameras.len() - 1].1.rate.live(now));
    }
}

/// Every ball of a camera that is up is drawn.
pub proof fn law_live_balls_are_all_shown(
    cameras: Seq<(u64, CameraState)>,
    now: u64,
    i: int,
    j: int,
)
    requires
        0 <= i < cameras.len(),
        cameras[i].1.rate.live(now),
        0 <= j < cameras[i].1.frame.balls@.len(),
    ensures
        live_balls(cameras, now).contains(
            Seen { camera_id: cameras[i].0 as u32, value: cameras[i].1.frame.balls@[j] },
        ),
    decreases cameras.len(),
{
    let want = Seen { camera_id: cameras[i].0 as u32, value: cameras[i].1.frame.balls@[j] };
    let rest = cameras.drop_last();
    let before = live_balls(rest, now);
    let all = live_balls(cameras, now);
    if i < rest.len() {
        law_live_balls_are_all_shown(rest, now, i, j);
        let k = choose|k: int| 0 <= k < before.len() && before[k] == want;
        assert(all[k] == want);
    } else {
        assert(all[before.len() + j] == want);
    }
}

/// Time passed is the difference, and none if the clock stands before; a stream is live
/// for less than one and a half seconds after its last packet.
pub proof fn law_time_passes(a: u64, b: u64, c: RateCounter)
    ensures
        a <= b ==> since(a, b) == b - a,
        b <= a ==> since(a, b) == 0,
        c.live(b) <==> b < c.last + 1_500_000_000,
{
}

/// A packet is counted in the total and is the last one. A window of a second or longer
/// ends with it: its packets, this one included, and its length are kept and a new
/// window starts empty. Else it counts in the window that goes on.
pub proof fn law_packets_fill_windows(c: RateCounter, now: u64)
    requires
        c.has_room(),
    ensures
        ({
            let t = c.ticked(now);
            let over = now >= c.window_start + 1_000_000_000;
            &&& t.total == c.total + 1
            &&& t.last == now
            &&& over ==> t.window_start == now && t.window_count == 0 && (t.completed matches Some(w)
                && w.0 == c.window_count + 1 && w.1 == now - c.window_start)
            &&& !over ==> t.window_start == c.window_start && t.window_count == c.window_count + 1
                && t.completed == c.completed
        }),
        ({
            let f = RateCounter::first(now);
            f.window_start == now && f.window_count == 1 && f.completed is None && f.total == 1 && f.last
                == now
        }),
{
}

/// Detections keep their camera and their order.
pub proof fn law_detections_keep_their_camera<T>(camera: u64, values: Seq<T>, i: int)
    requires
        0 <= i < values.len(),
    ensures
        seen_by(camera, values).len() == values.len(),
        seen_by(camera, values)[i].value == values[i],
        seen_by(camera, values)[i].camera_id == camera as u32,
{
}

/// Every robot of the team of a camera that is up is drawn.
pub proof fn law_live_robots_are_all_shown(
    cameras: Seq<(u64, CameraState)>,
    now: u64,
    blue: bool,
    i: int,
    j: int,
)
    requires
        0 <= i < cameras.len(),
        since(cameras[i].1.rate.last, now) < 1_500_000_000,
        0 <= j < (if blue {
            cameras[i].1.frame.robots_blue@.len()
        } else {
            cameras[i].1.frame.robots_yellow@.len()
        }),
    ensures
        live_robots(cameras, now, blue).contains(
            Seen {
                camera_id: cameras[i].0 as u32,
                value: if blue {
                    cameras[i].1.frame.robots_blue@[j]
                } else {
                    cameras[i].1.frame.robots_yellow@[j]
                },
            },
        ),
    decreases cameras.len(),
{
    let rest = cameras.drop_last();
    let p = live_robots(rest, now, blue);
    let q = live_robots(cameras, now, blue);
    let x = Seen {
        camera_id: cameras[i].0 as u32,
        value: if blue {
            cameras[i].1.frame.robots_blue@[j]
        } else {
            cameras[i].1.frame.robots_yellow@[j]
        },
    };
    if i < rest.len() {
        assert(rest[i] == cameras[i]);
        law_live_robots_are_all_shown(rest, now, blue, i, j);
        let k = choose|k: int| 0 <= k < p.len() && p[k] == x;
        assert(q[k] == x);
    } else {
        assert(q[p.len() + j] == x);
    }
}

/// Every ball that is drawn is one that a camera that is up reported.
pub proof fn law_shown_balls_are_of_live_cameras(cameras: Seq<(u64, CameraState)>, now: u64, k: int)
    requires
        0 <= k < live_balls(cameras, now).len(),
    ensures
        exists|i: int, j: int|
            #![trigger cameras[i], cameras[i].1.frame.balls@[j]]
            0 <= i < cameras.len() && since(cameras[i].1.rate.last, now) < 1_500_000_000 && 0 <= j
                < cameras[i].1.frame.balls@.len() && live_balls(cameras, now)[k].camera_id == cameras[i].0 as u32
                && live_balls(cameras, now)[k].value == cameras[i].1.frame.balls@[j],
    decreases cameras.len(),
{
    let rest = cameras.drop_last();
    let p = live_balls(rest, now);
    let n = rest.len() as int;
    if k < p.len() {
        law_shown_balls_are_of_live_cameras(rest, now, k);
        assert(live_balls(cameras, now)[k] == p[k]);
        let (i, j) = choose|i: int, j: int|
            #![trigger rest[i], rest[i].1.frame.balls@[j]]
            0 <= i < rest.len() && since(rest[i].1.rate.last, now) < 1_500_000_000 && 0 <= j
                < rest[i].1.frame.balls@.len() && p[k].camera_id == rest[i].0 as u32 && p[k].value == rest[i].1.frame.balls@[j];
        assert(cameras[i] == rest[i]);
    } else {
        let i = n;
        let j = k - p.len();
        assert(live_balls(cameras, now)[k] == seen_by(cameras[i].0, cameras[i].1.frame.balls@)[j]);
        assert(live_balls(cameras, now)[k].value == cameras[i].1.frame.balls@[j]);
    }
}

/// The robots of a team that a camera last reported.
pub open spec fn team_robots(c: CameraState, blue: bool) -> Seq<RobotMessage> {
    if blue {
        c.frame.robots_blue@
    } else {
        c.frame.robots_yellow@
    }
}

/// Every robot that is drawn is one of its team that a camera that is up reported.
pub proof fn law_shown_robots_are_of_live_cameras(cameras: Seq<(u64, CameraState)>, now: u64, blue: bool, k: int)
    requires
        0 <= k < live_robots(cameras, now, blue).len(),
    ensures
        exists|i: int, j: int|
            #![trigger cameras[i], team_robots(cameras[i].1, blue)[j]]
            0 <= i < cameras.len() && since(cameras[i].1.rate.last, now) < 1_500_000_000 && 0 <= j
                < team_robots(cameras[i].1, blue).len() && live_robots(cameras, now, blue)[k].camera_id == cameras[i].0 as u32
                && live_robots(cameras, now, blue)[k].value == team_robots(cameras[i].1, blue)[j],
    decreases cameras.len(),
{
    let rest = cameras.drop_last();
    let p = live_robots(rest, now, blue);
    let n = rest.len() as int;
    if k < p.len() {
        law_shown_robots_are_of_live_cameras(rest, now, blue, k);
        assert(live_robots(cameras, now, blue)[k] == p[k]);
        let (i, j) = choose|i: int, j: int|
            #![trigger rest[i], team_robots(rest[i].1, blue)[j]]
            0 <= i < rest.len() && since(rest[i].1.rate.last, now) < 1_500_000_000 && 0 <= j
                < team_robots(rest[i].1, blue).len() && p[k].camera_id == rest[i].0 as u32 && p[k].value == team_robots(rest[i].1, blue)[j];
        assert(cameras[i] == rest[i]);
    } else {
        let i = n;
        let j = k - p.len();
        assert(live_robots(cameras, now, blue)[k] == seen_by(cameras[i].0, team_robots(cameras[i].1, blue))[j]);
        assert(live_robots(cameras, now, blue)[k].value == team_robots(cameras[i].1, blue)[j]);
    }
}

/// A camera's row shows its id, its rate, whether it is up, and how many balls and robots
/// its last frame had.
pub proof fn law_camera_rows(id: u64, c: CameraState, now: u64)
    requires
        id <= u32::MAX,
        c.frame.robots_blue@.len() + c.frame.robots_yellow@.len() <= usize::MAX,
        c.frame.balls@.len() <= usize::MAX,
    ensures
        stat_of(id, c, now).id == id,
        stat_of(id, c, now).rate == c.rate,
        stat_of(id, c, now).live <==> since(c.rate.last, now) < 1_500_000_000,
        stat_of(id, c, now).balls == c.frame.balls@.len(),
        stat_of(id, c, now).robots == c.frame.robots_blue@.len() + c.frame.robots_yellow@.len(),
{
}

/// A new frame replaces the camera's and counts in its rate; so does a new ground-truth
/// frame, with its source. A first one starts the rate.
pub proof fn law_new_frames_replace_old_ones<G, T>(
    s: State<G, T>,
    frame: FrameMessage,
    truth: T,
    source: Option<String>,
    now: u64,
)
    ensures
        s.camera_after(frame, now).frame == frame,
        s.cameras@.contains_key(frame.camera_id as u64) ==> s.camera_after(frame, now).rate
            == s.cameras@[frame.camera_id as u64].rate.ticked(now),
        !s.cameras@.contains_key(frame.camera_id as u64) ==> s.camera_after(frame, now).rate
            == RateCounter::first(now),
        s.truth_after(truth, source, now).frame == truth,
        s.truth_after(truth, source, now).source == source,
        s.truth matches Some(t) ==> s.truth_after(truth, source, now).rate == t.rate.ticked(now),
        s.truth is None ==> s.truth_after(truth, source, now).rate == RateCounter::first(now),
{
}

/// Cameras are drawn one after the other: one that is up adds its own detections behind
/// those of the cameras before it, one that is not adds nothing.
pub proof fn law_cameras_are_drawn_in_order(
    cameras: Seq<(u64, CameraState)>,
    id: u64,
    c: CameraState,
    now: u64,
    blue: bool,
)
    ensures
        ({
            let all = cameras.push((id, c));
            let up = since(c.rate.last, now) < 1_500_000_000;
            &&& live_balls(Seq::empty(), now).len() == 0
            &&& live_robots(Seq::empty(), now, blue).len() == 0
            &&& up ==> live_balls(all, now) == live_balls(cameras, now) + seen_by(id, c.frame.balls@)
            &&& up ==> live_robots(all, now, blue) == live_robots(cameras, now, blue) + seen_by(
                id,
                team_robots(c, blue),
            )
            &&& !up ==> live_balls(all, now) == live_balls(cameras, now) && live_robots(all, now, blue)
                == live_robots(cameras, now, blue)
        }),
{
    assert(cameras.push((id, c)).drop_last() =~= cameras);
}

} // verus!
