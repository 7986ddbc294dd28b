//! Counting what a camera's frames show: timing, detections, dropouts and gaps.
//!
//! A robot's slot is its team (blue 0, yellow 1) times 16 plus its id; a mask has
//! one bit per slot.
use vstd::prelude::*;

use crate::double::Double;
use crate::logtool::stats::{counted, merged_counts, no_counts, Counts, Hist, Rate};

verus! {

/// Number of slots.
pub const SLOTS: u32 = 32;

/// Largest id that has a slot, plus one.
pub const IDS: u32 = 16;

/// Whether a mask has the bit of a slot.
pub open spec fn shows(mask: u32, slot: u32) -> bool {
    mask & (1u32 << slot) != 0
}

/// The slot of a robot, if its id has one.
pub open spec fn slot(blue: bool, id: u32) -> Option<u32> {
    if id >= IDS {
        None
    } else if blue {
        Some(id)
    } else {
        Some((IDS + id) as u32)
    }
}

/// The slot of a robot, if its id has one.
pub fn slot_of(blue: bool, id: u32) -> (res: Option<u32>)
    ensures
        res == slot(blue, id),
        res matches Some(s) ==> s < SLOTS,
{
    if id >= IDS {
        None
    } else if blue {
        Some(id)
    } else {
        Some(IDS + id)
    }
}

/// Different robots have different slots.
pub proof fn law_slots_are_unique(blue: bool, id: u32, other_blue: bool, other_id: u32)
    requires
        slot(blue, id) is Some,
        slot(other_blue, other_id) is Some,
    ensures
        slot(blue, id) == slot(other_blue, other_id) <==> blue == other_blue && id == other_id,
{
}

/// Setting the bit of a slot sets that bit and no other.
pub proof fn law_mask_holds_what_was_set(mask: u32, s: u32, t: u32)
    requires
        s < 32,
        t < 32,
    ensures
        shows(mask | (1u32 << s), t) <==> s == t || shows(mask, t),
{
    assert((mask | (1u32 << s)) & (1u32 << t) != 0 <==> s == t || mask & (1u32 << t) != 0)
        by (bit_vector)
        requires
            s < 32,
            t < 32,
    ;
}

proof fn lemma_mask_operations(a: u32, b: u32, c: u32, t: u32)
    requires
        t < 32,
    ensures
        shows(a & b, t) <==> shows(a, t) && shows(b, t),
        shows((a & b) & !c, t) <==> shows(a, t) && shows(b, t) && !shows(c, t),
        !shows(0, t),
{
    assert((a & b) & (1u32 << t) != 0 <==> a & (1u32 << t) != 0 && b & (1u32 << t) != 0)
        by (bit_vector)
        requires
            t < 32,
    ;
    assert(((a & b) & !c) & (1u32 << t) != 0 <==> a & (1u32 << t) != 0 && b & (1u32 << t) != 0
        && !(c & (1u32 << t) != 0)) by (bit_vector)
        requires
            t < 32,
    ;
    assert(0u32 & (1u32 << t) == 0) by (bit_vector);
}

/// A detected robot of a frame: its team and its id, if the camera read one.
#[derive(Clone, Copy, Debug, PartialEq, Eq, Structural)]
pub struct Sighting {
    /// Whether it is blue.
    pub blue: bool,
    /// Its id.
    pub id: Option<u32>,
}

/// The slot of a sighting, if it has one.
pub open spec fn sighted(s: Sighting) -> Option<u32> {
    match s.id {
        Some(id) => slot(s.blue, id),
        None => None,
    }
}

/// The slots of the sightings that have one, in order.
pub open spec fn slots_of(s: Seq<Sighting>) -> Seq<u32>
    decreases s.len(),
{
    if s.len() == 0 {
        seq![]
    } else {
        match sighted(s.last()) {
            Some(k) => slots_of(s.drop_last()).push(k),
            None => slots_of(s.drop_last()),
        }
    }
}

/// Which sightings have a slot, in order.
pub open spec fn kept_of(s: Seq<Sighting>) -> Seq<usize>
    decreases s.len(),
{
    if s.len() == 0 {
        seq![]
    } else if sighted(s.last()) is Some {
        kept_of(s.drop_last()).push((s.len() - 1) as usize)
    } else {
        kept_of(s.drop_last())
    }
}

/// The mask of a list of slots.
pub open spec fn mask_of(slots: Seq<u32>) -> u32
    decreases slots.len(),
{
    if slots.len() == 0 {
        0
    } else {
        mask_of(slots.drop_last()) | (1u32 << slots.last())
    }
}

/// How many slots of a list were there before in it.
pub open spec fn dupes_of(slots: Seq<u32>) -> nat
    decreases slots.len(),
{
    if slots.len() == 0 {
        0
    } else {
        dupes_of(slots.drop_last()) + if shows(mask_of(slots.drop_last()), slots.last()) {
            1nat
        } else {
            0nat
        }
    }
}

/// The robots of a frame.
#[derive(Clone, Debug)]
pub struct Robots {
    /// Slots of the robots that have one, in order.
    pub slots: Vec<u32>,
    /// Which sightings they are.
    pub kept: Vec<usize>,
    /// The mask of the slots.
    pub mask: u32,
    /// How many sightings had the slot of an earlier one.
    pub dupes: u64,
}

/// Sort the sightings of a frame into slots. Robots without an id, or with one
/// that has no slot, are left out.
pub fn collect_robots(sightings: &Vec<Sighting>) -> (res: Robots)
    ensures
        res.slots@ == slots_of(sightings@),
        res.kept@ == kept_of(sightings@),
        res.mask == mask_of(slots_of(sightings@)),
        res.dupes == dupes_of(slots_of(sightings@)),
        forall|i: int| 0 <= i < res.slots@.len() ==> #[trigger] res.slots@[i] < SLOTS,
{
    let mut slots: Vec<u32> = Vec::new();
    let mut kept: Vec<usize> = Vec::new();
    let mut mask: u32 = 0;
    let mut dupes: u64 = 0;
    let mut i: usize = 0;
    while i < sightings.len()
        invariant
            i <= sightings@.len(),
            slots@ == slots_of(sightings@.take(i as int)),
            kept@ == kept_of(sightings@.take(i as int)),
            mask == mask_of(slots@),
            dupes == dupes_of(slots@),
            dupes <= i,
            forall|j: int| 0 <= j < slots@.len() ==> #[trigger] slots@[j] < SLOTS,
        decreases sightings.len() - i,
    {
        assert(sightings@.take(i + 1).drop_last() =~= sightings@.take(i as int));
        if let Some(id) = sightings[i].id {
            if let Some(k) = slot_of(sightings[i].blue, id) {
                let ghost before = slots@;
                if mask & (1u32 << k) != 0 {
                    dupes += 1;
                }
                mask = mask | (1u32 << k);
                slots.push(k);
                kept.push(i);
                assert(slots@.drop_last() =~= before);
            }
        }
        i += 1;
    }
    assert(sightings@.take(i as int) =~= sightings@);
    Robots { slots, kept, mask, dupes }
}

/// A mask has exactly the bits of the slots it was made of.
pub proof fn law_mask_is_the_set_of_slots(slots: Seq<u32>, t: u32)
    requires
        t < 32,
        forall|i: int| 0 <= i < slots.len() ==> #[trigger] slots[i] < 32,
    ensures
        shows(mask_of(slots), t) <==> slots.contains(t),
    decreases slots.len(),
{
    if slots.len() == 0 {
        lemma_mask_operations(0, 0, 0, t);
    } else {
        let rest = slots.drop_last();
        assert forall|i: int| 0 <= i < rest.len() implies #[trigger] rest[i] < 32 by {
            assert(rest[i] == slots[i]);
        }
        law_mask_is_the_set_of_slots(rest, t);
        assert(slots[slots.len() - 1] < 32);
        law_mask_holds_what_was_set(mask_of(rest), slots.last(), t);
        if rest.contains(t) {
            let i = choose|i: int| 0 <= i < rest.len() && rest[i] == t;
            assert(slots[i] == t);
        }
        if slots.contains(t) && t != slots.last() {
            let i = choose|i: int| 0 <= i < slots.len() && slots[i] == t;
            assert(rest[i] == t);
        }
    }
}

// ---------------------------------------------------------------- counters

/// What the counters look at in one frame.
#[derive(Clone, Debug)]
pub struct Shape {
    /// Frame number of the camera.
    pub frame_number: u32,
    /// Slots of the robots, in order.
    pub slots: Vec<u32>,
    /// Mask of the robots' slots.
    pub mask: u32,
    /// Balls.
    pub balls: u32,
    /// Balls with a height.
    pub balls_with_z: u32,
    /// Balls with an area.
    pub balls_with_area: u32,
    /// Whether the referee had held the game for a while.
    pub ref_static: bool,
}

impl Shape {
    /// Slots are in range and no more balls have a height or an area than there
    /// are.
    pub open spec fn wf(&self) -> bool {
        &&& self.slots@.len() <= u32::MAX
        &&& forall|i: int| 0 <= i < self.slots@.len() ==> #[trigger] self.slots@[i] < SLOTS
        &&& self.balls_with_z <= self.balls
        &&& self.balls_with_area <= self.balls
    }
}

/// What is known of the time since the previous frame.
#[derive(Clone, Copy, Debug, PartialEq, Eq, Structural)]
pub struct Gap {
    /// Time since the previous frame.
    pub gap: Double,
    /// A gap longer than this is long.
    pub long: Double,
    /// A gap shorter than this is clean.
    pub clean: Double,
}

/// Per-camera counters.
#[derive(Clone, Debug)]
pub struct CamCounts {
    /// Frames processed.
    pub frames: u64,
    /// Frames processed while the referee held the game.
    pub static_frames: u64,
    /// Frames captured before their predecessor.
    pub gap_neg: u64,
    /// Frames captured together with their predecessor.
    pub gap_zero: u64,
    /// Long gaps.
    pub gap_long: u64,
    /// Steps of the frame number.
    pub fn_step: Hist,
    /// Frames without any detection.
    pub empty_frames: u64,
    /// Robot detections.
    pub robot_dets: u64,
    /// Ball detections.
    pub ball_dets: u64,
    /// Balls per frame.
    pub balls_per_frame: Hist,
    /// Balls with a height.
    pub ball_z_reported: u64,
    /// Balls with an area.
    pub ball_area_present: u64,
    /// Balls without an area.
    pub ball_area_missing: u64,
    /// Robots seen before and after: how often they were missing in between.
    pub robot_single_drop: Rate,
    /// Lengths of robot gaps in frames, from 1.
    pub robot_gap: Hist,
    /// Robots sighted twice in a frame.
    pub robot_dupes: u64,
    /// Balls seen before and after: how often there was none in between.
    pub ball_single_drop: Rate,
    /// Lengths of ball gaps in frames, from 1.
    pub ball_gap: Hist,
    /// Per slot: the last processed frame that showed the robot.
    pub last_seen: Vec<u64>,
    /// The last processed frame that showed a ball.
    pub ball_last_seen: u64,
}

/// Stands for "never" in [`CamCounts::last_seen`].
pub const NEVER: u64 = u64::MAX;

/// Longest ball gap that counts, plus one.
pub const BALL_GAP_LIMIT: u64 = 60;

/// Robot dropouts among the slots below `n`: each slot in `both` is a trial, a
/// hit when it is in `missing`.
pub open spec fn drops(r: Rate, both: u32, missing: u32, n: nat) -> Rate
    decreases n,
{
    if n == 0 {
        r
    } else {
        let before = drops(r, both, missing, (n - 1) as nat);
        if shows(both, (n - 1) as u32) {
            before.pushed(shows(missing, (n - 1) as u32))
        } else {
            before
        }
    }
}

/// The gap histogram and the last sightings after a frame with index `idx` showed
/// the robots in `slots`: a robot that was last seen more than one frame ago ends
/// a gap.
pub open spec fn gaps_after(
    h: Counts,
    last: Seq<u64>,
    slots: Seq<u32>,
    idx: u64,
) -> (Counts, Seq<u64>)
    decreases slots.len(),
{
    if slots.len() == 0 {
        (h, last)
    } else {
        let (h1, last1) = gaps_after(h, last, slots.drop_last(), idx);
        let k = slots.last() as int;
        (
            if last1[k] != NEVER && idx > last1[k] + 1 {
                counted(h1, idx - last1[k] - 2)
            } else {
                h1
            },
            last1.update(k, idx),
        )
    }
}

/// How much a camera has counted.
pub struct Totals {
    /// Frames.
    pub frames: nat,
    /// Frames while the referee held the game.
    pub static_frames: nat,
    /// Frames before their predecessor.
    pub gap_neg: nat,
    /// Frames together with their predecessor.
    pub gap_zero: nat,
    /// Long gaps.
    pub gap_long: nat,
    /// Steps of the frame number.
    pub fn_step: nat,
    /// Frames without any detection.
    pub empty_frames: nat,
    /// Robot detections.
    pub robot_dets: nat,
    /// Ball detections.
    pub ball_dets: nat,
    /// Frames by their balls.
    pub balls_per_frame: nat,
    /// Balls with a height.
    pub ball_z_reported: nat,
    /// Balls with an area.
    pub ball_area_present: nat,
    /// Balls without an area.
    pub ball_area_missing: nat,
    /// Robots seen before and after.
    pub robot_trials: nat,
    /// Those of them that were missing in between.
    pub robot_missed: nat,
    /// Robot gaps.
    pub robot_gap: nat,
    /// Robots sighted twice in a frame.
    pub robot_dupes: nat,
    /// Balls seen before and after.
    pub ball_trials: nat,
    /// Those of them that were missing in between.
    pub ball_missed: nat,
    /// Ball gaps.
    pub ball_gap: nat,
}

impl Totals {
    /// Nothing.
    pub open spec fn nothing() -> Totals {
        Totals {
            frames: 0,
            static_frames: 0,
            gap_neg: 0,
            gap_zero: 0,
            gap_long: 0,
            fn_step: 0,
            empty_frames: 0,
            robot_dets: 0,
            ball_dets: 0,
            balls_per_frame: 0,
            ball_z_reported: 0,
            ball_area_present: 0,
            ball_area_missing: 0,
            robot_trials: 0,
            robot_missed: 0,
            robot_gap: 0,
            robot_dupes: 0,
            ball_trials: 0,
            ball_missed: 0,
            ball_gap: 0,
        }
    }

    /// What both have counted.
    pub open spec fn plus(self, o: Totals) -> Totals {
        Totals {
            frames: self.frames + o.frames,
            static_frames: self.static_frames + o.static_frames,
            gap_neg: self.gap_neg + o.gap_neg,
            gap_zero: self.gap_zero + o.gap_zero,
            gap_long: self.gap_long + o.gap_long,
            fn_step: self.fn_step + o.fn_step,
            empty_frames: self.empty_frames + o.empty_frames,
            robot_dets: self.robot_dets + o.robot_dets,
            ball_dets: self.ball_dets + o.ball_dets,
            balls_per_frame: self.balls_per_frame + o.balls_per_frame,
            ball_z_reported: self.ball_z_reported + o.ball_z_reported,
            ball_area_present: self.ball_area_present + o.ball_area_present,
            ball_area_missing: self.ball_area_missing + o.ball_area_missing,
            robot_trials: self.robot_trials + o.robot_trials,
            robot_missed: self.robot_missed + o.robot_missed,
            robot_gap: self.robot_gap + o.robot_gap,
            robot_dupes: self.robot_dupes + o.robot_dupes,
            ball_trials: self.ball_trials + o.ball_trials,
            ball_missed: self.ball_missed + o.ball_missed,
            ball_gap: self.ball_gap + o.ball_gap,
        }
    }

    /// No count is greater than that of the other.
    pub open spec fn within(self, o: Totals) -> bool {
        &&& self.frames <= o.frames
        &&& self.static_frames <= o.static_frames
        &&& self.gap_neg <= o.gap_neg
        &&& self.gap_zero <= o.gap_zero
        &&& self.gap_long <= o.gap_long
        &&& self.fn_step <= o.fn_step
        &&& self.empty_frames <= o.empty_frames
        &&& self.robot_dets <= o.robot_dets
        &&& self.ball_dets <= o.ball_dets
        &&& self.balls_per_frame <= o.balls_per_frame
        &&& self.ball_z_reported <= o.ball_z_reported
        &&& self.ball_area_present <= o.ball_area_present
        &&& self.ball_area_missing <= o.ball_area_missing
        &&& self.robot_trials <= o.robot_trials
        &&& self.robot_missed <= o.robot_missed
        &&& self.robot_gap <= o.robot_gap
        &&& self.robot_dupes <= o.robot_dupes
        &&& self.ball_trials <= o.ball_trials
        &&& self.ball_missed <= o.ball_missed
        &&& self.ball_gap <= o.ball_gap
    }

    /// Every count can be held.
    pub open spec fn fits(self) -> bool {
        &&& self.frames <= u64::MAX
        &&& self.static_frames <= u64::MAX
        &&& self.gap_neg <= u64::MAX
        &&& self.gap_zero <= u64::MAX
        &&& self.gap_long <= u64::MAX
        &&& self.fn_step <= u64::MAX
        &&& self.empty_frames <= u64::MAX
        &&& self.robot_dets <= u64::MAX
        &&& self.ball_dets <= u64::MAX
        &&& self.balls_per_frame <= u64::MAX
        &&& self.ball_z_reported <= u64::MAX
        &&& self.ball_area_present <= u64::MAX
        &&& self.ball_area_missing <= u64::MAX
        &&& self.robot_trials <= u64::MAX
        &&& self.robot_missed <= u64::MAX
        &&& self.robot_gap <= u64::MAX
        &&& self.robot_dupes <= u64::MAX
        &&& self.ball_trials <= u64::MAX
        &&& self.ball_missed <= u64::MAX
        &&& self.ball_gap <= u64::MAX
    }
}

/// What all cameras have counted.
pub open spec fn all_totals(cams: Seq<CamCounts>) -> Totals
    decreases cams.len(),
{
    if cams.len() == 0 {
        Totals::nothing()
    } else {
        all_totals(cams.drop_last()).plus(cams.last().totals())
    }
}

/// A histogram of a camera.
pub enum Chart {
    /// Of the steps of the frame number.
    FnStep,
    /// Of the balls per frame.
    BallsPerFrame,
    /// Of the robot gaps.
    RobotGap,
    /// Of the ball gaps.
    BallGap,
}

/// A histogram over all cameras.
pub open spec fn all_counts(cams: Seq<CamCounts>, chart: Chart) -> Counts
    decreases cams.len(),
{
    if cams.len() == 0 {
        no_counts(chart_bins(chart))
    } else {
        merged_counts(all_counts(cams.drop_last(), chart), cams.last().chart(chart))
    }
}

/// How many bins a histogram of a camera has.
pub open spec fn chart_bins(chart: Chart) -> nat {
    match chart {
        Chart::FnStep => 12,
        Chart::BallsPerFrame => 10,
        Chart::RobotGap => 60,
        Chart::BallGap => 60,
    }
}

proof fn lemma_totals_grow(cams: Seq<CamCounts>, i: int)
    requires
        0 <= i <= cams.len(),
    ensures
        all_totals(cams.take(i)).within(all_totals(cams)),
    decreases cams.len(),
{
    if i == cams.len() {
        assert(cams.take(i) =~= cams);
    } else {
        lemma_totals_grow(cams.drop_last(), i);
        assert(cams.drop_last().take(i) =~= cams.take(i));
    }
}

impl CamCounts {
    /// How much the camera has counted.
    pub open spec fn totals(&self) -> Totals {
        Totals {
            frames: self.frames as nat,
            static_frames: self.static_frames as nat,
            gap_neg: self.gap_neg as nat,
            gap_zero: self.gap_zero as nat,
            gap_long: self.gap_long as nat,
            fn_step: self.fn_step.total(),
            empty_frames: self.empty_frames as nat,
            robot_dets: self.robot_dets as nat,
            ball_dets: self.ball_dets as nat,
            balls_per_frame: self.balls_per_frame.total(),
            ball_z_reported: self.ball_z_reported as nat,
            ball_area_present: self.ball_area_present as nat,
            ball_area_missing: self.ball_area_missing as nat,
            robot_trials: self.robot_single_drop.trials as nat,
            robot_missed: self.robot_single_drop.hits as nat,
            robot_gap: self.robot_gap.total(),
            robot_dupes: self.robot_dupes as nat,
            ball_trials: self.ball_single_drop.trials as nat,
            ball_missed: self.ball_single_drop.hits as nat,
            ball_gap: self.ball_gap.total(),
        }
    }

    /// A histogram of the camera.
    pub open spec fn chart(&self, chart: Chart) -> Counts {
        match chart {
            Chart::FnStep => self.fn_step@,
            Chart::BallsPerFrame => self.balls_per_frame@,
            Chart::RobotGap => self.robot_gap@,
            Chart::BallGap => self.ball_gap@,
        }
    }

    /// The histograms are laid out as those of a new camera.
    pub open spec fn laid_out(&self) -> bool {
        forall|chart: Chart| (#[trigger] self.chart(chart)).bins.len() == chart_bins(chart)
    }

    /// Layouts are as made, rates make sense, and nobody was last seen after the
    /// last processed frame.
    pub open spec fn wf(&self) -> bool {
        &&& self.last_seen@.len() == SLOTS
        &&& self.robot_single_drop.wf()
        &&& self.ball_single_drop.wf()
    }

    /// Every counter has room for one more frame of 2^32 detections at most.
    pub open spec fn has_room(&self) -> bool {
        let limit: int = 0x7FFF_FFFF_FFFF_FFFF;
        &&& self.frames < limit
        &&& self.static_frames < limit
        &&& self.gap_neg < limit
        &&& self.gap_zero < limit
        &&& self.gap_long < limit
        &&& self.fn_step.total() < limit
        &&& self.empty_frames < limit
        &&& self.robot_dets < limit
        &&& self.ball_dets < limit
        &&& self.balls_per_frame.total() < limit
        &&& self.ball_z_reported < limit
        &&& self.ball_area_present < limit
        &&& self.ball_area_missing < limit
        &&& self.robot_single_drop.trials < limit
        &&& self.robot_gap.total() < limit
        &&& self.ball_single_drop.trials < limit
        &&& self.ball_gap.total() < limit
    }

    /// Whether one more frame can be counted.
    pub fn can_count(&self) -> (res: bool)
        ensures
            res == self.has_room(),
    {
        let limit: u64 = 0x7FFF_FFFF_FFFF_FFFF;
        self.frames < limit && self.static_frames < limit && self.gap_neg < limit && self.gap_zero
            < limit && self.gap_long < limit && self.fn_step.is_below(limit) && self.empty_frames
            < limit && self.robot_dets < limit && self.ball_dets < limit
            && self.balls_per_frame.is_below(limit) && self.ball_z_reported < limit
            && self.ball_area_present < limit && self.ball_area_missing < limit
            && self.robot_single_drop.trials < limit && self.robot_gap.is_below(limit)
            && self.ball_single_drop.trials < limit && self.ball_gap.is_below(limit)
    }

    /// Nothing processed yet.
    pub fn new() -> (res: Self)
        ensures
            res.wf(),
            res.has_room(),
            res.totals() == Totals::nothing(),
            res.frames == 0,
            res.static_frames == 0,
            res.gap_neg == 0,
            res.gap_zero == 0,
            res.gap_long == 0,
            res.fn_step@ == no_counts(12),
            res.empty_frames == 0,
            res.robot_dets == 0,
            res.ball_dets == 0,
            res.balls_per_frame@ == no_counts(10),
            res.ball_z_reported == 0,
            res.ball_area_present == 0,
            res.ball_area_missing == 0,
            res.robot_single_drop == Rate::spec_none(),
            res.robot_gap@ == no_counts(60),
            res.robot_dupes == 0,
            res.ball_single_drop == Rate::spec_none(),
            res.ball_gap@ == no_counts(60),
            res.last_seen@ == Seq::new(SLOTS as nat, |i: int| NEVER),
            res.ball_last_seen == NEVER,
    {
        let mut last_seen: Vec<u64> = Vec::new();
        let mut i: u32 = 0;
        while i < SLOTS
            invariant
                i <= SLOTS,
                last_seen@.len() == i,
                forall|j: int| 0 <= j < i ==> #[trigger] last_seen@[j] == NEVER,
            decreases SLOTS - i,
        {
            last_seen.push(NEVER);
            i += 1;
        }
        CamCounts {
            frames: 0,
            static_frames: 0,
            gap_neg: 0,
            gap_zero: 0,
            gap_long: 0,
            fn_step: Hist::new(12),
            empty_frames: 0,
            robot_dets: 0,
            ball_dets: 0,
            balls_per_frame: Hist::new(10),
            ball_z_reported: 0,
            ball_area_present: 0,
            ball_area_missing: 0,
            robot_single_drop: Rate::none(),
            robot_gap: Hist::new(60),
            robot_dupes: 0,
            ball_single_drop: Rate::none(),
            ball_gap: Hist::new(60),
            last_seen,
            ball_last_seen: NEVER,
        }
    }

    /// The ball gap histogram after a frame.
    pub open spec fn ball_gaps_after(&self, cur: Shape) -> Counts {
        let idx = self.frames;
        let last = self.ball_last_seen;
        if cur.balls > 0 && last != NEVER && idx > last + 1 && idx - last - 1 < BALL_GAP_LIMIT {
            counted(self.ball_gap@, idx - last - 2)
        } else {
            self.ball_gap@
        }
    }

    fn count_gap(&mut self, gap: Gap, step: i64) -> (clean: bool)
        requires
            old(self).wf(),
            old(self).gap_neg < u64::MAX,
            old(self).gap_zero < u64::MAX,
            old(self).gap_long < u64::MAX,
            old(self).fn_step.total() < u64::MAX,
        ensures
            final(self).wf(),
            clean == (Double::zero().lt(gap.gap) && gap.gap.lt(gap.clean)),
            final(self).gap_neg == old(self).gap_neg + (if gap.gap.lt(Double::zero()) {
                1int
            } else {
                0
            }),
            final(self).gap_zero == old(self).gap_zero + (if gap.gap.same(Double::zero()) {
                1int
            } else {
                0
            }),
            final(self).gap_long == old(self).gap_long + (if gap.long.lt(gap.gap) {
                1int
            } else {
                0
            }),
            final(self).fn_step@ == counted(old(self).fn_step@, step as int),
            *final(self) == (CamCounts {
                gap_neg: final(self).gap_neg,
                gap_zero: final(self).gap_zero,
                gap_long: final(self).gap_long,
                fn_step: final(self).fn_step,
                ..*old(self)
            }),
    {
        if gap.gap.is_less(Double::zero()) {
            self.gap_neg = self.gap_neg + 1;
        } else if gap.gap.is_same(Double::zero()) {
            self.gap_zero = self.gap_zero + 1;
        }
        if gap.long.is_less(gap.gap) {
            self.gap_long = self.gap_long + 1;
        }
        self.fn_step.push(step);
        gap.gap.is_positive() && gap.gap.is_less(gap.clean)
    }

    fn count_drops(&mut self, both: u32, missing: u32)
        requires
            old(self).wf(),
            old(self).robot_single_drop.trials < 0x7FFF_FFFF_FFFF_FFFF,
        ensures
            final(self).wf(),
            final(self).robot_single_drop == drops(
                old(self).robot_single_drop,
                both,
                missing,
                SLOTS as nat,
            ),
            *final(self) == (CamCounts {
                robot_single_drop: final(self).robot_single_drop,
                ..*old(self)
            }),
    {
        let ghost start = self.robot_single_drop;
        let mut r = self.robot_single_drop;
        let mut s: u32 = 0;
        while s < SLOTS
            invariant
                s <= SLOTS,
                r.wf(),
                r.trials <= start.trials + s,
                start.trials < 0x7FFF_FFFF_FFFF_FFFF,
                r == drops(start, both, missing, s as nat),
            decreases SLOTS - s,
        {
            if both & (1u32 << s) != 0 {
                r.push(missing & (1u32 << s) != 0);
            }
            s += 1;
        }
        self.robot_single_drop = r;
    }

    fn count_robot_gaps(&mut self, slots: &Vec<u32>, idx: u64)
        requires
            old(self).wf(),
            old(self).robot_gap.total() < 0x7FFF_FFFF_FFFF_FFFF,
            slots@.len() <= u32::MAX,
            idx < 0x7FFF_FFFF_FFFF_FFFF,
            forall|i: int| 0 <= i < slots@.len() ==> #[trigger] slots@[i] < SLOTS,
        ensures
            final(self).wf(),
            (final(self).robot_gap@, final(self).last_seen@) == gaps_after(
                old(self).robot_gap@,
                old(self).last_seen@,
                slots@,
                idx,
            ),
            *final(self) == (CamCounts {
                robot_gap: final(self).robot_gap,
                last_seen: final(self).last_seen,
                ..*old(self)
            }),
    {
        let ghost h0 = self.robot_gap@;
        let ghost l0 = self.last_seen@;
        let ghost total0 = self.robot_gap.total();
        let mut i: usize = 0;
        while i < slots.len()
            invariant
                i <= slots@.len(),
                slots@.len() <= u32::MAX,
                self.wf(),
                idx < 0x7FFF_FFFF_FFFF_FFFF,
                total0 < 0x7FFF_FFFF_FFFF_FFFF,
                self.robot_gap.total() <= total0 + i,
                forall|j: int| 0 <= j < slots@.len() ==> #[trigger] slots@[j] < SLOTS,
                (self.robot_gap@, self.last_seen@) == gaps_after(h0, l0, slots@.take(i as int), idx),
                *self == (CamCounts {
                    robot_gap: self.robot_gap,
                    last_seen: self.last_seen,
                    ..*old(self)
                }),
            decreases slots.len() - i,
        {
            assert(slots@.take(i + 1).drop_last() =~= slots@.take(i as int));
            assert(slots@[i as int] < SLOTS);
            let k: usize = slots[i] as usize;
            let last: u64 = self.last_seen[k];
            if last != NEVER && idx > last + 1 {
                self.robot_gap.push((idx - last - 2) as i64);
            }
            self.last_seen.set(k, idx);
            i += 1;
        }
        assert(slots@.take(i as int) =~= slots@);
    }

    /// Process one frame between its predecessor, if there is one, and its
    /// successor. Returns whether the gap since the predecessor is a clean one.
    pub fn process_frame(
        &mut self,
        prev: Option<(&Shape, Gap)>,
        cur: &Shape,
        next: &Shape,
    ) -> (clean: bool)
        requires
            old(self).wf(),
            old(self).has_room(),
            cur.wf(),
            next.wf(),
            prev matches Some((p, g)) ==> p.wf(),
        ensures
            final(self).wf(),
            final(self).frames == old(self).frames + 1,
            final(self).static_frames == old(self).static_frames + (if cur.ref_static {
                1int
            } else {
                0
            }),
            final(self).robot_dupes == old(self).robot_dupes,
            // timing
            match prev {
                Some((p, g)) => {
                    &&& clean == (Double::zero().lt(g.gap) && g.gap.lt(g.clean))
                    &&& final(self).gap_neg == old(self).gap_neg + (if g.gap.lt(Double::zero()) {
                        1int
                    } else {
                        0
                    })
                    &&& final(self).gap_zero == old(self).gap_zero + (if g.gap.same(
                        Double::zero(),
                    ) {
                        1int
                    } else {
                        0
                    })
                    &&& final(self).gap_long == old(self).gap_long + (if g.long.lt(g.gap) {
                        1int
                    } else {
                        0
                    })
                    &&& final(self).fn_step@ == counted(
                        old(self).fn_step@,
                        cur.frame_number - p.frame_number,
                    )
                },
                None => {
                    &&& !clean
                    &&& final(self).gap_neg == old(self).gap_neg
                    &&& final(self).gap_zero == old(self).gap_zero
                    &&& final(self).gap_long == old(self).gap_long
                    &&& final(self).fn_step == old(self).fn_step
                },
            },
            // detections
            final(self).empty_frames == old(self).empty_frames + (if cur.balls == 0
                && cur.slots@.len() == 0 {
                1int
            } else {
                0
            }),
            final(self).robot_dets == old(self).robot_dets + cur.slots@.len(),
            final(self).ball_dets == old(self).ball_dets + cur.balls,
            final(self).balls_per_frame@ == counted(old(self).balls_per_frame@, cur.balls as int),
            final(self).ball_z_reported == old(self).ball_z_reported + cur.balls_with_z,
            final(self).ball_area_present == old(self).ball_area_present + cur.balls_with_area,
            final(self).ball_area_missing == old(self).ball_area_missing + (cur.balls
                - cur.balls_with_area),
            // dropouts: seen before and after, missing in between
            match prev {
                Some((p, g)) => {
                    &&& final(self).robot_single_drop == drops(
                        old(self).robot_single_drop,
                        p.mask & next.mask,
                        (p.mask & next.mask) & !cur.mask,
                        SLOTS as nat,
                    )
                    &&& final(self).ball_single_drop == if p.balls > 0 && next.balls > 0 {
                        old(self).ball_single_drop.pushed(cur.balls == 0)
                    } else {
                        old(self).ball_single_drop
                    }
                },
                None => {
                    &&& final(self).robot_single_drop == old(self).robot_single_drop
                    &&& final(self).ball_single_drop == old(self).ball_single_drop
                },
            },
            // gaps
            (final(self).robot_gap@, final(self).last_seen@) == gaps_after(
                old(self).robot_gap@,
                old(self).last_seen@,
                cur.slots@,
                old(self).frames,
            ),
            final(self).ball_gap@ == old(self).ball_gaps_after(*cur),
            final(self).ball_last_seen == if cur.balls > 0 {
                old(self).frames
            } else {
                old(self).ball_last_seen
            },
    {
        let idx: u64 = self.frames;
        self.frames = idx + 1;
        if cur.ref_static {
            self.static_frames = self.static_frames + 1;
        }
        let clean = match prev {
            Some((p, g)) => {
                let step: i64 = cur.frame_number as i64 - p.frame_number as i64;
                self.count_gap(g, step)
            },
            None => false,
        };
        if cur.balls == 0 && cur.slots.len() == 0 {
            self.empty_frames = self.empty_frames + 1;
        }
        self.robot_dets = self.robot_dets + cur.slots.len() as u64;
        self.ball_dets = self.ball_dets + cur.balls as u64;
        self.balls_per_frame.push(cur.balls as i64);
        self.ball_z_reported = self.ball_z_reported + cur.balls_with_z as u64;
        self.ball_area_present = self.ball_area_present + cur.balls_with_area as u64;
        self.ball_area_missing = self.ball_area_missing + (cur.balls - cur.balls_with_area) as u64;
        if let Some((p, _)) = prev {
            let both: u32 = p.mask & next.mask;
            let missing: u32 = both & !cur.mask;
            self.count_drops(both, missing);
            if p.balls > 0 && next.balls > 0 {
                let mut r = self.ball_single_drop;
                r.push(cur.balls == 0);
                self.ball_single_drop = r;
            }
        }
        self.count_robot_gaps(&cur.slots, idx);
        if cur.balls > 0 {
            let last: u64 = self.ball_last_seen;
            if last != NEVER && idx > last + 1 && idx - last - 1 < BALL_GAP_LIMIT {
                self.ball_gap.push((idx - last - 2) as i64);
            }
            self.ball_last_seen = idx;
        }
        clean
    }

    /// Fold the counters of another camera in.
    pub fn merge(&mut self, o: &Self)
        requires
            old(self).wf(),
            o.wf(),
            old(self).totals().plus(o.totals()).fits(),
            old(self).fn_step.bins@.len() == o.fn_step.bins@.len(),
            old(self).balls_per_frame.bins@.len() == o.balls_per_frame.bins@.len(),
            old(self).robot_gap.bins@.len() == o.robot_gap.bins@.len(),
            old(self).ball_gap.bins@.len() == o.ball_gap.bins@.len(),
        ensures
            final(self).wf(),
            final(self).frames == old(self).frames + o.frames,
            final(self).static_frames == old(self).static_frames + o.static_frames,
            final(self).gap_neg == old(self).gap_neg + o.gap_neg,
            final(self).gap_zero == old(self).gap_zero + o.gap_zero,
            final(self).gap_long == old(self).gap_long + o.gap_long,
            final(self).fn_step@ == merged_counts(old(self).fn_step@, o.fn_step@),
            final(self).empty_frames == old(self).empty_frames + o.empty_frames,
            final(self).robot_dets == old(self).robot_dets + o.robot_dets,
            final(self).ball_dets == old(self).ball_dets + o.ball_dets,
            final(self).balls_per_frame@ == merged_counts(old(self).balls_per_frame@, o.balls_per_frame@),
            final(self).ball_z_reported == old(self).ball_z_reported + o.ball_z_reported,
            final(self).ball_area_present == old(self).ball_area_present + o.ball_area_present,
            final(self).ball_area_missing == old(self).ball_area_missing + o.ball_area_missing,
            final(self).robot_single_drop == old(self).robot_single_drop.merged(o.robot_single_drop),
            final(self).robot_gap@ == merged_counts(old(self).robot_gap@, o.robot_gap@),
            final(self).robot_dupes == old(self).robot_dupes + o.robot_dupes,
            final(self).ball_single_drop == old(self).ball_single_drop.merged(o.ball_single_drop),
            final(self).ball_gap@ == merged_counts(old(self).ball_gap@, o.ball_gap@),
            final(self).last_seen == old(self).last_seen,
            final(self).ball_last_seen == old(self).ball_last_seen,
            final(self).totals() == old(self).totals().plus(o.totals()),
    {
        self.frames = self.frames + o.frames;
        self.static_frames = self.static_frames + o.static_frames;
        self.gap_neg = self.gap_neg + o.gap_neg;
        self.gap_zero = self.gap_zero + o.gap_zero;
        self.gap_long = self.gap_long + o.gap_long;
        self.fn_step.merge(&o.fn_step);
        self.empty_frames = self.empty_frames + o.empty_frames;
        self.robot_dets = self.robot_dets + o.robot_dets;
        self.ball_dets = self.ball_dets + o.ball_dets;
        self.balls_per_frame.merge(&o.balls_per_frame);
        self.ball_z_reported = self.ball_z_reported + o.ball_z_reported;
        self.ball_area_present = self.ball_area_present + o.ball_area_present;
        self.ball_area_missing = self.ball_area_missing + o.ball_area_missing;
        let mut a = self.robot_single_drop;
        a.merge(&o.robot_single_drop);
        self.robot_single_drop = a;
        self.robot_gap.merge(&o.robot_gap);
        self.robot_dupes = self.robot_dupes + o.robot_dupes;
        let mut b = self.ball_single_drop;
        b.merge(&o.ball_single_drop);
        self.ball_single_drop = b;
        self.ball_gap.merge(&o.ball_gap);
    }

    /// The counters of all cameras in one.
    pub fn total(cams: &Vec<CamCounts>) -> (res: CamCounts)
        requires
            forall|i: int|
                0 <= i < cams@.len() ==> (#[trigger] cams@[i]).wf() && cams@[i].laid_out(),
            all_totals(cams@).fits(),
        ensures
            res.wf(),
            res.laid_out(),
            res.totals() == all_totals(cams@),
            forall|chart: Chart| #[trigger] res.chart(chart) == all_counts(cams@, chart),
    {
        let mut out = CamCounts::new();
        let mut i: usize = 0;
        assert(cams@.take(0) =~= Seq::<CamCounts>::empty());
        assert(out.laid_out());
        while i < cams.len()
            invariant
                i <= cams@.len(),
                forall|k: int|
                    0 <= k < cams@.len() ==> (#[trigger] cams@[k]).wf() && cams@[k].laid_out(),
                all_totals(cams@).fits(),
                out.wf(),
                out.laid_out(),
                out.totals() == all_totals(cams@.take(i as int)),
                forall|chart: Chart|
                    #[trigger] out.chart(chart) == all_counts(cams@.take(i as int), chart),
            decreases cams.len() - i,
        {
            let ghost before = out;
            proof {
                let part = cams@.take(i + 1);
                assert(part.drop_last() =~= cams@.take(i as int));
                assert(part.last() == cams@[i as int]);
                lemma_totals_grow(cams@, i + 1);
                let c = cams@[i as int];
                assert(c.wf() && c.laid_out());
                assert(out.chart(Chart::FnStep).bins.len() == c.chart(Chart::FnStep).bins.len());
                assert(out.chart(Chart::BallsPerFrame).bins.len() == c.chart(
                    Chart::BallsPerFrame,
                ).bins.len());
                assert(out.chart(Chart::RobotGap).bins.len() == c.chart(Chart::RobotGap).bins.len());
                assert(out.chart(Chart::BallGap).bins.len() == c.chart(Chart::BallGap).bins.len());
            }
            out.merge(&cams[i]);
            proof {
                assert forall|chart: Chart| #[trigger] out.chart(chart) == all_counts(
                    cams@.take(i + 1),
                    chart,
                ) by {
                    assert(before.chart(chart) == all_counts(cams@.take(i as int), chart));
                }
                assert forall|chart: Chart| (#[trigger] out.chart(chart)).bins.len() == chart_bins(
                    chart,
                ) by {
                    assert(before.chart(chart).bins.len() == chart_bins(chart));
                }
            }
            i += 1;
        }
        assert(cams@.take(i as int) =~= cams@);
        out
    }
}

/// The counts over all cameras do not depend on how the cameras are split into
/// groups: those of two groups together are those of the one and of the other.
pub proof fn law_totals_add_up(a: Seq<CamCounts>, b: Seq<CamCounts>)
    ensures
        all_totals(a + b) == all_totals(a).plus(all_totals(b)),
    decreases b.len(),
{
    if b.len() == 0 {
        assert(a + b =~= a);
    } else {
        assert((a + b).drop_last() =~= a + b.drop_last());
        law_totals_add_up(a, b.drop_last());
    }
}

/// How many slots below `n` are in a mask.
pub open spec fn slot_count(mask: u32, n: nat) -> nat
    decreases n,
{
    if n == 0 {
        0
    } else {
        slot_count(mask, (n - 1) as nat) + if shows(mask, (n - 1) as u32) {
            1nat
        } else {
            0nat
        }
    }
}

proof fn lemma_drops(r: Rate, both: u32, missing: u32, n: nat)
    requires
        n <= 32,
        r.trials + n <= u64::MAX,
        r.hits <= r.trials,
        forall|t: u32| t < 32 && shows(missing, t) ==> #[trigger] shows(both, t),
    ensures
        drops(r, both, missing, n).trials == r.trials + slot_count(both, n),
        drops(r, both, missing, n).hits == r.hits + slot_count(missing, n),
        slot_count(missing, n) <= slot_count(both, n) <= n,
    decreases n,
{
    if n > 0 {
        lemma_drops(r, both, missing, (n - 1) as nat);
        let t = (n - 1) as u32;
        assert(shows(missing, t) ==> shows(both, t));
    }
}

/// A robot counts as dropped out of a frame exactly when the same camera saw it
/// in the frame before and in the frame after but not in this one; every robot
/// seen before and after is a trial.
pub proof fn law_dropouts_are_single_frame_misses(r: Rate, prev: u32, cur: u32, next: u32)
    requires
        r.wf(),
        r.trials + 32 <= u64::MAX,
    ensures
        ({
            let both = prev & next;
            let missing = both & !cur;
            let d = drops(r, both, missing, 32);
            &&& d.trials == r.trials + slot_count(both, 32)
            &&& d.hits == r.hits + slot_count(missing, 32)
            &&& forall|t: u32| t < 32 ==> (#[trigger] shows(both, t) <==> shows(prev, t) && shows(next, t))
            &&& forall|t: u32|
                t < 32 ==> (#[trigger] shows(missing, t) <==> shows(prev, t) && shows(next, t) && !shows(
                    cur,
                    t,
                ))
        }),
{
    let both = prev & next;
    let missing = both & !cur;
    assert forall|t: u32| t < 32 implies (#[trigger] shows(both, t) <==> shows(prev, t) && shows(
        next,
        t,
    )) by {
        lemma_mask_operations(prev, next, cur, t);
    }
    assert forall|t: u32| t < 32 implies (#[trigger] shows(missing, t) <==> shows(prev, t) && shows(
        next,
        t,
    ) && !shows(cur, t)) by {
        lemma_mask_operations(prev, next, cur, t);
    }
    assert forall|t: u32| t < 32 && shows(missing, t) implies #[trigger] shows(both, t) by {
        lemma_mask_operations(prev, next, cur, t);
    }
    lemma_drops(r, both, missing, 32);
}

/// A robot that is seen in every frame never ends a gap, and one that is seen
/// again after `missed` frames without it ends a gap of that length.
pub proof fn law_gaps_have_the_missed_length(h: Counts, last: Seq<u64>, k: u32, idx: u64)
    requires
        last.len() == 32,
        k < 32,
        last[k as int] < idx,
    ensures
        ({
            let (h1, last1) = gaps_after(h, last, seq![k], idx);
            let missed = idx - last[k as int] - 1;
            &&& last1 == last.update(k as int, idx)
            &&& h1 == if missed > 0 {
                counted(h, missed - 1)
            } else {
                h
            }
        }),
{
    reveal_with_fuel(gaps_after, 2);
    assert(seq![k].drop_last() =~= Seq::<u32>::empty());
}

/// A mask shows a slot if that bit is set. Blue robots have the first sixteen slots by
/// their ids, yellow ones the next sixteen; larger ids have none.
pub proof fn law_slots_by_team_and_id(blue: bool, id: u32, mask: u32, s: u32)
    ensures
        slot(blue, id) is Some <==> id < 16,
        blue && id < 16 ==> slot(blue, id) == Some(id),
        !blue && id < 16 ==> slot(blue, id) == Some((16 + id) as u32),
        shows(mask, s) <==> mask & (1u32 << s) != 0,
{
}

/// A sighting has the slot of its robot, and none without an id.
pub proof fn law_sightings_have_slots(s: Sighting)
    ensures
        s.id matches Some(id) ==> (id < 16 ==> sighted(s) == Some(
            if s.blue {
                id
            } else {
                (16 + id) as u32
            },
        )) && (id >= 16 ==> sighted(s) is None),
        s.id is None ==> sighted(s) is None,
{
}

/// The sightings kept are those with a slot, and the slots are theirs, in order.
pub proof fn law_kept_sightings_have_the_slots(s: Seq<Sighting>)
    requires
        s.len() <= usize::MAX,
    ensures
        slots_of(s).len() == kept_of(s).len(),
        forall|k: int|
            0 <= k < kept_of(s).len() ==> (#[trigger] kept_of(s)[k]) < s.len() && sighted(
                s[kept_of(s)[k] as int],
            ) == Some(slots_of(s)[k]),
        forall|k: int, l: int| 0 <= k < l < kept_of(s).len() ==> kept_of(s)[k] < kept_of(s)[l],
        forall|i: int|
            0 <= i < s.len() && sighted(#[trigger] s[i]) is Some ==> kept_of(s).contains(i as usize),
    decreases s.len(),
{
    if s.len() > 0 {
        let rest = s.drop_last();
        law_kept_sightings_have_the_slots(rest);
        let p = kept_of(rest);
        let q = kept_of(s);
        assert forall|k: int| 0 <= k < q.len() implies (#[trigger] q[k]) < s.len() && sighted(
            s[q[k] as int],
        ) == Some(slots_of(s)[k]) by {
            if k < p.len() {
                assert(q[k] == p[k]);
                assert(rest[p[k] as int] == s[p[k] as int]);
                assert(slots_of(s)[k] == slots_of(rest)[k]);
            }
        }
        assert forall|k: int, l: int| 0 <= k < l < q.len() implies q[k] < q[l] by {
            assert(q[k] == p[k]);
            if l < p.len() {
                assert(q[l] == p[l]);
            }
        }
        assert forall|i: int| 0 <= i < s.len() && sighted(#[trigger] s[i]) is Some implies q.contains(
            i as usize,
        ) by {
            if i < rest.len() {
                assert(rest[i] == s[i]);
                let k = choose|k: int| 0 <= k < p.len() && p[k] == i as usize;
                assert(q[k] == i as usize);
            } else {
                assert(q[q.len() - 1] == i as usize);
            }
        }
    }
}

/// A slot is a duplicate if it stands in the list before.
pub proof fn law_duplicates_were_there_before(slots: Seq<u32>)
    requires
        forall|i: int| 0 <= i < slots.len() ==> #[trigger] slots[i] < 32,
    ensures
        dupes_of(slots) == Seq::new(slots.len(), |i: int| i).filter(
            |i: int| slots.take(i).contains(slots[i]),
        ).len(),
{
    lemma_dupes(slots, slots.len());
    assert(slots.take(slots.len() as int) =~= slots);
}

proof fn lemma_dupes(slots: Seq<u32>, n: nat)
    requires
        n <= slots.len(),
        forall|i: int| 0 <= i < slots.len() ==> #[trigger] slots[i] < 32,
    ensures
        dupes_of(slots.take(n as int)) == Seq::new(n, |i: int| i).filter(
            |i: int| slots.take(i).contains(slots[i]),
        ).len(),
    decreases n,
{
    reveal(Seq::filter);
    if n > 0 {
        lemma_dupes(slots, (n - 1) as nat);
        let part = slots.take(n as int);
        let rest = slots.take(n - 1);
        assert(part.drop_last() =~= rest);
        assert(Seq::new(n, |i: int| i).drop_last() =~= Seq::new((n - 1) as nat, |i: int| i));
        law_mask_is_the_set_of_slots(rest, slots[n - 1]);
    }
}

/// As many slots are counted as bits are set.
pub proof fn law_slots_are_counted(mask: u32, n: nat)
    requires
        n <= 32,
    ensures
        slot_count(mask, n) == Seq::new(n, |i: int| i).filter(|i: int| shows(mask, i as u32)).len(),
    decreases n,
{
    reveal(Seq::filter);
    if n > 0 {
        law_slots_are_counted(mask, (n - 1) as nat);
        assert(Seq::new(n, |i: int| i).drop_last() =~= Seq::new((n - 1) as nat, |i: int| i));
    }
}

/// After a frame its robots were last seen in it, and the others when they were.
pub proof fn law_last_sightings(h: Counts, last: Seq<u64>, slots: Seq<u32>, idx: u64, k: int)
    requires
        last.len() == 32,
        0 <= k < 32,
        forall|i: int| 0 <= i < slots.len() ==> #[trigger] slots[i] < 32,
    ensures
        gaps_after(h, last, slots, idx).1.len() == 32,
        gaps_after(h, last, slots, idx).1[k] == if slots.contains(k as u32) {
            idx
        } else {
            last[k]
        },
    decreases slots.len(),
{
    if slots.len() > 0 {
        let rest = slots.drop_last();
        law_last_sightings(h, last, rest, idx, k);
        if slots.last() == k as u32 {
            assert(slots[slots.len() - 1] == k as u32);
        } else if slots.contains(k as u32) {
            let i = choose|i: int| 0 <= i < slots.len() && slots[i] == k as u32;
            assert(rest[i] == k as u32);
        } else if rest.contains(k as u32) {
            let i = choose|i: int| 0 <= i < rest.len() && rest[i] == k as u32;
            assert(slots[i] == k as u32);
        }
    }
}

/// One more robot ends a gap if it was seen before and not in the frame before; the gap
/// is as long as it was missed.
pub proof fn law_gaps_end_one_by_one(h: Counts, last: Seq<u64>, slots: Seq<u32>, k: u32, idx: u64)
    ensures
        ({
            let (h1, last1) = gaps_after(h, last, slots, idx);
            let (h2, last2) = gaps_after(h, last, slots.push(k), idx);
            let seen = last1[k as int];
            &&& last2 == last1.update(k as int, idx)
            &&& seen == u64::MAX || idx <= seen + 1 ==> h2 == h1
            &&& seen != u64::MAX && idx > seen + 1 ==> h2 == counted(h1, (idx - seen - 1) - 1)
        }),
{
    assert(slots.push(k).drop_last() =~= slots);
}

/// A ball gap ends with a ball after frames without one, unless it lasted sixty frames
/// or longer, and counts by its length.
pub proof fn law_ball_gaps(c: CamCounts, cur: Shape)
    ensures
        ({
            let missed = c.frames - c.ball_last_seen - 1;
            let ends = cur.balls > 0 && c.ball_last_seen != u64::MAX && 1 <= missed < 60;
            &&& ends ==> c.ball_gaps_after(cur) == counted(c.ball_gap@, missed - 1)
            &&& !ends ==> c.ball_gaps_after(cur) == c.ball_gap@
        }),
{
}

/// Totals start from nothing and add up count by count.
pub proof fn law_totals_by_count(a: Totals, b: Totals, c: CamCounts)
    ensures
        a.plus(b).frames == a.frames + b.frames,
        a.plus(b).static_frames == a.static_frames + b.static_frames,
        a.plus(b).gap_neg == a.gap_neg + b.gap_neg,
        a.plus(b).gap_zero == a.gap_zero + b.gap_zero,
        a.plus(b).gap_long == a.gap_long + b.gap_long,
        a.plus(b).fn_step == a.fn_step + b.fn_step,
        a.plus(b).empty_frames == a.empty_frames + b.empty_frames,
        a.plus(b).robot_dets == a.robot_dets + b.robot_dets,
        a.plus(b).ball_dets == a.ball_dets + b.ball_dets,
        a.plus(b).balls_per_frame == a.balls_per_frame + b.balls_per_frame,
        a.plus(b).ball_z_reported == a.ball_z_reported + b.ball_z_reported,
        a.plus(b).ball_area_present == a.ball_area_present + b.ball_area_present,
        a.plus(b).ball_area_missing == a.ball_area_missing + b.ball_area_missing,
        a.plus(b).robot_trials == a.robot_trials + b.robot_trials,
        a.plus(b).robot_missed == a.robot_missed + b.robot_missed,
        a.plus(b).robot_gap == a.robot_gap + b.robot_gap,
        a.plus(b).robot_dupes == a.robot_dupes + b.robot_dupes,
        a.plus(b).ball_trials == a.ball_trials + b.ball_trials,
        a.plus(b).ball_missed == a.ball_missed + b.ball_missed,
        a.plus(b).ball_gap == a.ball_gap + b.ball_gap,
        Totals::nothing().frames == 0,
        Totals::nothing().static_frames == 0,
        Totals::nothing().gap_neg == 0,
        Totals::nothing().gap_zero == 0,
        Totals::nothing().gap_long == 0,
        Totals::nothing().fn_step == 0,
        Totals::nothing().empty_frames == 0,
        Totals::nothing().robot_dets == 0,
        Totals::nothing().ball_dets == 0,
        Totals::nothing().balls_per_frame == 0,
        Totals::nothing().ball_z_reported == 0,
        Totals::nothing().ball_area_present == 0,
        Totals::nothing().ball_area_missing == 0,
        Totals::nothing().robot_trials == 0,
        Totals::nothing().robot_missed == 0,
        Totals::nothing().robot_gap == 0,
        Totals::nothing().robot_dupes == 0,
        Totals::nothing().ball_trials == 0,
        Totals::nothing().ball_missed == 0,
        Totals::nothing().ball_gap == 0,
        c.totals().frames == c.frames,
        c.totals().static_frames == c.static_frames,
        c.totals().gap_neg == c.gap_neg,
        c.totals().gap_zero == c.gap_zero,
        c.totals().gap_long == c.gap_long,
        c.totals().fn_step == c.fn_step.total(),
        c.totals().empty_frames == c.empty_frames,
        c.totals().robot_dets == c.robot_dets,
        c.totals().ball_dets == c.ball_dets,
        c.totals().balls_per_frame == c.balls_per_frame.total(),
        c.totals().ball_z_reported == c.ball_z_reported,
        c.totals().ball_area_present == c.ball_area_present,
        c.totals().ball_area_missing == c.ball_area_missing,
        c.totals().robot_trials == c.robot_single_drop.trials,
        c.totals().robot_missed == c.robot_single_drop.hits,
        c.totals().robot_gap == c.robot_gap.total(),
        c.totals().robot_dupes == c.robot_dupes,
        c.totals().ball_trials == c.ball_single_drop.trials,
        c.totals().ball_missed == c.ball_single_drop.hits,
        c.totals().ball_gap == c.ball_gap.total(),
{
}

/// Each histogram over all cameras adds up that of each camera, from an empty one with
/// its number of bins.
pub proof fn law_charts_add_up(cams: Seq<CamCounts>, c: CamCounts, chart: Chart)
    ensures
        all_counts(Seq::empty(), chart) == no_counts(chart_bins(chart)),
        all_counts(cams.push(c), chart) == merged_counts(all_counts(cams, chart), c.chart(chart)),
        chart is FnStep ==> c.chart(chart) == c.fn_step@ && chart_bins(chart) == 12,
        chart is BallsPerFrame ==> c.chart(chart) == c.balls_per_frame@ && chart_bins(chart) == 10,
        chart is RobotGap ==> c.chart(chart) == c.robot_gap@ && chart_bins(chart) == 60,
        chart is BallGap ==> c.chart(chart) == c.ball_gap@ && chart_bins(chart) == 60,
{
    assert(cams.push(c).drop_last() =~= cams);
}

} // verus!
