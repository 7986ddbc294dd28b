//! The sliding windows of detection frames: one per camera, in order of arrival.
//!
//! A frame is processed once it has a successor and has settled, and dropped once
//! it is old; the frame before the next one to be processed is always kept.
use vstd::prelude::*;

use crate::double::Double;

verus! {

/// A frame of a window with its capture time.
#[derive(Clone, Debug)]
pub struct Timed<F> {
    /// Capture time.
    pub t: Double,
    /// The frame.
    pub frame: F,
}

/// One camera's window.
#[derive(Clone, Debug)]
pub struct Window<F> {
    frames: Vec<Timed<F>>,
    next: usize,
}

/// How many frames from `next` on are ready in a row: each has a successor and,
/// unless everything is flushed, is not later than `settled`.
pub open spec fn ready_run(times: Seq<Double>, next: int, settled: Double, flush: bool) -> nat
    decreases times.len() - next,
{
    if 0 <= next && next + 1 < times.len() && (flush || !settled.lt(times[next])) {
        1 + ready_run(times, next + 1, settled, flush)
    } else {
        0
    }
}

/// How many frames at the front are dropped: each is before `retained` (or
/// everything is flushed), and one frame before `next` stays.
pub open spec fn retire_run(times: Seq<Double>, next: int, retained: Double, flush: bool) -> nat
    decreases next,
{
    if next > 1 && times.len() > 0 && (flush || times[0].lt(retained)) {
        1 + retire_run(times.skip(1), next - 1, retained, flush)
    } else {
        0
    }
}

/// The capture times of some frames.
pub open spec fn times_of<F>(frames: Seq<Timed<F>>) -> Seq<Double> {
    Seq::new(frames.len(), |i: int| frames[i].t)
}

impl<F> Window<F> {
    /// The frames in the window.
    pub closed spec fn frames(&self) -> Seq<Timed<F>> {
        self.frames@
    }

    /// The next frame to be processed.
    pub closed spec fn next(&self) -> int {
        self.next as int
    }

    /// The capture times.
    pub open spec fn times(&self) -> Seq<Double> {
        times_of(self.frames())
    }

    /// Only the last frame, or a later one, is the next to be processed when the
    /// window is not empty.
    pub open spec fn wf(&self) -> bool {
        0 <= self.next() && (self.next() < self.frames().len() || (self.next() == 0
            && self.frames().len() == 0))
    }

    /// An empty window.
    pub fn new() -> (res: Self)
        ensures
            res.wf(),
            res.frames().len() == 0,
            res.next() == 0,
    {
        Window { frames: Vec::new(), next: 0 }
    }

    /// How many frames there are.
    pub fn len(&self) -> (res: usize)
        ensures
            res == self.frames().len(),
    {
        self.frames.len()
    }

    /// A frame of the window.
    pub fn at(&self, i: usize) -> (res: &Timed<F>)
        requires
            i < self.frames().len(),
        ensures
            *res == self.frames()[i as int],
    {
        &self.frames[i]
    }

    /// Put a new frame at the end.
    pub fn push(&mut self, t: Double, frame: F)
        requires
            old(self).wf(),
        ensures
            final(self).wf(),
            final(self).frames() == old(self).frames().push(Timed { t, frame }),
            final(self).next() == old(self).next(),
    {
        self.frames.push(Timed { t, frame });
    }

    /// The first frame to process and how many frames to process from there, in
    /// order; each of them has a successor in the window.
    pub fn ready(&self, settled: Double, flush: bool) -> (res: (usize, usize))
        requires
            self.wf(),
        ensures
            res.0 == self.next(),
            res.1 == ready_run(self.times(), self.next(), settled, flush),
            res.1 > 0 ==> res.0 + res.1 < self.frames().len(),
    {
        let ghost all = self.times();
        let total: usize = self.frames.len();
        let mut n: usize = 0;
        while self.next + n + 1 < self.frames.len() && (flush || !settled.is_less(
            self.frames[self.next + n].t,
        ))
            invariant
                self.wf(),
                all == self.times(),
                total == self.frames@.len(),
                n == 0 || self.next + n < self.frames@.len(),
                n + ready_run(all, self.next + n, settled, flush) == ready_run(
                    all,
                    self.next as int,
                    settled,
                    flush,
                ),
            decreases self.frames@.len() - n,
        {
            assert(all[self.next + n] == self.frames@[self.next + n].t);
            n += 1;
        }
        proof {
            if self.next + n + 1 < self.frames@.len() {
                assert(all[self.next + n] == self.frames@[self.next + n].t);
            }
        }
        (self.next, n)
    }

    /// Account for the frames of [`Window::ready`] having been processed and drop
    /// old frames; returns how many were dropped.
    pub fn advance(&mut self, settled: Double, retained: Double, flush: bool) -> (res: usize)
        requires
            old(self).wf(),
        ensures
            final(self).wf(),
            ({
                let run = ready_run(old(self).times(), old(self).next(), settled, flush);
                let gone = retire_run(
                    old(self).times(),
                    old(self).next() + run,
                    retained,
                    flush,
                );
                &&& res == gone
                &&& final(self).next() == old(self).next() + run - gone
                &&& final(self).frames() == old(self).frames().skip(gone as int)
            }),
    {
        let (_first, n) = self.ready(settled, flush);
        let total: usize = self.frames.len();
        let ghost start = self.frames@;
        self.next = self.next + n;
        let ghost mid = self.next as int;
        let mut gone: usize = 0;
        while self.next > 1 && (flush || self.frames[0].t.is_less(retained))
            invariant
                self.wf(),
                gone <= start.len(),
                self.frames@ == start.skip(gone as int),
                self.next + gone == mid,
                mid < start.len() || start.len() == 0,
                total == start.len(),
                gone + retire_run(times_of(self.frames@), self.next as int, retained, flush)
                    == retire_run(times_of(start), mid, retained, flush),
            decreases self.next,
        {
            assert(times_of(self.frames@)[0] == self.frames@[0].t);
            let ghost before = self.frames@;
            self.frames.remove(0);
            assert(self.frames@ =~= before.skip(1));
            assert(times_of(self.frames@) =~= times_of(before).skip(1));
            assert(self.frames@ =~= start.skip(gone + 1));
            self.next = self.next - 1;
            gone += 1;
        }
        proof {
            if self.frames@.len() > 0 {
                assert(times_of(self.frames@)[0] == self.frames@[0].t);
            }
        }
        gone
    }
}

/// Index of the camera with this id among those seen so far; a new camera is put
/// at the end.
pub fn cam_index(ids: &mut Vec<u32>, id: u32) -> (res: usize)
    requires
        old(ids)@.len() < usize::MAX,
    ensures
        res < final(ids)@.len(),
        final(ids)@[res as int] == id,
        forall|j: int| 0 <= j < res ==> final(ids)@[j] != id,
        final(ids)@ == if old(ids)@.contains(id) {
            old(ids)@
        } else {
            old(ids)@.push(id)
        },
{
    let mut i: usize = 0;
    while i < ids.len()
        invariant
            i <= ids@.len(),
            ids@ == old(ids)@,
            ids@.len() < usize::MAX,
            forall|j: int| 0 <= j < i ==> ids@[j] != id,
        decreases ids.len() - i,
    {
        if ids[i] == id {
            return i;
        }
        i += 1;
    }
    ids.push(id);
    i
}

proof fn lemma_run_bound(times: Seq<Double>, next: int, settled: Double, flush: bool)
    requires
        0 <= next < times.len(),
    ensures
        next + ready_run(times, next, settled, flush) < times.len(),
        flush ==> next + ready_run(times, next, settled, flush) == times.len() - 1,
        ready_run(
            times,
            next + ready_run(times, next, settled, flush) as int,
            settled,
            flush,
        ) == 0,
    decreases times.len() - next,
{
    if next + 1 < times.len() && (flush || !settled.lt(times[next])) {
        lemma_run_bound(times, next + 1, settled, flush);
    }
}

proof fn lemma_retire_bound(times: Seq<Double>, next: int, retained: Double, flush: bool)
    requires
        0 <= next < times.len() || (next == 0 && times.len() == 0),
    ensures
        next >= 1 ==> retire_run(times, next, retained, flush) <= next - 1,
        next < 1 ==> retire_run(times, next, retained, flush) == 0,
    decreases next,
{
    if next > 1 && times.len() > 0 && (flush || times[0].lt(retained)) {
        lemma_retire_bound(times.skip(1), next - 1, retained, flush);
    }
}

/// Frames are processed in order, each once: whatever is ready starts where the
/// last run ended, and right after a run nothing is ready.
pub proof fn law_frames_are_processed_once(
    times: Seq<Double>,
    next: int,
    settled: Double,
    flush: bool,
)
    requires
        0 <= next < times.len(),
    ensures
        ready_run(
            times,
            next + ready_run(times, next, settled, flush) as int,
            settled,
            flush,
        ) == 0,
        next + ready_run(times, next, settled, flush) < times.len(),
{
    lemma_run_bound(times, next, settled, flush);
}

/// A flush processes every frame of a window but its last one.
pub proof fn law_flush_processes_all_but_the_last(times: Seq<Double>, next: int, settled: Double)
    requires
        0 <= next < times.len(),
    ensures
        next + ready_run(times, next, settled, true) == times.len() - 1,
{
    lemma_run_bound(times, next, settled, true);
}

/// A frame that still has to be processed is never dropped, nor is the frame
/// before it: once a frame has been processed, the next one always finds its
/// predecessor in the window.
pub proof fn law_predecessor_is_kept(
    times: Seq<Double>,
    next: int,
    settled: Double,
    retained: Double,
    flush: bool,
)
    requires
        0 <= next < times.len(),
    ensures
        ({
            let mid = next + ready_run(times, next, settled, flush) as int;
            let gone = retire_run(times, mid, retained, flush) as int;
            mid >= 1 ==> mid - gone >= 1
        }),
{
    lemma_run_bound(times, next, settled, flush);
    lemma_retire_bound(
        times,
        next + ready_run(times, next, settled, flush) as int,
        retained,
        flush,
    );
}

/// Frames are ready in a row as long as each has a successor and has settled, and the
/// row ends at the first that has not; a flush takes settling as given.
pub proof fn law_ready_frames_have_settled(times: Seq<Double>, next: int, settled: Double, flush: bool)
    requires
        0 <= next,
    ensures
        ({
            let end = next + ready_run(times, next, settled, flush);
            &&& end == next || end <= times.len() - 1
            &&& !flush ==> forall|k: int| next <= k < end ==> !settled.lt(#[trigger] times[k])
            &&& end >= times.len() - 1 || (!flush && settled.lt(times[end]))
        }),
    decreases times.len() - next,
{
    if next + 1 < times.len() && (flush || !settled.lt(times[next])) {
        law_ready_frames_have_settled(times, next + 1, settled, flush);
    }
}

/// Frames are dropped from the front as long as they are before the time to retain and
/// more than one is left before the next one, and no further; a flush takes their age
/// as given.
pub proof fn law_retired_frames_are_old(times: Seq<Double>, next: int, retained: Double, flush: bool)
    requires
        next <= times.len(),
    ensures
        ({
            let gone = retire_run(times, next, retained, flush) as int;
            &&& gone == 0 || gone <= next - 1
            &&& forall|k: int| 0 <= k < gone ==> flush || (#[trigger] times[k]).lt(retained)
            &&& gone >= next - 1 || (!flush && !times[gone].lt(retained))
        }),
    decreases next,
{
    if next > 1 && times.len() > 0 && (flush || times[0].lt(retained)) {
        let rest = times.skip(1);
        law_retired_frames_are_old(rest, next - 1, retained, flush);
        let gone = retire_run(times, next, retained, flush) as int;
        assert forall|k: int| 0 <= k < gone implies flush || (#[trigger] times[k]).lt(retained) by {
            if k > 0 {
                assert(rest[k - 1] == times[k]);
            }
        }
    }
}

/// The times of a window are those of its frames.
pub proof fn law_times_are_those_of_the_frames<F>(w: Window<F>, i: int)
    requires
        0 <= i < w.frames().len(),
    ensures
        w.times().len() == w.frames().len(),
        w.times()[i] == w.frames()[i].t,
{
}

} // verus!
