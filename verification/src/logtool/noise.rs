//! Windows of consecutive detections of one object, from which its detection
//! noise is estimated.
use vstd::prelude::*;

use crate::double::{Double, lemma_powers};

verus! {

/// Length of a window: 1 s.
pub const NOISE_WIN: u64 = 0x3FF0_0000_0000_0000;

/// Maximum gap inside a window before it is restarted: 0.1 s.
pub const NOISE_MAX_GAP: u64 = 0x3FB9_9999_9999_999A;

/// Minimum samples in a window.
pub const NOISE_MIN_N: usize = 20;

/// Maximum fitted speed for a window to count as slow: 0.03 m/s.
pub const SLOW_SPEED: u64 = 0x3F9E_B851_EB85_1EB8;

/// Maximum end-to-end displacement for a window to count as slow: 0.02 m.
pub const SLOW_DISP: u64 = 0x3F94_7AE1_47AE_147B;

/// Maximum end-to-end displacement for a strictly static window: 0.005 m.
pub const STATIC_DISP: u64 = 0x3F74_7AE1_47AE_147B;

/// One sample of a window.
#[derive(Clone, Copy, Debug, PartialEq, Eq, Structural)]
pub struct Sample {
    /// Capture time.
    pub t: Double,
    /// Position along x.
    pub x: Double,
    /// Position along y.
    pub y: Double,
    /// Orientation.
    pub p: Double,
    /// Area, if there is one.
    pub a: Option<Double>,
}

/// A tracked ball slower than this rests: 0.03 m/s.
pub const BALL_REST_SPEED: u64 = 0x3F9E_B851_EB85_1EB8;

/// A tracked ball below this height rests: 0.02 m.
pub const BALL_REST_HEIGHT: u64 = 0x3F94_7AE1_47AE_147B;

/// Whether a tracked ball rests: its speed is known and low, and so is its height
/// without its sign.
pub fn ball_rests(speed: Double, height: Double) -> (res: bool)
    ensures
        res == (speed.finite() && speed.lt(Double { bits: BALL_REST_SPEED }) && height.lt(
            Double { bits: BALL_REST_HEIGHT },
        )),
{
    speed.is_finite() && speed.is_less(Double::from_bits(BALL_REST_SPEED)) && height.is_less(
        Double::from_bits(BALL_REST_HEIGHT),
    )
}

/// A rolling window of samples.
#[derive(Clone, Debug)]
pub struct NoiseWin {
    /// The samples.
    pub samples: Vec<Sample>,
    /// Whether the game was held at every sample.
    pub all_static: bool,
    /// Mean distance from the camera's nadir.
    pub nadir: Double,
}

/// A window that has ended.
#[derive(Clone, Debug)]
pub struct Ended {
    /// The samples.
    pub samples: Vec<Sample>,
    /// Whether the game was held at every sample.
    pub all_static: bool,
    /// Mean distance from the camera's nadir.
    pub nadir: Double,
}

/// The next sample comes too late after the last one.
pub open spec fn interrupted(gap: Double) -> bool {
    (Double { bits: NOISE_MAX_GAP }).lt(gap)
}

/// The window has reached its length.
pub open spec fn complete(span: Double) -> bool {
    (Double { bits: NOISE_WIN }).le(span)
}

impl NoiseWin {
    /// Empty, as before the first sample.
    pub open spec fn is_cleared(&self) -> bool {
        self.samples@.len() == 0 && self.all_static && self.nadir == Double::zero()
    }

    /// No samples.
    pub fn new() -> (res: Self)
        ensures
            res.is_cleared(),
    {
        NoiseWin { samples: Vec::new(), all_static: true, nadir: Double::zero() }
    }

    fn take(&mut self) -> (res: Ended)
        ensures
            final(self).is_cleared(),
            res.samples@ == old(self).samples@,
            res.all_static == old(self).all_static,
            res.nadir == old(self).nadir,
    {
        let mut samples: Vec<Sample> = Vec::new();
        samples.append(&mut self.samples);
        let res = Ended { samples, all_static: self.all_static, nadir: self.nadir };
        self.all_static = true;
        self.nadir = Double::zero();
        res
    }

    /// Prepare for a robot's next sample, `gap` after the last one and `span`
    /// after the first one. After a long gap the window starts anew; a complete
    /// window ends and is returned.
    pub fn begin_robot(&mut self, gap: Double, span: Double) -> (res: Option<Ended>)
        ensures
            old(self).samples@.len() == 0 ==> res is None && final(self).samples@.len() == 0
                && final(self).all_static && final(self).nadir == old(self).nadir,
            old(self).samples@.len() > 0 && interrupted(gap) ==> res is None
                && final(self).is_cleared(),
            old(self).samples@.len() > 0 && !interrupted(gap) && complete(span) ==> final(
                self).is_cleared() && (res matches Some(e) && e.samples@ == old(self).samples@
                && e.all_static == old(self).all_static && e.nadir == old(self).nadir),
            old(self).samples@.len() > 0 && !interrupted(gap) && !complete(span) ==> res is None
                && *final(self) == *old(self),
    {
        if self.samples.len() == 0 {
            self.all_static = true;
            return None;
        }
        if Double::from_bits(NOISE_MAX_GAP).is_less(gap) {
            let _ = self.take();
            return None;
        }
        if Double::from_bits(NOISE_WIN).is_at_most(span) {
            let ended = self.take();
            return Some(ended);
        }
        None
    }

    /// Prepare for a ball's next sample, `gap` after the last one and `span` after
    /// the first one. A window ends when the ball moves, after a long gap and when
    /// it is complete; if it has samples it is returned.
    pub fn begin_ball(&mut self, at_rest: bool, gap: Double, span: Double) -> (res: Option<Ended>)
        ensures
            ({
                let ends = !at_rest || (old(self).samples@.len() > 0 && (interrupted(gap)
                    || complete(span)));
                &&& res is Some <==> ends && old(self).samples@.len() > 0
                &&& res matches Some(e) ==> e.samples@ == old(self).samples@ && e.all_static
                    == old(self).all_static && e.nadir == old(self).nadir
                &&& ends ==> final(self).is_cleared()
                &&& !ends ==> *final(self) == *old(self)
            }),
    {
        let any = self.samples.len() > 0;
        if !at_rest || (any && (Double::from_bits(NOISE_MAX_GAP).is_less(gap) || Double::from_bits(
            NOISE_WIN,
        ).is_at_most(span))) {
            let ended = self.take();
            if any {
                return Some(ended);
            }
        }
        None
    }

    /// Add a sample; `nadir` is the mean distance from the camera's nadir with it.
    pub fn push(&mut self, s: Sample, held: bool, nadir: Double)
        ensures
            final(self).samples@ == old(self).samples@.push(s),
            final(self).all_static == (old(self).all_static && held),
            final(self).nadir == nadir,
    {
        self.samples.push(s);
        self.all_static = self.all_static && held;
        self.nadir = nadir;
    }
}

/// What a window that has ended is good for.
#[derive(Clone, Copy, Debug, PartialEq, Eq, Structural)]
pub enum Verdict {
    /// Nothing: too few samples, or too much motion.
    Rejected,
    /// The object moved slowly.
    Slow,
    /// The object stood still while the game was held.
    Static,
}

/// Absolute slopes of the fitted lines.
#[derive(Clone, Copy, Debug, PartialEq, Eq, Structural)]
pub struct Slopes {
    /// Along x.
    pub x: Double,
    /// Along y.
    pub y: Double,
}

/// Judge a window of `n` samples with the given end-to-end displacement and
/// fitted slopes, if a line could be fitted.
pub fn judge(n: usize, disp: Double, slopes: Option<Slopes>, all_static: bool) -> (res: Verdict)
    ensures
        res is Rejected <==> n < NOISE_MIN_N || (Double { bits: SLOW_DISP }).lt(disp) || slopes
            is None || (Double { bits: SLOW_SPEED }).lt(slopes->0.x) || (Double {
            bits: SLOW_SPEED,
        }).lt(slopes->0.y),
        res !is Rejected ==> (res is Static <==> all_static && disp.lt(
            Double { bits: STATIC_DISP },
        )),
{
    if n < NOISE_MIN_N || Double::from_bits(SLOW_DISP).is_less(disp) {
        return Verdict::Rejected;
    }
    match slopes {
        None => Verdict::Rejected,
        Some(s) => if Double::from_bits(SLOW_SPEED).is_less(s.x) || Double::from_bits(
            SLOW_SPEED,
        ).is_less(s.y) {
            Verdict::Rejected
        } else if all_static && disp.is_less(Double::from_bits(STATIC_DISP)) {
            Verdict::Static
        } else {
            Verdict::Slow
        },
    }
}

/// The areas of the samples that have one, in order.
pub open spec fn areas(s: Seq<Sample>) -> Seq<Double>
    decreases s.len(),
{
    if s.len() == 0 {
        seq![]
    } else {
        match s.last().a {
            Some(a) => areas(s.drop_last()).push(a),
            None => areas(s.drop_last()),
        }
    }
}

/// The areas of a window, if every sample has one.
pub fn all_areas(samples: &Vec<Sample>) -> (res: Option<Vec<Double>>)
    ensures
        match res {
            Some(a) => a@ == areas(samples@) && a@.len() == samples@.len(),
            None => areas(samples@).len() < samples@.len(),
        },
{
    let mut out: Vec<Double> = Vec::new();
    let mut i: usize = 0;
    while i < samples.len()
        invariant
            i <= samples@.len(),
            out@ == areas(samples@.take(i as int)),
            out@.len() <= i,
        decreases samples.len() - i,
    {
        assert(samples@.take(i + 1).drop_last() =~= samples@.take(i as int));
        if let Some(a) = samples[i].a {
            out.push(a);
        }
        i += 1;
    }
    assert(samples@.take(i as int) =~= samples@);
    if out.len() == samples.len() {
        Some(out)
    } else {
        None
    }
}

/// The limits are the decimal numbers that they are said to be.
pub proof fn law_limits_in_decimals()
    ensures
        (Double { bits: NOISE_WIN }).reads(1, 1),
        !(Double { bits: NOISE_WIN }).negative(),
        (Double { bits: NOISE_MAX_GAP }).reads(1, 10),
        !(Double { bits: NOISE_MAX_GAP }).negative(),
        (Double { bits: SLOW_SPEED }).reads(3, 100),
        !(Double { bits: SLOW_SPEED }).negative(),
        (Double { bits: SLOW_DISP }).reads(2, 100),
        !(Double { bits: SLOW_DISP }).negative(),
        (Double { bits: STATIC_DISP }).reads(5, 1000),
        !(Double { bits: STATIC_DISP }).negative(),
        (Double { bits: BALL_REST_SPEED }).reads(3, 100),
        !(Double { bits: BALL_REST_SPEED }).negative(),
        (Double { bits: BALL_REST_HEIGHT }).reads(2, 100),
        !(Double { bits: BALL_REST_HEIGHT }).negative(),
{
    lemma_powers();
}

/// A gap above 0.1 s interrupts a window, and it is complete from 1 s on. A cleared
/// window has no samples and counts as static.
pub proof fn law_windows_end(w: NoiseWin, gap: Double, span: Double)
    ensures
        interrupted(gap) <==> (Double { bits: NOISE_MAX_GAP }).lt(gap),
        complete(span) <==> (Double { bits: NOISE_WIN }).lt(span) || (Double { bits: NOISE_WIN }).same(
            span,
        ),
        w.is_cleared() ==> w.samples@.len() == 0 && w.all_static && w.nadir.bits == 0,
{
}

/// The areas are those of the samples that have one, in their order.
pub proof fn law_areas_are_those_of_the_samples(s: Seq<Sample>)
    ensures
        areas(s) == s.filter(|x: Sample| x.a is Some).map_values(|x: Sample| x.a->0),
    decreases s.len(),
{
    reveal(Seq::filter);
    if s.len() > 0 {
        law_areas_are_those_of_the_samples(s.drop_last());
        let f = |x: Sample| x.a is Some;
        let g = |x: Sample| x.a->0;
        if s.last().a is Some {
            assert(s.filter(f) =~= s.drop_last().filter(f).push(s.last()));
            assert(s.filter(f).map_values(g) =~= s.drop_last().filter(f).map_values(g).push(
                s.last().a->0,
            ));
        }
    }
}

/// The numbers of samples are as they are said to be.
pub proof fn law_least_numbers()
    ensures
        NOISE_MIN_N == 20,
{
}

} // verus!
