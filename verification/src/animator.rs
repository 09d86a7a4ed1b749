//! Programmatic animators: producers of motion curves for transitions
//! between values. The linear animator covers one value pair with a single
//! straight cubic.

use vstd::prelude::*;
use crate::fixed::FX_ONE;

verus! {

/// Fractional progress within an interval, clamped to `[0, 1]` in
/// micro-units when read.
#[derive(Copy, Clone, Debug, PartialEq, Eq, Structural)]
pub struct IntervalPosition {
    pub pos: i64,
}

impl IntervalPosition {
    pub fn new(pos: i64) -> (r: IntervalPosition)
        ensures
            r.pos == pos,
    {
        IntervalPosition { pos }
    }

    pub fn into_inner(self) -> (r: i64)
        ensures
            r == (if self.pos < 0 {
                0i64
            } else if self.pos > FX_ONE {
                FX_ONE as i64
            } else {
                self.pos
            }),
    {
        if self.pos < 0 {
            0
        } else if self.pos > FX_ONE {
            FX_ONE
        } else {
            self.pos
        }
    }
}

/// One cubic segment of a motion curve, by its three later control points.
#[derive(Copy, Clone, Debug, PartialEq, Eq)]
pub struct MotionCubic {
    pub p1: (IntervalPosition, i64),
    pub p2: (IntervalPosition, i64),
    pub p3: (IntervalPosition, i64),
}

/// A motion curve: a start point and cubic segments; when any cubics exist
/// the last ends the interval.
pub struct MotionCurve {
    pub start: (IntervalPosition, i64),
    pub motion: Vec<MotionCubic>,
}

/// An animator that moves between values in a straight line.
#[derive(Debug, Clone, PartialEq, Eq, Structural)]
pub struct LinearAnimator;

impl LinearAnimator {
    pub fn new() -> (r: LinearAnimator)
        ensures
            r == LinearAnimator,
    {
        LinearAnimator
    }

    /// One straight segment from the start value at position 0 to the end
    /// value at position 1.
    pub fn animate_between(&self, start_value: i64, end_value: i64) -> (r: MotionCurve)
        ensures
            r.start == (IntervalPosition { pos: 0i64 }, start_value),
            r.motion@.len() == 1,
            r.motion@[0] == (MotionCubic {
                p1: (IntervalPosition { pos: 0i64 }, start_value),
                p2: (IntervalPosition { pos: FX_ONE as i64 }, end_value),
                p3: (IntervalPosition { pos: FX_ONE as i64 }, end_value),
            }),
    {
        let start = (IntervalPosition { pos: 0 }, start_value);
        let end = (IntervalPosition { pos: FX_ONE }, end_value);
        let mut motion: Vec<MotionCubic> = Vec::new();
        motion.push(MotionCubic { p1: start, p2: end, p3: end });
        MotionCurve { start, motion }
    }
}

} // verus!
