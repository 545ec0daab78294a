//! What the display shows for the results of a job, and how many it takes in
//! per tick.

use crate::escape::{IterationOutcome, MAX_ITER};
use crate::grid::Pixel;
use crate::view::ComplexPoint;
use vstd::prelude::*;

verus! {

/// The most results that the display takes from a job in one tick.
pub const DRAIN_BATCH: u32 = 64;

/// One result of a compute job.
#[derive(Clone, Copy, Debug, PartialEq, Eq, Structural)]
pub struct Point {
    /// The pixel that was computed.
    pub pixel: Pixel,
    /// The point of the complex plane that the pixel stands for.
    pub complex: ComplexPoint,
    /// What became of that point.
    pub outcome: IterationOutcome,
}

/// The grey level of an outcome: an escape at step `i` is drawn at
/// `i * 255 / 100`, rounded down; a bounded point is not drawn.
pub open spec fn shade_of(outcome: IterationOutcome) -> Option<u8> {
    match outcome {
        IterationOutcome::Escaped(step) => Some((step as int * 255 / (MAX_ITER as int)) as u8),
        IterationOutcome::Bounded => None,
    }
}

/// The grey level at which to draw an outcome, if it is drawn at all.
pub fn shade(outcome: IterationOutcome) -> (level: Option<u8>)
    requires
        outcome.well_formed(),
    ensures
        level == shade_of(outcome),
        outcome is Escaped ==> level is Some && level->Some_0 as int == outcome->Escaped_0 * 255
            / 100,
{
    match outcome {
        IterationOutcome::Escaped(step) => {
            let level: u32 = step * 255 / MAX_ITER;
            Some(level as u8)
        },
        IterationOutcome::Bounded => None,
    }
}

/// How far the job on display has come.
#[derive(Clone, Copy, Debug, PartialEq, Eq, Structural)]
pub struct Progress {
    /// The side of the grid.
    pub side: u16,
    /// The number of results taken in since the job started.
    pub received: u32,
    /// The number of results taken in since the tick started.
    pub drained: u32,
}

impl Progress {
    /// The number of pixels of the grid.
    pub open spec fn total(self) -> int {
        self.side as int * self.side as int
    }

    /// No more results were taken in than the grid has pixels, nor more in
    /// this tick than a batch holds.
    pub open spec fn well_formed(self) -> bool {
        self.received <= self.total() && self.drained <= DRAIN_BATCH
    }

    /// Whether another result may be taken in during this tick.
    pub open spec fn open(self) -> bool {
        self.drained < DRAIN_BATCH && self.received < self.total()
    }

    /// The length of the progress bar: one screen unit per full row of
    /// results, shown while the job is neither untouched nor complete and at
    /// least one row is full.
    pub open spec fn bar(self) -> Option<u16> {
        if 0 < self.received < self.total() && self.received as int / (self.side as int) > 0 {
            Some((self.received as int / (self.side as int)) as u16)
        } else {
            None
        }
    }

    /// The number of pixels of a grid of side `side`.
    fn area(side: u16) -> (a: u32)
        ensures
            a == side as int * side as int,
    {
        let s: u32 = side as u32;
        assert(s * s <= 65535 * 65535) by (nonlinear_arith)
            requires
                s <= 65535,
        ;
        s * s
    }

    /// The progress of a job that has just started on a grid of side `side`.
    pub fn new(side: u16) -> (p: Progress)
        ensures
            p == (Progress { side, received: 0, drained: 0 }),
            p.well_formed(),
    {
        Progress { side, received: 0, drained: 0 }
    }

    /// A new job starts on the same grid: nothing is received yet.
    pub fn reset(&mut self)
        ensures
            *final(self) == (Progress { side: old(self).side, received: 0, drained: 0 }),
            final(self).well_formed(),
    {
        self.received = 0;
        self.drained = 0;
    }

    /// A new tick starts: the batch is empty again.
    pub fn begin_tick(&mut self)
        ensures
            *final(self) == (Progress { drained: 0, ..*old(self) }),
    {
        self.drained = 0;
    }

    /// Whether another result may be taken in during this tick.
    pub fn may_drain(&self) -> (r: bool)
        ensures
            r == self.open(),
    {
        self.drained < DRAIN_BATCH && self.received < Self::area(self.side)
    }

    /// Takes in one result, if the tick's batch and the grid have room for it,
    /// and says whether it did.
    pub fn record(&mut self) -> (taken: bool)
        ensures
            taken == old(self).open(),
            taken ==> *final(self) == (Progress {
                received: (old(self).received + 1) as u32,
                drained: (old(self).drained + 1) as u32,
                ..*old(self)
            }),
            !taken ==> *final(self) == *old(self),
            old(self).well_formed() ==> final(self).well_formed(),
    {
        if self.may_drain() {
            assert(self.side as int * self.side as int <= 65535 * 65535) by (nonlinear_arith)
                requires
                    self.side <= 65535,
            ;
            self.received = self.received + 1;
            self.drained = self.drained + 1;
            true
        } else {
            false
        }
    }

    /// Whether every pixel of the grid has been received.
    pub fn is_complete(&self) -> (r: bool)
        ensures
            r == (self.received >= self.total()),
    {
        self.received >= Self::area(self.side)
    }

    /// The length of the progress bar, if one is shown.
    pub fn bar_width(&self) -> (width: Option<u16>)
        ensures
            width == self.bar(),
    {
        let side: u32 = self.side as u32;
        if side == 0 {
            return None;
        }
        if self.received > 0 && self.received < Self::area(self.side) {
            let rows: u32 = self.received / side;
            assert(rows < side) by (nonlinear_arith)
                requires
                    rows == self.received as int / side as int,
                    self.received < side * side,
                    side > 0,
            ;
            if rows > 0 {
                return Some(rows as u16);
            }
        }
        None
    }
}

} // verus!
