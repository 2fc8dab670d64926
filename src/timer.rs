use vstd::prelude::*;

use crate::shared::MAX_TICK_MICROS;

verus! {

/// Longest duration a timer may be given (microseconds).
pub const TIMER_LIMIT: u64 = 1_000_000_000_000;

/// A countdown of `duration` microseconds, one-shot or repeating.
#[derive(Clone, Copy, Debug, PartialEq, Eq, Structural)]
pub struct Timer {
    pub duration: u64,
    pub elapsed: u64,
    pub repeating: bool,
    /// The countdown is complete (a repeating timer reports this on the
    /// tick it wraps around).
    pub finished: bool,
    /// The last tick completed the countdown.
    pub just_finished: bool,
}

impl Timer {
    pub open spec fn wf(&self) -> bool {
        0 < self.duration <= TIMER_LIMIT && self.elapsed <= self.duration
    }

    /// The timer after `dt` more microseconds.
    pub open spec fn ticked(self, dt: int) -> Timer {
        let total = self.elapsed + dt;
        if total >= self.duration {
            if self.repeating {
                Timer {
                    elapsed: (total % (self.duration as int)) as u64,
                    finished: true,
                    just_finished: true,
                    ..self
                }
            } else {
                Timer {
                    elapsed: self.duration,
                    finished: true,
                    just_finished: !self.finished,
                    ..self
                }
            }
        } else {
            Timer { elapsed: total as u64, finished: false, just_finished: false, ..self }
        }
    }

    /// A fresh timer.
    pub open spec fn new_spec(duration: u64, repeating: bool) -> Timer {
        Timer { duration, elapsed: 0, repeating, finished: false, just_finished: false }
    }

    pub fn new(duration: u64, repeating: bool) -> (r: Timer)
        requires
            0 < duration <= TIMER_LIMIT,
        ensures
            r.wf(),
            r == Timer::new_spec(duration, repeating),
    {
        Timer { duration, elapsed: 0, repeating, finished: false, just_finished: false }
    }

    /// Advances the countdown by `dt` microseconds.
    pub fn tick(&mut self, dt: u64)
        requires
            old(self).wf(),
            dt <= MAX_TICK_MICROS,
        ensures
            final(self).wf(),
            *final(self) == old(self).ticked(dt as int),
    {
        let total: u64 = self.elapsed + dt;
        if total >= self.duration {
            if self.repeating {
                self.elapsed = total % self.duration;
                self.just_finished = true;
            } else {
                self.elapsed = self.duration;
                self.just_finished = !self.finished;
            }
            self.finished = true;
        } else {
            self.elapsed = total;
            self.finished = false;
            self.just_finished = false;
        }
    }

    /// Starts the countdown over.
    pub fn reset(&mut self)
        requires
            old(self).wf(),
        ensures
            final(self).wf(),
            *final(self) == (Timer {
                elapsed: 0,
                finished: false,
                just_finished: false,
                ..*old(self)
            }),
    {
        self.elapsed = 0;
        self.finished = false;
        self.just_finished = false;
    }
}

} // verus!
