//! The decisions of the periodic loop: when the registry starts a new
//! generation, and when the loop ends. The loop itself, with its clock and
//! its sleeping, runs outside the library.
use vstd::prelude::*;

verus! {

/// The value of a schedule.
pub struct ScheduleV {
    pub last_day: int,
    pub iterations: int,
    pub max_iterations: int,
}

/// The state of the periodic loop: the day of the last generation start,
/// the iterations run, and the number to stop after (0: never).
pub struct Schedule {
    last_day: i64,
    iterations: u64,
    max_iterations: u64,
}

impl View for Schedule {
    type V = ScheduleV;

    closed spec fn view(&self) -> ScheduleV {
        ScheduleV {
            last_day: self.last_day as int,
            iterations: self.iterations as int,
            max_iterations: self.max_iterations as int,
        }
    }
}

impl Schedule {
    /// A schedule started on day `today` (days since the epoch, local time).
    pub fn new(today: i64, max_iterations: u64) -> (r: Schedule)
        ensures
            r@ == (ScheduleV { last_day: today as int, iterations: 0, max_iterations: max_iterations as int }),
    {
        Schedule { last_day: today, iterations: 0, max_iterations }
    }

    /// The start of an iteration on day `today`: whether a new day began
    /// since the last generation start, in which case the registry is to be
    /// cleared before the iteration runs.
    pub fn begin_iteration(&mut self, today: i64) -> (r: bool)
        ensures
            r == (today != old(self)@.last_day),
            final(self)@ == (ScheduleV { last_day: today as int, ..old(self)@ }),
    {
        let new_day = today != self.last_day;
        self.last_day = today;
        new_day
    }

    /// The end of an iteration: whether the loop goes on.
    pub fn end_iteration(&mut self) -> (r: bool)
        ensures
            final(self)@.last_day == old(self)@.last_day,
            final(self)@.max_iterations == old(self)@.max_iterations,
            final(self)@.iterations == if old(self)@.iterations < u64::MAX {
                old(self)@.iterations + 1
            } else {
                old(self)@.iterations
            },
            r == (final(self)@.max_iterations == 0 || final(self)@.iterations < final(self)@.max_iterations),
    {
        if self.iterations < u64::MAX {
            self.iterations = self.iterations + 1;
        }
        self.max_iterations == 0 || self.iterations < self.max_iterations
    }

    /// The iterations run so far.
    pub fn iterations(&self) -> (r: u64)
        ensures
            r == self@.iterations,
    {
        self.iterations
    }
}

} // verus!
