//! One start/stop interval of tracking.  An entry is created open (no end
//! time) and is closed by `end_tracking`; the start instant never changes.

use vstd::prelude::*;

use crate::clock::Clock;
use crate::clock::Instant;

verus! {

/// One contiguous tracking interval: a start instant and, once tracking has
/// ended, an end instant.  An entry with `end` absent is still open.
#[derive(Clone, Copy, PartialEq, Eq, Debug)]
pub struct TimeTrackerEntry {
    pub start: Instant,
    pub end: Option<Instant>,
}

impl TimeTrackerEntry {
    /// True iff the entry has been closed.
    pub open spec fn spec_has_ended(&self) -> bool {
        self.end is Some
    }

    /// A fresh, open entry whose start is the clock's reading at call time.
    pub fn new<C: Clock>(clock: &C) -> (e: Self)
        ensures
            e.end is None,
            clock.can_read(e.start),
    {
        TimeTrackerEntry { start: clock.current_time(), end: None }
    }

    /// Closes the entry at the clock's reading at call time.  Calling it on
    /// an already closed entry overwrites the end with the newer reading.
    pub fn end_tracking<C: Clock>(&mut self, clock: &C)
        ensures
            final(self).start == old(self).start,
            final(self).end is Some,
            clock.can_read(final(self).end->0),
    {
        self.end = Some(clock.current_time());
    }

    pub fn has_ended(&self) -> (r: bool)
        ensures
            r == self.spec_has_ended(),
    {
        self.end.is_some()
    }
}

} // verus!
