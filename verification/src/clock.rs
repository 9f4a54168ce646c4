//! The time source the tracker reads from: an abstract instant, the `Clock`
//! capability, a deterministic clock for tests and a wall-clock variant.

use vstd::prelude::*;

verus! {

/// A point in time, held as a plain number of ticks so that contracts can
/// speak about readings directly.  The unit is irrelevant to the tracking
/// logic; the wall-clock variant hands out milliseconds since the Unix epoch.
#[derive(Clone, Copy, PartialEq, Eq, Structural, Debug)]
pub struct Instant {
    pub ticks: u64,
}

/// The capability that supplies "now".  Reading it has no side effect and
/// never fails; which readings are possible depends on the implementation.
pub trait Clock {
    /// The readings this clock may hand out in its current state.  A
    /// deterministic clock pins the reading down exactly; the wall clock
    /// admits every reading.
    spec fn can_read(&self, t: Instant) -> bool;

    fn current_time(&self) -> (t: Instant)
        ensures
            self.can_read(t),
    ;
}

/// A deterministic clock for tests: it always returns `now`, and the test
/// may set `now` between calls to simulate the passing of time.
#[derive(Clone, Copy, Debug)]
pub struct MockClock {
    pub now: Instant,
}

impl Clock for MockClock {
    open spec fn can_read(&self, t: Instant) -> bool {
        t == self.now
    }

    fn current_time(&self) -> (t: Instant) {
        self.now
    }
}

/// The real time source, backed by the system wall clock.  Nothing can be
/// promised of its readings, so its `can_read` admits every instant.
#[derive(Clone, Copy, Debug)]
pub struct SystemClock;

/// Relies on `std::time::SystemTime::now` for the wall-clock reading;
/// nothing is promised of the value.  A reading before the Unix epoch
/// collapses to zero ticks rather than failing.
#[verifier::external_body]
fn wall_clock_reading() -> (t: Instant) {
    let ticks: u64 = match std::time::SystemTime::now().duration_since(std::time::UNIX_EPOCH) {
        Ok(d) => d.as_millis() as u64,
        Err(_) => 0,
    };
    Instant { ticks }
}

impl Clock for SystemClock {
    open spec fn can_read(&self, t: Instant) -> bool {
        true
    }

    fn current_time(&self) -> (t: Instant) {
        wall_clock_reading()
    }
}

} // verus!
