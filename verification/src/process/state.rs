//! The scheduling state of a process.

use vstd::prelude::*;

verus! {

/// What a blocked process waits for.
#[derive(Debug, Copy, Clone, PartialEq, Eq, Structural)]
pub enum Event {
    /// The end of a sleep of `ms` milliseconds that began at time `start`,
    /// in microseconds since boot.
    Sleep { start: u64, ms: u32 },
}

impl Event {
    /// The event has come about by time `now`, in microseconds since boot.
    pub open spec fn arrived(self, now: u64) -> bool {
        match self {
            Event::Sleep { start, ms } => now >= start + ms * 1000,
        }
    }

    /// The number of whole milliseconds from the time the wait began to
    /// `now`.
    pub open spec fn elapsed_ms(self, now: u64) -> u64 {
        match self {
            Event::Sleep { start, ms } => ((now - start) / 1000) as u64,
        }
    }

    /// Whether the event has come about by time `now`.
    pub fn has_arrived(self, now: u64) -> (r: bool)
        ensures
            r == self.arrived(now),
    {
        match self {
            Event::Sleep { start, ms } => now >= start && now - start >= (ms as u64) * 1000,
        }
    }

    /// The number of whole milliseconds from the time the wait began to
    /// `now`.
    pub fn elapsed(self, now: u64) -> (r: u64)
        requires
            self.arrived(now),
        ensures
            r == self.elapsed_ms(now),
            self matches Event::Sleep { ms, .. } && r >= ms,
    {
        match self {
            Event::Sleep { start, ms } => (now - start) / 1000,
        }
    }
}

/// The scheduling state of a process.
#[derive(Debug, Copy, Clone, PartialEq, Eq, Structural)]
pub enum State {
    /// The process can be scheduled.
    Ready,
    /// The process waits for an event before it can be scheduled.
    Waiting(Event),
    /// The process is the one that runs.
    Running,
    /// The process has ended.
    Dead,
}

} // verus!
