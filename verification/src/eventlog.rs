//! Structured run log. The engine records what happened as plain values;
//! rendering them as text lines is a job for the caller, outside the engine.

use vstd::prelude::*;

verus! {

/// One recorded simulation event. All times are microseconds.
#[derive(Clone, Copy, PartialEq, Eq, Structural, Debug)]
pub enum LogRecord {
    /// A user was admitted where it arrived.
    UserAdd { time: u64, station: usize, user: u64, end: u64, next_add: u64 },
    /// A user arrived but was displaced, to be redirected or dropped.
    UserCreated { time: u64, station: usize, user: u64, end: u64, next_add: u64 },
    /// A served user departed.
    UserRelease { time: u64, station: usize, user: u64, end: u64 },
    /// A station finished a power transition; `active` tells into which state.
    StateChange { time: u64, station: usize, active: bool },
    /// The arrival-rate schedule moved to its next entry.
    LambdaUpdate { time: u64, lambda_micro: u64 },
    /// A displaced user found a place on another station.
    Redirect { time: u64, user: u64, from: usize, to: usize },
    /// A displaced user found no place anywhere and left the system.
    UserDrop { time: u64, user: u64 },
}

/// An append-only list of log records; a disabled log swallows everything.
pub struct EventLog {
    pub enabled: bool,
    pub records: Vec<LogRecord>,
}

impl EventLog {
    pub fn new(enabled: bool) -> (log: EventLog)
        ensures
            log.enabled == enabled,
            log.records@ == Seq::<LogRecord>::empty(),
    {
        EventLog { enabled, records: Vec::new() }
    }

    pub fn push(&mut self, rec: LogRecord)
        ensures
            final(self).enabled == old(self).enabled,
            old(self).enabled ==> final(self).records@ == old(self).records@.push(rec),
            !old(self).enabled ==> *final(self) == *old(self),
    {
        if self.enabled {
            self.records.push(rec);
        }
    }
}

} // verus!
