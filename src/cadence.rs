//! The adaptive wait between two read attempts of a file watcher.

use vstd::prelude::*;

verus! {

/// Wait used right after a read found new content, in milliseconds.
pub const ACTIVE_WATCH_TIMEOUT_MS: u64 = 100;

/// Longest wait, reached after repeated reads found nothing, in milliseconds.
pub const STANDBY_WATCH_TIMEOUT_MS: u64 = 2000;

/// Current wait of a watcher, between the active floor and the standby ceiling.
pub struct PollCadence {
    timeout_ms: u64,
}

/// The wait after a read that found nothing: doubled, capped at the ceiling.
pub open spec fn backed_off(t: int) -> int {
    if 2 * t < STANDBY_WATCH_TIMEOUT_MS as int {
        2 * t
    } else {
        STANDBY_WATCH_TIMEOUT_MS as int
    }
}

impl View for PollCadence {
    type V = int;

    closed spec fn view(&self) -> int {
        self.timeout_ms as int
    }
}

impl PollCadence {
    /// The wait lies between the floor and the ceiling.
    pub open spec fn wf(&self) -> bool {
        ACTIVE_WATCH_TIMEOUT_MS as int <= self@ <= STANDBY_WATCH_TIMEOUT_MS as int
    }

    /// A watcher starts in standby.
    pub fn new() -> (r: PollCadence)
        ensures
            r.wf(),
            r@ == STANDBY_WATCH_TIMEOUT_MS as int,
    {
        PollCadence { timeout_ms: STANDBY_WATCH_TIMEOUT_MS }
    }

    /// The wait to use for the next attempt.
    pub fn timeout_ms(&self) -> (r: u64)
        ensures
            r as int == self@,
    {
        self.timeout_ms
    }

    /// New content was found: wait the shortest time next.
    pub fn on_activity(&mut self)
        ensures
            final(self).wf(),
            final(self)@ == ACTIVE_WATCH_TIMEOUT_MS as int,
    {
        self.timeout_ms = ACTIVE_WATCH_TIMEOUT_MS;
    }

    /// Nothing was found: double the wait, up to the ceiling.
    pub fn on_idle(&mut self)
        requires
            old(self).wf(),
        ensures
            final(self).wf(),
            final(self)@ == backed_off(old(self)@),
    {
        if self.timeout_ms < STANDBY_WATCH_TIMEOUT_MS / 2 {
            self.timeout_ms = self.timeout_ms * 2;
        } else {
            self.timeout_ms = STANDBY_WATCH_TIMEOUT_MS;
        }
    }
}

} // verus!
