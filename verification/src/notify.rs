//! On-screen notifications and their expiry timers.
//!
//! The clock is handed in as plain milliseconds: the caller reads the time
//! once per frame and asks each timer whether it has run out.

use vstd::prelude::*;

verus! {

/// A countdown anchored at the moment it was created.
#[derive(Clone, Copy, PartialEq, Eq, Structural, Debug)]
pub struct Timer {
    /// The clock reading at creation, in milliseconds.
    pub start_ms: u64,
    /// How long the timer runs, in milliseconds.
    pub duration_ms: u64,
}

impl Timer {
    /// Starts a timer of the given duration at clock reading `now_ms`.
    pub fn new(now_ms: u64, duration_ms: u64) -> (t: Timer)
        ensures
            t.start_ms == now_ms,
            t.duration_ms == duration_ms,
    {
        Timer { start_ms: now_ms, duration_ms }
    }

    /// Whether the timer has run out at clock reading `now_ms`; a reading
    /// before the start counts as no time elapsed.
    pub fn update(&self, now_ms: u64) -> (r: bool)
        ensures
            r == if now_ms >= self.start_ms {
                now_ms - self.start_ms >= self.duration_ms
            } else {
                self.duration_ms == 0
            },
    {
        let elapsed: u64 = if now_ms >= self.start_ms {
            now_ms - self.start_ms
        } else {
            0
        };
        elapsed >= self.duration_ms
    }
}

/// One notification shown to the operator until its timer runs out or it is
/// dismissed.
#[derive(Clone)]
pub struct Notification {
    pub title: String,
    pub message: String,
    pub timer: Timer,
    pub id: i32,
}

} // verus!
