//! The heartbeat task: ticks sent to an actor at an interval that can change.

use crate::handlers::Action;
use vstd::prelude::*;

verus! {

/// A tick sent by the heartbeat task, with the moment it was made.
#[derive(Debug)]
pub struct Tick(pub std::time::Instant);

impl Action for Tick {}

/// How the wait between two ticks ended.
#[derive(Debug, Clone, Copy, PartialEq, Eq, Structural)]
pub enum BeatWait {
    /// The interval was changed through the handle.
    DurationChanged,
    /// The handle is gone: the interval cannot change any more.
    HandleGone,
    /// The deadline passed.
    Elapsed,
}

/// What the heartbeat does next.
#[derive(Debug, Clone, Copy, PartialEq, Eq, Structural)]
pub enum BeatStep {
    /// Recompute the deadline from the new interval and wait again.
    Recheck,
    /// Sleep until the deadline, then tick.
    SleepThenTick,
    /// Tick now.
    Tick,
}

/// Decides the next step of the heartbeat after a wait.
pub fn beat_step(wait: BeatWait) -> (s: BeatStep)
    ensures
        s == (match wait {
            BeatWait::DurationChanged => BeatStep::Recheck,
            BeatWait::HandleGone => BeatStep::SleepThenTick,
            BeatWait::Elapsed => BeatStep::Tick,
        }),
{
    match wait {
        BeatWait::DurationChanged => BeatStep::Recheck,
        BeatWait::HandleGone => BeatStep::SleepThenTick,
        BeatWait::Elapsed => BeatStep::Tick,
    }
}

} // verus!
