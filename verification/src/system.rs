//! The system: the virtual supervisor of standalone actors.

use vstd::prelude::*;

verus! {

/// Virtual actor that represents the system/environment. It has no public
/// constructor: no value of it is ever made.
pub struct System {
    _unconstructible: (),
}

/// What to do when the user sends an interruption signal (`Ctrl-C`).
#[derive(Debug, Clone, Copy, PartialEq, Eq, Structural)]
pub enum CtrlCStep {
    /// Interrupt the actor and keep waiting for its termination.
    InterruptActor,
    /// Stop waiting: the application terminates without waiting any longer.
    StopWaiting,
}

/// Waits for an actor spawned by the system: the first `Ctrl-C` interrupts
/// it gracefully, a second one stops the waiting.
pub struct InterruptWaiter {
    first_attempt: bool,
}

impl InterruptWaiter {
    /// Has no signal been received yet?
    pub closed spec fn is_first_attempt(&self) -> bool {
        self.first_attempt
    }

    /// A waiter that has received no signal.
    pub fn new() -> (w: Self)
        ensures
            w.is_first_attempt(),
    {
        InterruptWaiter { first_attempt: true }
    }

    /// Reacts to a `Ctrl-C`: the first one interrupts the actor, every later
    /// one stops the waiting.
    pub fn on_ctrl_c(&mut self) -> (step: CtrlCStep)
        ensures
            (final(self).is_first_attempt(), step) == ctrl_c_step(old(self).is_first_attempt()),
    {
        if self.first_attempt {
            self.first_attempt = false;
            CtrlCStep::InterruptActor
        } else {
            CtrlCStep::StopWaiting
        }
    }
}

/// The waiter's reaction to a `Ctrl-C`: whether signals were received
/// before decides; afterwards one was.
pub open spec fn ctrl_c_step(first_attempt: bool) -> (bool, CtrlCStep) {
    if first_attempt {
        (false, CtrlCStep::InterruptActor)
    } else {
        (false, CtrlCStep::StopWaiting)
    }
}

/// **Law (double interruption).** Starting from a fresh waiter, the first
/// `Ctrl-C` interrupts the actor and the second, like every later one, stops
/// the waiting.
pub proof fn law_second_ctrl_c_stops_waiting()
    ensures
        ({
            let (f1, s1) = ctrl_c_step(true);
            let (f2, s2) = ctrl_c_step(f1);
            let (_f3, s3) = ctrl_c_step(f2);
            s1 == CtrlCStep::InterruptActor && s2 == CtrlCStep::StopWaiting && s3 == CtrlCStep::StopWaiting
        }),
{
}

} // verus!
