//! The kinds of messages an actor can receive.

use vstd::prelude::*;

verus! {

/// A message that an actor handles in its ordinary queue.
pub trait Action: Send + 'static {}

/// A high-priority message.
pub trait InstantAction: Send + 'static {}

/// A synchronous action (useful for rendering routines).
pub trait SyncAction {}

/// A request to an actor that is answered with an `Output`.
pub trait Interaction: Send + 'static {
    /// The result of the interaction.
    type Output: Send + 'static;
}

/// The queue an event is sent through.
#[derive(Debug, Clone, Copy, PartialEq, Eq, Structural)]
pub enum Priority {
    /// The ordinary queue.
    Normal,
    /// The high-priority queue.
    Instant,
}

} // verus!
