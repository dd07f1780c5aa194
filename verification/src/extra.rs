//! Own kinds of messages that reuse the existing queues.

use vstd::prelude::*;

verus! {

/// A fully own type of messages.
pub trait CustomAction: Send + 'static {}

} // verus!
