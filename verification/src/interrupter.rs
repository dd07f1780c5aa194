//! The action that interrupts actors gracefully.

use crate::handlers::{Action, InstantAction};
use vstd::prelude::*;

verus! {

/// The event sent by an interruption; it is delivered with high priority.
#[derive(Debug, Clone, Copy, PartialEq, Eq, Structural)]
pub struct Interrupted;

impl Action for Interrupted {}

impl InstantAction for Interrupted {}

} // verus!
