//! Signals that can be attached to actors.

use crate::handlers::Action;
use vstd::prelude::*;

verus! {

/// The `Ctrl-C` signal, as an action.
#[derive(Debug, Clone, Copy, PartialEq, Eq, Structural)]
pub struct CtrlC;

impl Action for CtrlC {}

} // verus!
