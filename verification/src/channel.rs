//! The signals by which runtimes report finished children and shutdowns.

use crate::ids::Id;
use vstd::prelude::*;

verus! {

/// Status of an actor behind a controller.
#[derive(Debug, Clone, Copy, PartialEq, Eq, Structural)]
pub enum Status {
    /// Spawned and working.
    Alive,
    /// Finished.
    Done,
}

/// A signal to a runtime.
#[derive(Debug, Clone, Copy, PartialEq, Eq, Structural)]
pub enum Signal {
    /// Shut down.
    Shutdown,
    /// The child finished.
    Finished {
        /// The child.
        child: Id,
    },
}

impl Signal {
    /// The finished child, or `None` for the shutdown signal.
    pub fn into_child(self) -> (r: Option<Id>)
        ensures
            r == (match self {
                Signal::Shutdown => None,
                Signal::Finished { child } => Some(child),
            }),
    {
        match self {
            Signal::Shutdown => None,
            Signal::Finished { child } => Some(child),
        }
    }
}

/// The runtime's side of a controller: it reports the end of the runtime to
/// its supervisor, once. `C` is the supervisor's controller.
pub struct Operator<C> {
    id: Id,
    supervisor: Option<C>,
}

impl<C> Operator<C> {
    /// The runtime's identifier.
    pub closed spec fn spec_id(&self) -> Id {
        self.id
    }

    /// The supervisor still to be told.
    pub closed spec fn spec_supervisor(&self) -> Option<C> {
        self.supervisor
    }

    /// An operator of the runtime `id`.
    pub fn new(id: Id, supervisor: Option<C>) -> (o: Self)
        ensures
            o.spec_id() == id,
            o.spec_supervisor() == supervisor,
    {
        Operator { id, supervisor }
    }

    /// Finalizes the runtime: returns the supervisor with the signal that
    /// tells it the child finished; only the first call returns it. The
    /// status `Done` is published by the caller.
    pub fn finalize(&mut self) -> (r: Option<(C, Signal)>)
        ensures
            final(self).spec_id() == old(self).spec_id(),
            final(self).spec_supervisor() is None,
            r == (match old(self).spec_supervisor() {
                Some(s) => Some((s, Signal::Finished { child: old(self).spec_id() })),
                None => None,
            }),
    {
        match self.supervisor.take() {
            Some(supervisor) => Some((supervisor, Signal::Finished { child: self.id })),
            None => None,
        }
    }
}

} // verus!
