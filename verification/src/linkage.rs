//! Sets of recipients and tasks that are addressed together.

use crate::id_map::IdMap;
use crate::ids::{Id, IdOf};
use crate::lite_runtime::{StopSender, TaskAddress};
use vstd::prelude::*;

verus! {

/// Gives a `Link` (a typed wrapper) to an actor.
pub trait Link<T> {
    /// Gets the link.
    fn link(&self) -> T;
}

/// The set of recipients that an action is sent to together, keyed by the
/// identifiers of their actors.
pub struct Distributor<R> {
    recipients: IdMap<R>,
}

impl<R> View for Distributor<R> {
    type V = Map<Id, R>;

    closed spec fn view(&self) -> Map<Id, R> {
        self.recipients@
    }
}

impl<R> Distributor<R> {
    /// Well-formedness.
    pub closed spec fn wf(&self) -> bool {
        self.recipients.wf()
    }

    /// An empty set.
    pub fn new() -> (d: Self)
        ensures
            d.wf(),
            d@ == Map::<Id, R>::empty(),
    {
        Distributor { recipients: IdMap::new() }
    }

    /// Adds the recipient of the actor `id` (replacing the one it had).
    pub fn insert(&mut self, id: Id, recipient: R)
        requires
            old(self).wf(),
        ensures
            final(self).wf(),
            final(self)@ == old(self)@.insert(id, recipient),
            final(self)@.dom().finite(),
            final(self)@.len() == old(self)@.len() + (if old(self)@.contains_key(id) { 0int } else { 1int }),
    {
        proof {
            self.recipients.lemma_entries();
        }
        self.recipients.insert(id, recipient);
        proof {
            self.recipients.lemma_entries();
        }
    }

    /// Removes the recipient of the actor `id`.
    pub fn remove(&mut self, id: &Id) -> (r: Option<R>)
        requires
            old(self).wf(),
        ensures
            final(self).wf(),
            final(self)@ == old(self)@.remove(*id),
            final(self)@.dom().finite(),
            final(self)@.len() == old(self)@.len() - (if old(self)@.contains_key(*id) { 1int } else { 0int }),
            match r {
                Some(v) => old(self)@.contains_key(*id) && v == old(self)@[*id],
                None => !old(self)@.contains_key(*id),
            },
    {
        proof {
            self.recipients.lemma_entries();
        }
        let r = self.recipients.remove(id);
        proof {
            self.recipients.lemma_entries();
        }
        r
    }

    /// The recipient of the actor `id`, if any.
    pub fn get(&self, id: &Id) -> (r: Option<&R>)
        requires
            self.wf(),
        ensures
            match r {
                Some(v) => self@.contains_key(*id) && *v == self@[*id],
                None => !self@.contains_key(*id),
            },
    {
        self.recipients.get(id)
    }

    /// The identifiers of the recipients.
    pub fn ids(&self) -> (ids: Vec<Id>)
        requires
            self.wf(),
        ensures
            ids@.no_duplicates(),
            forall|k: Id| #[trigger] ids@.contains(k) <==> self@.contains_key(k),
    {
        proof {
            self.recipients.lemma_key_seq();
        }
        self.recipients.keys()
    }

    /// Size of the set.
    pub fn len(&self) -> (n: usize)
        requires
            self.wf(),
        ensures
            n == self@.len(),
            self@.dom().finite(),
    {
        proof {
            self.recipients.lemma_entries();
        }
        self.recipients.len()
    }

    /// Is the set empty?
    pub fn is_empty(&self) -> (b: bool)
        requires
            self.wf(),
        ensures
            b == (self@.len() == 0),
    {
        self.recipients.is_empty()
    }
}

/// The first error among the results of sending to several recipients, or
/// `Ok` when all of them succeeded.
pub fn first_error(results: Vec<Result<(), anyhow::Error>>) -> (r: Result<(), anyhow::Error>)
    ensures
        (forall|i: int| 0 <= i < results@.len() ==> (#[trigger] results@[i]) is Ok) <==> r is Ok,
        r is Err ==> exists|i: int|
            0 <= i < results@.len() && results@[i] == r && (forall|j: int|
                0 <= j < i ==> (#[trigger] results@[j]) is Ok),
{
    let ghost all = results@;
    let mut rest = results;
    let ghost mut i: int = 0;
    while rest.len() > 0
        invariant
            all == results@,
            0 <= i,
            all.len() == i + rest@.len(),
            forall|j: int| 0 <= j < rest@.len() ==> rest@[j] == all[i + j],
            forall|j: int| 0 <= j < i ==> (#[trigger] all[j]) is Ok,
        decreases rest@.len(),
    {
        let ghost prev = rest@;
        let first = rest.remove(0);
        proof {
            assert(first == all[i]);
        }
        match first {
            Ok(()) => {},
            Err(err) => {
                proof {
                    assert(results@[i] == Err::<(), anyhow::Error>(err));
                }
                return Err(err);
            },
        }
        proof {
            assert forall|j: int| 0 <= j < rest@.len() implies rest@[j] == all[i + 1 + j] by {
                assert(rest@[j] == prev[j + 1]);
            }
        }
        proof {
            i = i + 1;
        }
    }
    Ok(())
}

/// The set of tasks that are stopped together.
pub struct TaskDistributor<T> {
    tasks: IdMap<TaskAddress<T>>,
}

impl<T> View for TaskDistributor<T> {
    type V = Map<Id, TaskAddress<T>>;

    closed spec fn view(&self) -> Map<Id, TaskAddress<T>> {
        self.tasks@
    }
}

impl<T> TaskDistributor<T> {
    /// Well-formedness: each task is kept under its own identifier.
    pub closed spec fn wf(&self) -> bool {
        &&& self.tasks.wf()
        &&& forall|k: Id| #[trigger] self.tasks@.contains_key(k) ==> self.tasks@[k].spec_id() == k
    }

    /// An empty set.
    pub fn new() -> (d: Self)
        ensures
            d.wf(),
            d@ == Map::<Id, TaskAddress<T>>::empty(),
    {
        TaskDistributor { tasks: IdMap::new() }
    }

    /// Inserts a task, under its identifier.
    pub fn insert(&mut self, addr: TaskAddress<T>)
        requires
            old(self).wf(),
        ensures
            final(self).wf(),
            final(self)@ == old(self)@.insert(addr.spec_id(), addr),
            final(self)@.dom().finite(),
            final(self)@.len() == old(self)@.len() + (if old(self)@.contains_key(addr.spec_id()) {
                0int
            } else {
                1int
            }),
    {
        proof {
            self.tasks.lemma_entries();
        }
        let id = addr.id().id();
        self.tasks.insert(id, addr);
        proof {
            self.tasks.lemma_entries();
        }
    }

    /// The task with the identifier `id`, if any.
    pub fn get(&self, id: &IdOf<T>) -> (r: Option<&TaskAddress<T>>)
        requires
            self.wf(),
        ensures
            match r {
                Some(a) => self@.contains_key(id.spec_id()) && *a == self@[id.spec_id()],
                None => !self@.contains_key(id.spec_id()),
            },
    {
        self.tasks.get(&id.id())
    }

    /// Removes the task with the identifier `id`.
    pub fn remove(&mut self, id: &IdOf<T>) -> (r: Option<TaskAddress<T>>)
        requires
            old(self).wf(),
        ensures
            final(self).wf(),
            final(self)@ == old(self)@.remove(id.spec_id()),
            final(self)@.dom().finite(),
            final(self)@.len() == old(self)@.len() - (if old(self)@.contains_key(id.spec_id()) {
                1int
            } else {
                0int
            }),
            match r {
                Some(a) => old(self)@.contains_key(id.spec_id()) && a == old(self)@[id.spec_id()],
                None => !old(self)@.contains_key(id.spec_id()),
            },
    {
        proof {
            self.tasks.lemma_entries();
        }
        let r = self.tasks.remove(&id.id());
        proof {
            self.tasks.lemma_entries();
        }
        r
    }

    /// The tasks in the order in which they were first added.
    pub closed spec fn order(&self) -> Seq<Id> {
        self.tasks.key_seq()
    }

    /// The order lists each task of the set exactly once.
    pub proof fn lemma_order(&self)
        requires
            self.wf(),
        ensures
            self.order().no_duplicates(),
            forall|k: Id| #[trigger] self.order().contains(k) <==> self@.contains_key(k),
    {
        self.tasks.lemma_key_seq();
    }

    /// The stop senders of every task, in the order in which the tasks were
    /// added; sending the stop signal through each stops them all. The set
    /// keeps its tasks.
    pub fn stop_all(&self) -> (stoppers: Vec<StopSender>)
        requires
            self.wf(),
        ensures
            stoppers@ == self.order().map_values(|k: Id| self@[k].spec_stop_sender()),
    {
        let mut stoppers: Vec<StopSender> = Vec::new();
        let mut i: usize = 0;
        while i < self.tasks.len()
            invariant
                self.wf(),
                i <= self.tasks.entries().len(),
                stoppers@ == self.order().take(i as int).map_values(|k: Id| self@[k].spec_stop_sender()),
            decreases self.tasks.entries().len() - i,
        {
            proof {
                self.tasks.lemma_entries();
            }
            let (id, addr) = self.tasks.entry_at(i);
            let stopper = addr.stop_sender();
            stoppers.push(stopper);
            proof {
                assert(self.order()[i as int] == *id);
                assert(self.order().take(i + 1) =~= self.order().take(i as int).push(*id));
                assert(stoppers@ =~= self.order().take(i + 1).map_values(|k: Id| self@[k].spec_stop_sender()));
            }
            i = i + 1;
        }
        proof {
            self.tasks.lemma_entries();
            assert(self.order().take(i as int) =~= self.order());
        }
        stoppers
    }

    /// Size of the set.
    pub fn len(&self) -> (n: usize)
        requires
            self.wf(),
        ensures
            n == self@.len(),
            self@.dom().finite(),
    {
        proof {
            self.tasks.lemma_entries();
        }
        self.tasks.len()
    }

    /// Is the set empty?
    pub fn is_empty(&self) -> (b: bool)
        requires
            self.wf(),
        ensures
            b == (self@.len() == 0),
    {
        self.tasks.is_empty()
    }
}

} // verus!
