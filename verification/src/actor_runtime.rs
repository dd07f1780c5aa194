//! The state of an actor's runtime and the decisions of its event loop.

use crate::id_map::IdMap;
use crate::ids::Id;
use crate::lifecycle::{
    all_finished, distinct_groups, group_interrupted, inserted, joins_terminating,
    law_start_without_children_finishes, notify_all, notify_each, removed, started,
    LifecycleError, LifecycleNotifier, LifetimeTracker, Notice, TrackerView,
};
use crate::lite_runtime::StopSender;
use vstd::prelude::*;

verus! {

/// Status of a task or an actor.
#[derive(Debug, Clone, Copy, PartialEq, Eq, Structural, PartialOrd, Ord, Hash)]
pub enum Status {
    /// Alive and working.
    Alive,
    /// Finished.
    Stop,
}

impl Status {
    /// Is it finished?
    pub fn is_done(&self) -> (b: bool)
        ensures
            b == (*self == Status::Stop),
    {
        *self == Status::Stop
    }
}

/// Declares the sequence in which groups of children are terminated.
pub trait TerminationSequence: Sized {
    /// The termination sequence.
    fn termination_sequence() -> Vec<Self>;
}

impl TerminationSequence for () {
    fn termination_sequence() -> (v: Vec<Self>)
        ensures
            v@ == seq![()],
    {
        vec![()]
    }
}

/// The abstract state of a `Context`.
pub struct ContextView<M> {
    /// The event loop keeps running.
    pub alive: bool,
    /// The supervised children.
    pub tracker: TrackerView,
    /// The notifiers that interrupt the children, by child.
    pub notifiers: Map<Id, LifecycleNotifier<M>>,
}

/// The lifecycle state of a running actor: whether its loop runs on, and the
/// children it supervises with the notifiers that interrupt them. `M` is the
/// message that interrupts a child actor; the caller delivers it.
pub struct Context<M> {
    alive: bool,
    tracker: LifetimeTracker,
    notifiers: IdMap<LifecycleNotifier<M>>,
}

impl<M> View for Context<M> {
    type V = ContextView<M>;

    closed spec fn view(&self) -> ContextView<M> {
        ContextView { alive: self.alive, tracker: self.tracker@, notifiers: self.notifiers@ }
    }
}

impl<M> Context<M> {
    /// Well-formedness of the context.
    pub closed spec fn wf(&self) -> bool {
        self.tracker.wf() && self.notifiers.wf()
    }

    /// A context of a starting actor: alive, with no children.
    pub fn new() -> (c: Self)
        ensures
            c.wf(),
            c@.alive,
            !c@.tracker.terminating,
            c@.tracker.prioritized.len() == 0,
            c@.tracker.stages.len() == 0,
            c@.tracker.records == Map::<Id, u64>::empty(),
            c@.notifiers == Map::<Id, LifecycleNotifier<M>>::empty(),
    {
        Context { alive: true, tracker: LifetimeTracker::new(), notifiers: IdMap::new() }
    }

    /// Does the event loop go on?
    pub fn is_alive(&self) -> (b: bool)
        ensures
            b == self@.alive,
    {
        self.alive
    }

    /// Stops the event loop after the current message. The termination
    /// sequence is not started: children are left as they are.
    pub fn stop(&mut self)
        ensures
            final(self)@ == (ContextView { alive: false, ..old(self)@ }),
            final(self).wf() == old(self).wf(),
    {
        self.alive = false;
    }

    /// Is the graceful termination in progress?
    pub fn is_terminating(&self) -> (b: bool)
        ensures
            b == self@.tracker.terminating,
    {
        self.tracker.is_terminating()
    }

    /// Fails with `LifecycleError::Terminating` when the actor is
    /// terminating; useful for checks in handlers.
    pub fn not_terminating(&self) -> (r: Result<(), LifecycleError>)
        ensures
            r == (if self@.tracker.terminating {
                Err::<(), LifecycleError>(LifecycleError::Terminating)
            } else {
                Ok::<(), LifecycleError>(())
            }),
    {
        if self.is_terminating() {
            Err(LifecycleError::Terminating)
        } else {
            Ok(())
        }
    }

    /// Sets the sequence in which groups of children are terminated.
    pub fn termination_sequence(&mut self, sequence: Vec<u64>)
        requires
            old(self).wf(),
        ensures
            final(self).wf(),
            final(self)@ == (ContextView {
                tracker: TrackerView { prioritized: sequence@, ..old(self)@.tracker },
                ..old(self)@
            }),
    {
        self.tracker.prioritize_termination_by(sequence);
    }

    /// Starts the graceful termination: interrupts the first groups of the
    /// termination sequence and stops the loop at once when nothing is left
    /// to wait for. Returns the interruption messages to deliver and the stop
    /// signals to send.
    pub fn shutdown(&mut self) -> (msgs: Vec<Notice<M>>)
        requires
            old(self).wf(),
        ensures
            final(self).wf(),
            ({
                let (t2, ids) = started(old(self)@.tracker);
                let (n2, ms) = notify_all(old(self)@.notifiers, ids);
                &&& final(self)@.tracker == t2
                &&& final(self)@.notifiers == n2
                &&& msgs@ == ms
                &&& final(self)@.alive == (old(self)@.alive && !all_finished(t2.stages))
            }),
    {
        let ids = self.tracker.start_termination();
        let msgs = notify_each(&mut self.notifiers, &ids);
        if self.tracker.is_finished() {
            self.alive = false;
        }
        msgs
    }

    /// Interrupts the children of one group (if that group is not terminating
    /// yet). Returns the interruption messages to deliver and the stop
    /// signals to send.
    pub fn terminate_group(&mut self, group: u64) -> (msgs: Vec<Notice<M>>)
        requires
            old(self).wf(),
        ensures
            final(self).wf(),
            ({
                let (t2, ids) = group_interrupted(old(self)@.tracker, group);
                let (n2, ms) = notify_all(old(self)@.notifiers, ids);
                &&& final(self)@.tracker == t2
                &&& final(self)@.notifiers == n2
                &&& msgs@ == ms
                &&& final(self)@.alive == old(self)@.alive
            }),
    {
        let ids = self.tracker.terminate_group(group);
        notify_each(&mut self.notifiers, &ids)
    }

    /// Supervises a spawned child actor `id` in `group`; `interrupt` is the
    /// message that interrupts it. When the group is already terminating the
    /// child is interrupted at once: the message is returned for delivery.
    pub fn insert_actor(&mut self, id: Id, group: u64, interrupt: M) -> (msgs: Vec<Notice<M>>)
        requires
            old(self).wf(),
        ensures
            final(self).wf(),
            final(self)@.alive == old(self)@.alive,
            final(self)@.tracker == inserted(old(self)@.tracker, id, group),
            joins_terminating(old(self)@.tracker, group) ==> final(self)@.notifiers == old(
                self,
            )@.notifiers.insert(id, LifecycleNotifier::Once(None)) && msgs@ == seq![Notice::Deliver(interrupt)],
            !joins_terminating(old(self)@.tracker, group) ==> final(self)@.notifiers == old(
                self,
            )@.notifiers.insert(id, LifecycleNotifier::Once(Some(interrupt))) && msgs@.len() == 0,
    {
        let now = self.tracker.insert(id, group);
        self.notifiers.insert(id, LifecycleNotifier::once(interrupt));
        if now {
            let ids = vec![id];
            let msgs = notify_each(&mut self.notifiers, &ids);
            proof {
                let t = old(self)@.notifiers.insert(id, LifecycleNotifier::Once(Some(interrupt)));
                assert(ids@.drop_last() =~= Seq::<Id>::empty());
                assert(notify_all(t, ids@.drop_last()) == (t, Seq::<Notice<M>>::empty()));
                assert(Seq::<Notice<M>>::empty().push(Notice::Deliver(interrupt)) =~= seq![Notice::Deliver(interrupt)]);
                assert(t.insert(id, LifecycleNotifier::Once(None)) =~= old(self)@.notifiers.insert(
                    id,
                    LifecycleNotifier::Once(None),
                ));
            }
            msgs
        } else {
            Vec::new()
        }
    }

    /// Supervises a spawned task `id` in `group`, stopped through `stopper`.
    /// When the group is already terminating the task is stopped at once: its
    /// stop signal is returned, to send.
    pub fn insert_task(&mut self, id: Id, group: u64, stopper: StopSender) -> (msgs: Vec<Notice<M>>)
        requires
            old(self).wf(),
        ensures
            final(self).wf(),
            final(self)@.alive == old(self)@.alive,
            final(self)@.tracker == inserted(old(self)@.tracker, id, group),
            final(self)@.notifiers == old(self)@.notifiers.insert(id, LifecycleNotifier::Stop(stopper)),
            joins_terminating(old(self)@.tracker, group) ==> msgs@ == seq![Notice::<M>::Stop(stopper)],
            !joins_terminating(old(self)@.tracker, group) ==> msgs@.len() == 0,
    {
        let now = self.tracker.insert(id, group);
        self.notifiers.insert(id, LifecycleNotifier::stop(stopper));
        if now {
            let ids = vec![id];
            let msgs = notify_each(&mut self.notifiers, &ids);
            proof {
                let t = old(self)@.notifiers.insert(id, LifecycleNotifier::<M>::Stop(stopper));
                assert(ids@.drop_last() =~= Seq::<Id>::empty());
                assert(notify_all(t, ids@.drop_last()) == (t, Seq::<Notice<M>>::empty()));
                assert(Seq::<Notice<M>>::empty().push(Notice::Stop(stopper)) =~= seq![Notice::<M>::Stop(stopper)]);
            }
            msgs
        } else {
            Vec::new()
        }
    }

    /// A supervised child `id` finished: it is forgotten, the termination
    /// goes on when in progress, and the loop stops when every stage is
    /// finished. Returns the interruption messages to deliver and the stop
    /// signals to send.
    pub fn child_done(&mut self, id: &Id) -> (msgs: Vec<Notice<M>>)
        requires
            old(self).wf(),
        ensures
            final(self).wf(),
            ({
                let (t2, ids) = removed(old(self)@.tracker, *id);
                let (n2, ms) = notify_all(old(self)@.notifiers.remove(*id), ids);
                &&& final(self)@.tracker == t2
                &&& final(self)@.notifiers == n2
                &&& msgs@ == ms
                &&& final(self)@.alive == (old(self)@.alive && !all_finished(t2.stages))
            }),
    {
        let ids = self.tracker.remove(id);
        self.notifiers.remove(id);
        let msgs = notify_each(&mut self.notifiers, &ids);
        if self.tracker.is_finished() {
            self.alive = false;
        }
        msgs
    }
}

/// The operation attached to a high-priority parcel.
pub enum Operation {
    /// A supervised child finished; the parcel carries the supervisor's handler.
    Done {
        /// The child.
        id: Id,
    },
    /// Just handle the parcel with high priority.
    Forward,
    /// Handle the parcel at the deadline.
    Schedule {
        /// When to handle it.
        deadline: std::time::Instant,
    },
}

/// What the event loop of an actor received.
pub enum RoutineEvent {
    /// A high-priority parcel with its operation.
    Parcel(Operation),
    /// Every sender of the high-priority queue is gone.
    HighPriorityDrained,
    /// The deadline of a scheduled envelope has come.
    ScheduledExpired,
    /// The queue of scheduled envelopes reported an error.
    ScheduledFailed,
    /// The queue of scheduled envelopes ended.
    ScheduledClosed,
    /// An ordinary envelope.
    Envelope,
    /// Every sender of the ordinary queue is gone.
    NormalDrained,
}

/// What the event loop does with an event.
pub enum RoutineStep {
    /// Call the handler of the envelope that came with the event.
    Handle,
    /// Put the envelope into the queue of scheduled envelopes.
    ScheduleAt(std::time::Instant),
    /// Call the actor's hook for a drained high-priority queue.
    InstantQueueDrained,
    /// Call the actor's hook for a drained ordinary queue.
    QueueDrained,
    /// Report the failure of the scheduled queue; nothing else.
    ReportSchedulingFailure,
}

/// The reaction of the event loop to an event: the interruption messages to
/// deliver first, then the step.
pub struct RoutineAction<M> {
    /// Interruption messages for children and stop signals for tasks, to
    /// carry out in order.
    pub deliver: Vec<Notice<M>>,
    /// The step to take.
    pub step: RoutineStep,
}

/// The step that an event leads to.
pub open spec fn step_for(event: RoutineEvent) -> RoutineStep {
    match event {
        RoutineEvent::Parcel(Operation::Schedule { deadline }) => RoutineStep::ScheduleAt(deadline),
        RoutineEvent::Parcel(_) => RoutineStep::Handle,
        RoutineEvent::HighPriorityDrained => RoutineStep::InstantQueueDrained,
        RoutineEvent::ScheduledExpired => RoutineStep::Handle,
        RoutineEvent::ScheduledFailed => RoutineStep::ReportSchedulingFailure,
        RoutineEvent::ScheduledClosed => RoutineStep::InstantQueueDrained,
        RoutineEvent::Envelope => RoutineStep::Handle,
        RoutineEvent::NormalDrained => RoutineStep::QueueDrained,
    }
}

/// Decides what the event loop of an actor does with one event. A finished
/// child (`Operation::Done`) is forgotten first, which may move the
/// termination on (its interruption messages are returned) and stop the
/// loop; every other event leaves the context as it is.
pub fn routine_step<M>(ctx: &mut Context<M>, event: RoutineEvent) -> (action: RoutineAction<M>)
    requires
        old(ctx).wf(),
    ensures
        final(ctx).wf(),
        action.step == step_for(event),
        match event {
            RoutineEvent::Parcel(Operation::Done { id }) => {
                let (t2, ids) = removed(old(ctx)@.tracker, id);
                let (n2, ms) = notify_all(old(ctx)@.notifiers.remove(id), ids);
                &&& final(ctx)@.tracker == t2
                &&& final(ctx)@.notifiers == n2
                &&& action.deliver@ == ms
                &&& final(ctx)@.alive == (old(ctx)@.alive && !all_finished(t2.stages))
            },
            _ => *final(ctx) == *old(ctx) && action.deliver@.len() == 0,
        },
{
    match event {
        RoutineEvent::Parcel(Operation::Done { id }) => {
            let deliver = ctx.child_done(&id);
            RoutineAction { deliver, step: RoutineStep::Handle }
        },
        RoutineEvent::Parcel(Operation::Forward) => RoutineAction { deliver: Vec::new(), step: RoutineStep::Handle },
        RoutineEvent::Parcel(Operation::Schedule { deadline }) => RoutineAction {
            deliver: Vec::new(),
            step: RoutineStep::ScheduleAt(deadline),
        },
        RoutineEvent::HighPriorityDrained => RoutineAction {
            deliver: Vec::new(),
            step: RoutineStep::InstantQueueDrained,
        },
        RoutineEvent::ScheduledExpired => RoutineAction { deliver: Vec::new(), step: RoutineStep::Handle },
        RoutineEvent::ScheduledFailed => RoutineAction {
            deliver: Vec::new(),
            step: RoutineStep::ReportSchedulingFailure,
        },
        RoutineEvent::ScheduledClosed => RoutineAction {
            deliver: Vec::new(),
            step: RoutineStep::InstantQueueDrained,
        },
        RoutineEvent::Envelope => RoutineAction { deliver: Vec::new(), step: RoutineStep::Handle },
        RoutineEvent::NormalDrained => RoutineAction { deliver: Vec::new(), step: RoutineStep::QueueDrained },
    }
}

/// A queue of an actor.
#[derive(Debug, Clone, Copy, PartialEq, Eq, Structural)]
pub enum Queue {
    /// Instant actions and lifecycle messages.
    HighPriority,
    /// Envelopes whose deadline has come.
    Scheduled,
    /// Ordinary actions.
    Normal,
}

/// The order in which the event loop polls the queues of an actor; the first
/// queue that has something is served. The high-priority queue comes first
/// and the ordinary queue last, so an instant action that is waiting is
/// always handled before any ordinary one. The scheduled envelopes are polled
/// only while there are any: an empty queue of them would end its stream.
pub fn queue_order(scheduled: usize) -> (order: Vec<Queue>)
    ensures
        order@ == (if scheduled > 0 {
            seq![Queue::HighPriority, Queue::Scheduled, Queue::Normal]
        } else {
            seq![Queue::HighPriority, Queue::Normal]
        }),
{
    let mut order = Vec::new();
    order.push(Queue::HighPriority);
    if scheduled > 0 {
        order.push(Queue::Scheduled);
    }
    order.push(Queue::Normal);
    order
}

/// The phase of an actor's runtime.
#[derive(Debug, Clone, Copy, PartialEq, Eq, Structural)]
pub enum Phase {
    /// Spawned; the awake handler has not completed yet.
    Starting,
    /// The event loop runs.
    Running,
    /// The loop is over; the supervisor is not notified yet.
    Finishing,
    /// The supervisor was notified.
    Finished,
}

/// The lifecycle of an actor's runtime from spawning to the final
/// notification of its supervisor. `D` is the message that tells the
/// supervisor that the actor is done.
pub struct ActorRuntime<D> {
    phase: Phase,
    done_notifier: LifecycleNotifier<D>,
}

impl<D> ActorRuntime<D> {
    /// The phase.
    pub closed spec fn phase(&self) -> Phase {
        self.phase
    }

    /// The notifier of the supervisor.
    pub closed spec fn done_notifier(&self) -> LifecycleNotifier<D> {
        self.done_notifier
    }

    /// A runtime of a spawned actor. An actor with a supervisor notifies it
    /// once, with `done`, when it finishes; an actor without one notifies
    /// nobody.
    pub fn new(supervisor_done: Option<D>) -> (r: Self)
        ensures
            r.phase() == Phase::Starting,
            match supervisor_done {
                Some(done) => r.done_notifier() == LifecycleNotifier::Once(Some(done)),
                None => r.done_notifier() is Ignore,
            },
    {
        let done_notifier = match supervisor_done {
            None => LifecycleNotifier::ignore(),
            Some(done) => LifecycleNotifier::once(done),
        };
        ActorRuntime { phase: Phase::Starting, done_notifier }
    }

    /// The awake handler completed: the loop runs when it succeeded;
    /// otherwise the actor finishes at once.
    pub fn awake_finished(&mut self, succeeded: bool)
        requires
            old(self).phase() == Phase::Starting,
        ensures
            final(self).phase() == (if succeeded { Phase::Running } else { Phase::Finishing }),
            final(self).done_notifier() == old(self).done_notifier(),
    {
        self.phase = if succeeded { Phase::Running } else { Phase::Finishing };
    }

    /// The event loop is over.
    pub fn routine_finished(&mut self)
        requires
            old(self).phase() == Phase::Running,
        ensures
            final(self).phase() == Phase::Finishing,
            final(self).done_notifier() == old(self).done_notifier(),
    {
        self.phase = Phase::Finishing;
    }

    /// Finishes the actor: returns the message that tells the supervisor
    /// that the actor is done, if there is a supervisor.
    pub fn finish(&mut self) -> (done: Option<D>)
        requires
            old(self).phase() == Phase::Finishing,
        ensures
            final(self).phase() == Phase::Finished,
            match old(self).done_notifier() {
                LifecycleNotifier::Once(Some(d)) => done == Some(d)
                    && final(self).done_notifier() == LifecycleNotifier::<D>::Once(None),
                _ => done is None && final(self).done_notifier() == old(self).done_notifier(),
            },
    {
        self.phase = Phase::Finished;
        match self.done_notifier.notify() {
            Ok(Some(Notice::Deliver(done))) => Some(done),
            _ => None,
        }
    }
}

/// **Law (graceful shutdown of an idle actor).** An actor whose stages have
/// no children left stops as soon as its shutdown starts: the shutdown leaves
/// every stage finished, so the loop is no longer alive.
pub proof fn law_shutdown_without_children_stops<M>(v: ContextView<M>)
    requires
        distinct_groups(v.tracker.stages),
        forall|k: int| 0 <= k < v.tracker.stages.len() ==> (#[trigger] v.tracker.stages[k]).ids.len() == 0,
    ensures
        ({
            let (t2, _ids) = started(v.tracker);
            all_finished(t2.stages) && !(v.alive && !all_finished(t2.stages))
        }),
{
    law_start_without_children_finishes(v.tracker);
}

/// The context of a well-formed tracker keeps its stage groups distinct.
pub proof fn lemma_context_groups_distinct<M>(c: &Context<M>)
    requires
        c.wf(),
    ensures
        distinct_groups(c@.tracker.stages),
{
    c.tracker.lemma_distinct_groups();
}

} // verus!
