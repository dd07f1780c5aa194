use meio::actor_runtime::{
    queue_order, routine_step, ActorRuntime, Context, Operation, Queue, RoutineEvent, RoutineStep, Status,
};
use meio::ids::Id;
use meio::id_map::IdMap;
use meio::lifecycle::{notify_each, LifecycleError, LifecycleNotifier, LifetimeTracker, Notice};
use meio::lite_runtime::make_stop_channel;

/// The messages among the notices, in order; stop signals are passed over.
fn messages<M>(notices: Vec<Notice<M>>) -> Vec<M> {
    notices
        .into_iter()
        .filter_map(|n| match n {
            Notice::Deliver(m) => Some(m),
            Notice::Stop(_) => None,
        })
        .collect()
}

/// Sends the stop signals among the notices; returns how many there were.
fn send_stops<M>(notices: Vec<Notice<M>>) -> usize {
    let mut sent = 0;
    for n in notices {
        if let Notice::Stop(s) = n {
            s.stop().unwrap();
            sent += 1;
        }
    }
    sent
}

#[test]
fn tracker_without_children_is_finished_only_in_the_vacuous_sense() {
    let t = LifetimeTracker::new();
    assert!(!t.is_terminating());
    assert!(t.is_finished());
    assert_eq!(t.stage_sequence(), Vec::<u64>::new());
}

#[test]
fn stage_sequence_puts_prioritized_groups_first() {
    let mut t = LifetimeTracker::new();
    t.insert(Id::unique(), 5);
    t.insert(Id::unique(), 7);
    t.insert(Id::unique(), 9);
    assert_eq!(t.stage_sequence(), vec![5, 7, 9]);
    t.prioritize_termination_by(vec![9, 3]);
    assert_eq!(t.stage_sequence(), vec![9, 3, 5, 7]);
}

#[test]
fn termination_goes_group_by_group() {
    let mut t = LifetimeTracker::new();
    let a1 = Id::unique();
    let a2 = Id::unique();
    let b1 = Id::unique();
    assert!(!t.insert(a1, 1));
    assert!(!t.insert(a2, 1));
    assert!(!t.insert(b1, 2));
    t.prioritize_termination_by(vec![2, 1]);
    // Group 2 first: only its child is interrupted.
    let first = t.start_termination();
    assert_eq!(first, vec![b1]);
    assert!(t.is_terminating());
    assert!(!t.is_finished());
    // Group 1 still runs: removing one of its children interrupts nobody.
    // When group 2 finishes, group 1 is interrupted.
    let next = t.remove(&b1);
    assert_eq!(next, vec![a1, a2]);
    assert!(t.remove(&a1).is_empty());
    assert!(!t.is_finished());
    assert!(t.remove(&a2).is_empty());
    assert!(t.is_finished());
}

#[test]
fn child_joining_a_terminating_group_is_interrupted_at_once() {
    let mut t = LifetimeTracker::new();
    let a = Id::unique();
    t.insert(a, 4);
    assert_eq!(t.start_termination(), vec![a]);
    let late = Id::unique();
    assert!(t.insert(late, 4));
    // A new group is created not terminating.
    let other = Id::unique();
    assert!(!t.insert(other, 8));
}

#[test]
fn removing_an_unknown_child_changes_nothing() {
    let mut t = LifetimeTracker::new();
    let a = Id::unique();
    t.insert(a, 1);
    assert!(t.remove(&Id::unique()).is_empty());
    assert!(!t.is_finished());
    assert!(!t.is_terminating());
}

#[test]
fn terminate_group_interrupts_one_group_once() {
    let mut t = LifetimeTracker::new();
    let a = Id::unique();
    let b = Id::unique();
    t.insert(a, 1);
    t.insert(b, 2);
    assert_eq!(t.terminate_group(2), vec![b]);
    assert!(t.terminate_group(2).is_empty());
    assert!(t.terminate_group(3).is_empty());
    assert!(!t.is_terminating());
}

#[test]
fn empty_stages_are_passed_during_termination() {
    let mut t = LifetimeTracker::new();
    let a = Id::unique();
    let b = Id::unique();
    t.insert(a, 1);
    t.insert(b, 2);
    t.remove(&a);
    // Group 1 is empty: the walk passes it and interrupts group 2.
    assert_eq!(t.start_termination(), vec![b]);
    assert!(!t.is_finished());
    t.remove(&b);
    assert!(t.is_finished());
}

#[test]
fn once_notifier_hands_out_its_message_once() {
    let mut n = LifecycleNotifier::once(42u8);
    assert!(matches!(n.notify(), Ok(Some(Notice::Deliver(42)))));
    assert!(matches!(n.notify(), Err(LifecycleError::SecondNotification)));
    assert!(n.notify().is_err());
    assert_eq!(
        LifecycleError::SecondNotification.to_string(),
        "Attempt to send the second notification that can be sent once only."
    );
}

#[test]
fn ignoring_notifier_does_nothing() {
    let mut n: LifecycleNotifier<u8> = LifecycleNotifier::ignore();
    assert!(matches!(n.notify(), Ok(None)));
    assert!(matches!(n.notify(), Ok(None)));
}

#[test]
fn stopping_notifier_hands_out_the_stop_sender() {
    let (addr, rx) = make_stop_channel::<()>(Id::unique());
    let mut n: LifecycleNotifier<u8> = LifecycleNotifier::stop(addr.into_stop_sender());
    assert!(rx.is_alive());
    match n.notify() {
        Ok(Some(Notice::Stop(s))) => s.stop().unwrap(),
        _ => panic!("a stopping notifier hands out its stop sender"),
    }
    assert!(!rx.is_alive());
    assert!(matches!(n.notify(), Ok(Some(Notice::Stop(_)))));
}

#[test]
fn stop_signal_fails_when_the_task_is_gone() {
    let (addr, rx) = make_stop_channel::<()>(Id::unique());
    drop(rx);
    let mut n: LifecycleNotifier<u8> = LifecycleNotifier::stop(addr.into_stop_sender());
    match n.notify() {
        Ok(Some(Notice::Stop(s))) => assert!(s.stop().is_err()),
        _ => panic!("a stopping notifier hands out its stop sender"),
    }
}

#[test]
fn shutdown_without_children_stops_the_loop() {
    let mut ctx: Context<&'static str> = Context::new();
    assert!(ctx.is_alive());
    assert!(ctx.not_terminating().is_ok());
    let msgs = ctx.shutdown();
    assert!(msgs.is_empty());
    assert!(ctx.is_terminating());
    assert_eq!(ctx.not_terminating(), Err(LifecycleError::Terminating));
    assert_eq!(LifecycleError::Terminating.to_string(), "Actor is terminating...");
    assert!(!ctx.is_alive());
}

#[test]
fn shutdown_interrupts_children_and_waits_for_them() {
    let mut ctx: Context<&'static str> = Context::new();
    let a = Id::unique();
    let b = Id::unique();
    assert!(ctx.insert_actor(a, 0, "interrupt a").is_empty());
    assert!(ctx.insert_actor(b, 1, "interrupt b").is_empty());
    ctx.termination_sequence(vec![1, 0]);
    assert_eq!(messages(ctx.shutdown()), vec!["interrupt b"]);
    assert!(ctx.is_alive());
    assert_eq!(messages(ctx.child_done(&b)), vec!["interrupt a"]);
    assert!(ctx.is_alive());
    assert!(ctx.child_done(&a).is_empty());
    assert!(!ctx.is_alive());
}

#[test]
fn child_spawned_during_shutdown_gets_interrupted_at_once() {
    let mut ctx: Context<u32> = Context::new();
    let a = Id::unique();
    ctx.insert_actor(a, 0, 1);
    assert_eq!(messages(ctx.shutdown()), vec![1]);
    assert_eq!(messages(ctx.insert_actor(Id::unique(), 0, 2)), vec![2]);
}

#[test]
fn task_child_is_stopped_during_shutdown() {
    let mut ctx: Context<u32> = Context::new();
    let id = Id::unique();
    let (addr, rx) = make_stop_channel::<()>(id);
    assert!(ctx.insert_task(id, 0, addr.into_stop_sender()).is_empty());
    assert!(rx.is_alive());
    assert_eq!(send_stops(ctx.shutdown()), 1);
    assert!(!rx.is_alive());
    assert!(ctx.is_alive());
    ctx.child_done(&id);
    assert!(!ctx.is_alive());
}

#[test]
fn task_joining_a_terminating_group_is_stopped_at_once() {
    let mut ctx: Context<u32> = Context::new();
    ctx.insert_actor(Id::unique(), 0, 1);
    assert_eq!(messages(ctx.shutdown()), vec![1]);
    let id = Id::unique();
    let (addr, rx) = make_stop_channel::<()>(id);
    assert_eq!(send_stops(ctx.insert_task(id, 0, addr.into_stop_sender())), 1);
    assert!(!rx.is_alive());
}

#[test]
fn terminate_group_of_context_interrupts_that_group() {
    let mut ctx: Context<u32> = Context::new();
    ctx.insert_actor(Id::unique(), 3, 30);
    ctx.insert_actor(Id::unique(), 4, 40);
    assert_eq!(messages(ctx.terminate_group(4)), vec![40]);
    assert!(ctx.terminate_group(4).is_empty());
    assert!(!ctx.is_terminating());
}

#[test]
fn stop_ends_the_loop_without_termination() {
    let mut ctx: Context<u32> = Context::new();
    ctx.stop();
    assert!(!ctx.is_alive());
    assert!(!ctx.is_terminating());
}

#[test]
fn routine_steps_follow_the_events() {
    let mut ctx: Context<u32> = Context::new();
    let a = Id::unique();
    ctx.insert_actor(a, 0, 7);
    let act = routine_step(&mut ctx, RoutineEvent::Envelope);
    assert!(matches!(act.step, RoutineStep::Handle));
    assert!(act.deliver.is_empty());
    let act = routine_step(&mut ctx, RoutineEvent::Parcel(Operation::Forward));
    assert!(matches!(act.step, RoutineStep::Handle));
    let when = std::time::Instant::now();
    let act = routine_step(&mut ctx, RoutineEvent::Parcel(Operation::Schedule { deadline: when }));
    assert!(matches!(act.step, RoutineStep::ScheduleAt(d) if d == when));
    assert!(matches!(routine_step(&mut ctx, RoutineEvent::HighPriorityDrained).step, RoutineStep::InstantQueueDrained));
    assert!(matches!(routine_step(&mut ctx, RoutineEvent::ScheduledClosed).step, RoutineStep::InstantQueueDrained));
    assert!(matches!(routine_step(&mut ctx, RoutineEvent::ScheduledFailed).step, RoutineStep::ReportSchedulingFailure));
    assert!(matches!(routine_step(&mut ctx, RoutineEvent::ScheduledExpired).step, RoutineStep::Handle));
    assert!(matches!(routine_step(&mut ctx, RoutineEvent::NormalDrained).step, RoutineStep::QueueDrained));
    assert!(ctx.is_alive());
    // The termination has started: the child's end stops the loop.
    assert_eq!(messages(ctx.shutdown()), vec![7]);
    let act = routine_step(&mut ctx, RoutineEvent::Parcel(Operation::Done { id: a }));
    assert!(matches!(act.step, RoutineStep::Handle));
    assert!(!ctx.is_alive());
}

#[test]
fn supervisor_is_told_once() {
    let mut rt = ActorRuntime::new(Some("done"));
    rt.awake_finished(true);
    rt.routine_finished();
    assert_eq!(rt.finish(), Some("done"));
    let mut standalone: ActorRuntime<&str> = ActorRuntime::new(None);
    standalone.awake_finished(false);
    assert_eq!(standalone.finish(), None);
}

#[test]
fn status_is_done_only_when_stopped() {
    assert!(Status::Stop.is_done());
    assert!(!Status::Alive.is_done());
}

#[test]
fn instant_queue_is_polled_before_the_others() {
    assert_eq!(queue_order(0), vec![Queue::HighPriority, Queue::Normal]);
    assert_eq!(queue_order(2), vec![Queue::HighPriority, Queue::Scheduled, Queue::Normal]);
}

#[test]
fn a_child_is_interrupted_once() {
    let a = Id::unique();
    let b = Id::unique();
    let mut table: IdMap<LifecycleNotifier<&str>> = IdMap::new();
    table.insert(a, LifecycleNotifier::once("a"));
    table.insert(b, LifecycleNotifier::ignore());
    let ids = vec![a, b, a];
    assert_eq!(messages(notify_each(&mut table, &ids)), vec!["a"]);
    assert!(notify_each(&mut table, &ids).is_empty());
}
