use meio::channel::{Operator, Signal};
use meio::forwarders::AttachStream;
use meio::id_map::IdMap;
use meio::ids::{Id, IdOf};
use meio::linkage::{first_error, Distributor, TaskDistributor};
use meio::actor_runtime::Status;
use meio::lite_runtime::{
    alive_status, attempt_outcome, make_stop_channel, start_status, stop_status, Attempt, TaskError,
    TaskStopped,
};
use meio::system::{CtrlCStep, InterruptWaiter};
use meio::task::{beat_step, BeatStep, BeatWait};

#[test]
fn task_error_classification() {
    assert!(TaskError::Interrupted.is_interrupted());
    assert!(!TaskError::Other(anyhow::Error::msg("boom")).is_interrupted());
    assert!(TaskError::Interrupted.into_other().is_none());
    let other = TaskError::Other(anyhow::Error::msg("boom")).into_other();
    assert_eq!(other.map(|e| e.to_string()), Some("boom".to_string()));
    assert!(TaskError::from_downcast(Ok(TaskStopped)).is_interrupted());
    let e = TaskError::from_downcast(Err(anyhow::Error::msg("real")));
    assert_eq!(e.into_other().map(|e| e.to_string()), Some("real".to_string()));
}

#[test]
fn swap_moves_interruption_into_the_result() {
    assert_eq!(TaskError::swap(Ok::<u8, TaskError>(8)).unwrap(), Some(8));
    assert_eq!(TaskError::swap(Err::<u8, TaskError>(TaskError::Interrupted)).unwrap(), None);
    let err = TaskError::swap(Err::<u8, TaskError>(TaskError::Other(anyhow::Error::msg("x"))));
    assert_eq!(err.unwrap_err().to_string(), "x");
}

#[test]
fn repeatable_routine_attempts() {
    assert!(matches!(attempt_outcome(Ok(Some(3u8))), Attempt::Finished(3)));
    assert!(matches!(attempt_outcome::<u8>(Ok(None)), Attempt::Retry { succeeded: true }));
    assert!(matches!(attempt_outcome::<u8>(Err(anyhow::Error::msg("e"))), Attempt::Retry { succeeded: false }));
}

#[test]
fn stop_channel_carries_the_stop_signal() {
    let id = Id::unique();
    let (addr, rx) = make_stop_channel::<()>(id);
    assert_eq!(addr.id().id(), id);
    let copy = addr.duplicate();
    let rx2 = rx.clone();
    assert!(rx.is_alive());
    copy.stop().unwrap();
    assert!(!rx.is_alive());
    assert!(!rx2.is_alive());
}

#[test]
fn task_distributor_keeps_tasks_by_id() {
    let mut d: TaskDistributor<()> = TaskDistributor::new();
    assert!(d.is_empty());
    let (a, rx_a) = make_stop_channel::<()>(Id::unique());
    let (b, rx_b) = make_stop_channel::<()>(Id::unique());
    let a_id = a.id();
    let b_id = b.id();
    d.insert(a);
    d.insert(b);
    assert_eq!(d.len(), 2);
    assert_eq!(d.get(&a_id).map(|t| t.id().id()), Some(a_id.id()));
    let stoppers = d.stop_all();
    assert_eq!(stoppers.len(), 2);
    assert!(rx_a.is_alive());
    for s in stoppers {
        s.stop().unwrap();
    }
    assert_eq!(d.len(), 2);
    assert!(!rx_a.is_alive());
    assert!(!rx_b.is_alive());
    assert!(d.remove(&b_id).is_some());
    assert!(d.remove(&b_id).is_none());
    assert!(d.get(&b_id).is_none());
    assert_eq!(d.len(), 1);
}

#[test]
fn distributor_is_a_map_of_recipients() {
    let mut d: Distributor<&str> = Distributor::new();
    let a = Id::unique();
    let b = Id::unique();
    d.insert(a, "a");
    d.insert(b, "b");
    d.insert(a, "a2");
    assert_eq!(d.len(), 2);
    assert_eq!(d.get(&a), Some(&"a2"));
    assert_eq!(d.get(&b), Some(&"b"));
    assert_eq!(d.get(&Id::unique()), None);
    let ids = d.ids();
    assert!(ids.contains(&a) && ids.contains(&b));
    assert_eq!(d.remove(&a), Some("a2"));
    assert_eq!(d.remove(&a), None);
    assert!(!d.is_empty());
}

#[test]
fn first_error_is_reported() {
    assert!(first_error(vec![Ok(()), Ok(())]).is_ok());
    assert!(first_error(Vec::new()).is_ok());
    let r = first_error(vec![Ok(()), Err(anyhow::Error::msg("one")), Err(anyhow::Error::msg("two"))]);
    assert_eq!(r.unwrap_err().to_string(), "one");
}

#[test]
fn id_map_keeps_insertion_order() {
    let mut m: IdMap<u8> = IdMap::new();
    let a = Id::unique();
    let b = Id::unique();
    let c = Id::unique();
    assert_eq!(m.insert(a, 1), None);
    assert_eq!(m.insert(b, 2), None);
    assert_eq!(m.insert(c, 3), None);
    assert_eq!(m.insert(b, 20), Some(2));
    assert_eq!(m.keys(), vec![a, b, c]);
    assert_eq!(m.get(&b), Some(&20));
    assert_eq!(m.remove(&a), Some(1));
    assert_eq!(m.keys(), vec![b, c]);
    assert!(m.contains(&c));
    assert!(!m.contains(&a));
    assert_eq!(m.len(), 2);
    let (k, v) = m.entry_at(1);
    assert_eq!((*k, *v), (c, 3));
}

#[test]
fn ids_are_unique_and_typed_ids_wrap_them() {
    let a = Id::unique();
    let b = Id::unique();
    assert_ne!(a, b);
    assert_eq!(a.value(), a.value());
    let typed: IdOf<String> = IdOf::new(a);
    assert_eq!(typed.clone().id(), a);
}

#[test]
fn second_ctrl_c_stops_waiting() {
    let mut w = InterruptWaiter::new();
    assert_eq!(w.on_ctrl_c(), CtrlCStep::InterruptActor);
    assert_eq!(w.on_ctrl_c(), CtrlCStep::StopWaiting);
    assert_eq!(w.on_ctrl_c(), CtrlCStep::StopWaiting);
}

#[test]
fn heartbeat_wait_steps() {
    assert_eq!(beat_step(BeatWait::DurationChanged), BeatStep::Recheck);
    assert_eq!(beat_step(BeatWait::HandleGone), BeatStep::SleepThenTick);
    assert_eq!(beat_step(BeatWait::Elapsed), BeatStep::Tick);
}

#[test]
fn signals_carry_finished_children() {
    let id = Id::unique();
    assert_eq!(Signal::Finished { child: id }.into_child(), Some(id));
    assert_eq!(Signal::Shutdown.into_child(), None);
}

#[test]
fn operator_tells_the_supervisor_once() {
    let id = Id::unique();
    let mut op = Operator::new(id, Some("supervisor"));
    assert_eq!(op.finalize(), Some(("supervisor", Signal::Finished { child: id })));
    assert_eq!(op.finalize(), None);
    let mut orphan: Operator<&str> = Operator::new(id, None);
    assert_eq!(orphan.finalize(), None);
}

#[test]
fn attach_stream_keeps_stream_and_tag() {
    let a = AttachStream::new(vec![1, 2, 3], ());
    let (stream, tag) = a.into_parts();
    assert_eq!(stream, vec![1, 2, 3]);
    assert_eq!(tag, ());
}

#[test]
fn stop_signal_carries_the_stop_status() {
    assert_eq!(stop_status(), Status::Stop);
    assert_eq!(start_status(), Status::Alive);
    assert!(alive_status(Status::Alive));
    assert!(!alive_status(Status::Stop));
}

#[test]
fn ids_carry_their_value() {
    let id = Id::from_value(42);
    assert_eq!(id.value(), 42);
    assert_eq!(id, Id::from_value(42));
    assert_ne!(id, Id::from_value(43));
}

#[test]
fn task_set_length_follows_inserts_and_removals() {
    let mut d: TaskDistributor<()> = TaskDistributor::new();
    let (a, _rx) = make_stop_channel::<()>(Id::unique());
    let id = a.id();
    d.insert(a.duplicate());
    assert_eq!(d.len(), 1);
    d.insert(a.duplicate());
    assert_eq!(d.len(), 1);
    assert_eq!(d.get(&id).map(|x| x.id().id()), Some(id.id()));
    assert!(d.remove(&id).is_some());
    assert!(d.get(&id).is_none());
    assert!(d.is_empty());
}
