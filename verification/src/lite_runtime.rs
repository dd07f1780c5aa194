//! Lite tasks: their stop signals, addresses and errors.

use crate::actor_runtime::Status;
use crate::external::{share_stop_tx, watch_channel, watch_current, watch_send};
use crate::ids::{Id, IdOf};
use std::sync::Arc;
use vstd::prelude::*;

verus! {

/// Custom tag attached to a lite task's runtime.
pub trait Tag: Send + 'static {}

impl Tag for () {}

/// The marker of a task that was interrupted by its stop signal.
#[derive(Debug, Clone, Copy)]
pub struct TaskStopped;

/// Sends the stop signal to a task.
#[derive(Debug)]
pub struct StopSender {
    tx: Arc<tokio::sync::watch::Sender<Status>>,
}

impl Clone for StopSender {
    /// Another sender of the same stop channel.
    fn clone(&self) -> (r: Self)
        ensures
            r == *self,
    {
        StopSender { tx: share_stop_tx(&self.tx) }
    }
}

impl StopSender {
    /// Sends the stop signal to the task. It fails when the task's side of
    /// the channel is gone.
    pub fn stop(&self) -> (r: Result<(), anyhow::Error>) {
        watch_send(&self.tx, stop_status())
    }
}

/// The status that a stop signal carries: `Status::Stop`.
pub fn stop_status() -> (s: Status)
    ensures
        s == Status::Stop,
{
    Status::Stop
}

/// The status that a stop channel starts with: `Status::Alive`.
pub fn start_status() -> (s: Status)
    ensures
        s == Status::Alive,
{
    Status::Alive
}

/// Does the status mean that the task may go on? Only `Status::Alive` does.
pub fn alive_status(status: Status) -> (b: bool)
    ensures
        b == (status == Status::Alive),
{
    status == Status::Alive
}

/// Receives the status of a task.
#[derive(Debug, Clone)]
pub struct StopReceiver {
    status: tokio::sync::watch::Receiver<Status>,
}

impl StopReceiver {
    /// Returns `true` while no stop signal was received: the current status
    /// is `Status::Alive`.
    pub fn is_alive(&self) -> (b: bool) {
        alive_status(watch_current(&self.status))
    }

    /// The status channel that the receiver watches.
    pub closed spec fn spec_watch(&self) -> tokio::sync::watch::Receiver<Status> {
        self.status
    }

    /// The underlying status channel, for awaiting the stop signal.
    pub fn into_watch(self) -> (w: tokio::sync::watch::Receiver<Status>)
        ensures
            w == self.spec_watch(),
    {
        self.status
    }
}

/// Address of a spawned task, used to stop it.
#[derive(Debug)]
pub struct TaskAddress<T> {
    id: IdOf<T>,
    stop_sender: StopSender,
}

impl<T> TaskAddress<T> {
    /// The task's typed identifier.
    pub closed spec fn spec_id(&self) -> Id {
        self.id.spec_id()
    }

    /// Id of the task.
    pub fn id(&self) -> (id: IdOf<T>)
        ensures
            id.spec_id() == self.spec_id(),
    {
        self.id.clone()
    }

    /// Sends the stop signal to the task.
    pub fn stop(&self) -> (r: Result<(), anyhow::Error>) {
        self.stop_sender.stop()
    }

    /// A copy of the address (same task, same stop channel).
    pub fn duplicate(&self) -> (a: Self)
        ensures
            a.spec_id() == self.spec_id(),
            a.spec_stop_sender() == self.spec_stop_sender(),
    {
        TaskAddress { id: self.id.clone(), stop_sender: self.stop_sender.clone() }
    }

    /// The sender of the task's stop signal.
    pub closed spec fn spec_stop_sender(&self) -> StopSender {
        self.stop_sender
    }

    /// Another sender of the task's stop signal.
    pub fn stop_sender(&self) -> (s: StopSender)
        ensures
            s == self.spec_stop_sender(),
    {
        self.stop_sender.clone()
    }

    /// The stop sender of the task.
    pub fn into_stop_sender(self) -> (s: StopSender)
        ensures
            s == self.spec_stop_sender(),
    {
        self.stop_sender
    }
}

/// Creates the stop channel of the task `id`: its address and the receiver
/// that the task watches. The channel starts with `Status::Alive`.
pub fn make_stop_channel<T>(id: Id) -> (r: (TaskAddress<T>, StopReceiver))
    ensures
        r.0.spec_id() == id,
{
    let (tx, rx) = watch_channel(start_status());
    let stop_sender = StopSender { tx: Arc::new(tx) };
    let address = TaskAddress { id: IdOf::new(id), stop_sender };
    let receiver = StopReceiver { status: rx };
    (address, receiver)
}

/// An error that can happen in a task.
#[derive(Debug)]
pub enum TaskError {
    /// The task was interrupted.
    Interrupted,
    /// The task failed with another error.
    Other(anyhow::Error),
}

impl TaskError {
    /// Returns `true` if the task was interrupted.
    pub fn is_interrupted(&self) -> (b: bool)
        ensures
            b == (*self is Interrupted),
    {
        match self {
            TaskError::Interrupted => true,
            TaskError::Other(_) => false,
        }
    }

    /// The other error, if the task was not interrupted.
    pub fn into_other(self) -> (r: Option<anyhow::Error>)
        ensures
            match self {
                TaskError::Interrupted => r is None,
                TaskError::Other(err) => r == Some(err),
            },
    {
        match self {
            TaskError::Interrupted => None,
            TaskError::Other(err) => Some(err),
        }
    }

    /// Moves the interruption from the error into the result: a value gives
    /// `Ok(Some(value))`, an interruption `Ok(None)`, another error `Err`.
    pub fn swap<T>(result: Result<T, Self>) -> (r: Result<Option<T>, anyhow::Error>)
        ensures
            match result {
                Ok(value) => r == Ok::<Option<T>, anyhow::Error>(Some(value)),
                Err(TaskError::Interrupted) => r == Ok::<Option<T>, anyhow::Error>(None),
                Err(TaskError::Other(err)) => r == Err::<Option<T>, anyhow::Error>(err),
            },
    {
        match result {
            Ok(value) => Ok(Some(value)),
            Err(TaskError::Interrupted) => Ok(None),
            Err(TaskError::Other(err)) => Err(err),
        }
    }

    /// Classifies the error of a task from the attempt to recognize it as the
    /// stop marker: a recognized `TaskStopped` means the task was interrupted,
    /// any other error is kept.
    pub fn from_downcast(downcast: Result<TaskStopped, anyhow::Error>) -> (e: TaskError)
        ensures
            match downcast {
                Ok(_) => e is Interrupted,
                Err(err) => e == TaskError::Other(err),
            },
    {
        match downcast {
            Ok(_stopped) => TaskError::Interrupted,
            Err(other) => TaskError::Other(other),
        }
    }
}

/// What an attempt of a repeatable routine leads to.
pub enum Attempt<O> {
    /// The routine produced its output: the task finishes with it.
    Finished(O),
    /// The routine has to be repeated after a wait; `succeeded` tells whether
    /// the attempt went without an error.
    Retry { succeeded: bool },
}

/// Decides the next step of a repeatable routine from the result of one
/// attempt: `Ok(Some(output))` finishes, `Ok(None)` retries after a
/// successful attempt, an error retries after a failed one.
pub fn attempt_outcome<O>(result: Result<Option<O>, anyhow::Error>) -> (a: Attempt<O>)
    ensures
        match result {
            Ok(Some(output)) => a == Attempt::Finished(output),
            Ok(None) => a == Attempt::<O>::Retry { succeeded: true },
            Err(_) => a == Attempt::<O>::Retry { succeeded: false },
        },
{
    match result {
        Ok(Some(output)) => Attempt::Finished(output),
        Ok(None) => Attempt::Retry { succeeded: true },
        Err(_) => Attempt::Retry { succeeded: false },
    }
}

} // verus!
