//! The session of a WebSocket connection: relays incoming messages to an
//! actor and outgoing messages to the peer, until both directions are over.

use crate::handlers::Action;
use vstd::prelude::*;

verus! {

/// Incoming message of the chosen protocol, delivered to the actor.
#[derive(Debug)]
pub struct WsIncoming<T>(pub T);

impl<T: Send + 'static> Action for WsIncoming<T> {}

/// The reason of a session's end.
#[derive(Debug, Clone, Copy, PartialEq, Eq, Structural)]
pub enum TermReason {
    /// The session was interrupted.
    Interrupted,
    /// The connection was closed (properly).
    Closed,
}

impl TermReason {
    /// Was the session interrupted?
    pub fn is_interrupted(&self) -> (b: bool)
        ensures
            b == (*self == TermReason::Interrupted),
    {
        *self == TermReason::Interrupted
    }
}

/// The kind of an incoming WebSocket message, as the session treats it.
#[derive(Debug, Clone, Copy, PartialEq, Eq, Structural)]
pub enum MessageKind {
    /// A text or binary message: decoded and forwarded to the actor.
    Data,
    /// A ping or a pong: ignored.
    Control,
    /// The closing handshake: no more outgoing messages are taken.
    Close,
    /// Anything else: reported and ignored.
    Other,
}

/// Classifies a message from its predicates; data comes first, then control
/// frames, then the close frame.
pub fn classify(is_text: bool, is_binary: bool, is_ping: bool, is_pong: bool, is_close: bool) -> (k: MessageKind)
    ensures
        k == (if is_text || is_binary {
            MessageKind::Data
        } else if is_ping || is_pong {
            MessageKind::Control
        } else if is_close {
            MessageKind::Close
        } else {
            MessageKind::Other
        }),
{
    if is_text || is_binary {
        MessageKind::Data
    } else if is_ping || is_pong {
        MessageKind::Control
    } else if is_close {
        MessageKind::Close
    } else {
        MessageKind::Other
    }
}

/// What the session received.
#[derive(Debug, Clone, Copy, PartialEq, Eq, Structural)]
pub enum TalkerEvent {
    /// The stop signal of the task.
    Stopped,
    /// A message from the peer.
    Incoming(MessageKind),
    /// Reading from the connection failed.
    ConnectionFailed,
    /// The connection ended: no more incoming messages.
    ConnectionEnded,
    /// An outgoing message from the actor's side.
    Outgoing,
    /// The channel of outgoing messages ended.
    OutgoingEnded,
}

/// What the session does with an event.
#[derive(Debug, Clone, Copy, PartialEq, Eq, Structural)]
pub enum TalkerStep {
    /// Close the channel of outgoing messages (it drains, then ends).
    CloseOutgoing,
    /// Decode the incoming message and forward it to the actor.
    Forward,
    /// Nothing to do.
    Skip,
    /// Report an unhandled message.
    ReportUnhandled,
    /// Encode the outgoing message and send it to the peer.
    Send,
    /// Send the close notification to the peer.
    CloseConnection,
    /// End the session with the error.
    Fail,
}

/// The reaction to an event: a step, and the end of the session when both
/// directions are over.
#[derive(Debug, Clone, Copy, PartialEq, Eq, Structural)]
pub struct TalkerAction {
    /// The step to take.
    pub step: TalkerStep,
    /// `Some(reason)` when the session ends after the step.
    pub finish: Option<TermReason>,
}

/// The abstract state of a session.
pub struct TalkerView {
    /// The outgoing channel ended.
    pub rx_drained: bool,
    /// The connection ended.
    pub connection_drained: bool,
    /// The stop signal was received.
    pub interrupted: bool,
}

/// The reason a session with state `v` ends with.
pub open spec fn reason_of(v: TalkerView) -> TermReason {
    if v.interrupted {
        TermReason::Interrupted
    } else {
        TermReason::Closed
    }
}

/// The state of a WebSocket session.
pub struct Talker {
    rx_drained: bool,
    connection_drained: bool,
    interrupted: bool,
}

impl View for Talker {
    type V = TalkerView;

    closed spec fn view(&self) -> TalkerView {
        TalkerView {
            rx_drained: self.rx_drained,
            connection_drained: self.connection_drained,
            interrupted: self.interrupted,
        }
    }
}

impl Talker {
    /// A new session: both directions open, not interrupted.
    pub fn new() -> (t: Self)
        ensures
            t@ == (TalkerView { rx_drained: false, connection_drained: false, interrupted: false }),
    {
        Talker { rx_drained: false, connection_drained: false, interrupted: false }
    }

    /// Are both directions over?
    pub fn is_done(&self) -> (b: bool)
        ensures
            b == (self@.rx_drained && self@.connection_drained),
    {
        self.rx_drained && self.connection_drained
    }

    /// The reason the session ends with: `Interrupted` when a stop signal
    /// was received, `Closed` otherwise.
    pub fn term_reason(&self) -> (r: TermReason)
        ensures
            r == reason_of(self@),
    {
        if self.interrupted {
            TermReason::Interrupted
        } else {
            TermReason::Closed
        }
    }

    /// Decides the reaction to an event. The session ends (`finish` is
    /// `Some`) exactly when the event completes the second direction.
    pub fn on_event(&mut self, event: TalkerEvent) -> (a: TalkerAction)
        ensures
            final(self)@ == (match event {
                TalkerEvent::Stopped => TalkerView { interrupted: true, ..old(self)@ },
                TalkerEvent::ConnectionEnded => TalkerView { connection_drained: true, ..old(self)@ },
                TalkerEvent::OutgoingEnded => TalkerView { rx_drained: true, ..old(self)@ },
                _ => old(self)@,
            }),
            a.step == (match event {
                TalkerEvent::Stopped => TalkerStep::CloseOutgoing,
                TalkerEvent::Incoming(MessageKind::Data) => TalkerStep::Forward,
                TalkerEvent::Incoming(MessageKind::Control) => TalkerStep::Skip,
                TalkerEvent::Incoming(MessageKind::Close) => TalkerStep::CloseOutgoing,
                TalkerEvent::Incoming(MessageKind::Other) => TalkerStep::ReportUnhandled,
                TalkerEvent::ConnectionFailed => TalkerStep::Fail,
                TalkerEvent::ConnectionEnded => TalkerStep::Skip,
                TalkerEvent::Outgoing => TalkerStep::Send,
                TalkerEvent::OutgoingEnded => TalkerStep::CloseConnection,
            }),
            a.finish == (if (event == TalkerEvent::ConnectionEnded || event == TalkerEvent::OutgoingEnded)
                && final(self)@.rx_drained && final(self)@.connection_drained {
                Some(reason_of(final(self)@))
            } else {
                None
            }),
    {
        let step = match event {
            TalkerEvent::Stopped => {
                self.interrupted = true;
                TalkerStep::CloseOutgoing
            },
            TalkerEvent::Incoming(kind) => match kind {
                MessageKind::Data => TalkerStep::Forward,
                MessageKind::Control => TalkerStep::Skip,
                MessageKind::Close => TalkerStep::CloseOutgoing,
                MessageKind::Other => TalkerStep::ReportUnhandled,
            },
            TalkerEvent::ConnectionFailed => TalkerStep::Fail,
            TalkerEvent::ConnectionEnded => {
                self.connection_drained = true;
                TalkerStep::Skip
            },
            TalkerEvent::Outgoing => TalkerStep::Send,
            TalkerEvent::OutgoingEnded => {
                self.rx_drained = true;
                TalkerStep::CloseConnection
            },
        };
        let ends = match event {
            TalkerEvent::ConnectionEnded => true,
            TalkerEvent::OutgoingEnded => true,
            _ => false,
        };
        let finish = if ends && self.is_done() {
            Some(self.term_reason())
        } else {
            None
        };
        TalkerAction { step, finish }
    }
}

/// The session state after a sequence of events.
pub open spec fn talker_after(v: TalkerView, events: Seq<TalkerEvent>) -> TalkerView
    decreases events.len(),
{
    if events.len() == 0 {
        v
    } else {
        let prev = talker_after(v, events.drop_last());
        match events.last() {
            TalkerEvent::Stopped => TalkerView { interrupted: true, ..prev },
            TalkerEvent::ConnectionEnded => TalkerView { connection_drained: true, ..prev },
            TalkerEvent::OutgoingEnded => TalkerView { rx_drained: true, ..prev },
            _ => prev,
        }
    }
}

/// **Law (session outcome).** A session that started fresh has both
/// directions over exactly when both end events occurred, and ends as
/// interrupted exactly when a stop signal occurred.
pub proof fn law_talker_outcome(events: Seq<TalkerEvent>)
    ensures
        ({
            let v = talker_after(
                TalkerView { rx_drained: false, connection_drained: false, interrupted: false },
                events,
            );
            &&& v.interrupted == events.contains(TalkerEvent::Stopped)
            &&& v.rx_drained == events.contains(TalkerEvent::OutgoingEnded)
            &&& v.connection_drained == events.contains(TalkerEvent::ConnectionEnded)
            &&& (reason_of(v) == TermReason::Interrupted) == events.contains(TalkerEvent::Stopped)
        }),
    decreases events.len(),
{
    if events.len() > 0 {
        let init = TalkerView { rx_drained: false, connection_drained: false, interrupted: false };
        let front = events.drop_last();
        law_talker_outcome(front);
        assert(events =~= front.push(events.last()));
        assert forall|e: TalkerEvent| #[trigger] events.contains(e) <==> (front.contains(e) || e == events.last()) by {
            if events.contains(e) {
                let i = choose|i: int| 0 <= i < events.len() && events[i] == e;
                if i < front.len() {
                    assert(front[i] == e);
                }
            }
            if front.contains(e) {
                let i = choose|i: int| 0 <= i < front.len() && front[i] == e;
                assert(events[i] == e);
            }
            if e == events.last() {
                assert(events[events.len() - 1] == e);
            }
        }
    }
}

} // verus!
