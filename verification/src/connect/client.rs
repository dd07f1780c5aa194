//! Decisions of a reconnecting WebSocket client.

use vstd::prelude::*;

verus! {

/// The reason of failing of a WebSocket connection.
#[derive(Debug, Clone, Copy, PartialEq, Eq, Structural)]
pub enum WsFailReason {
    /// The connection was closed by the server.
    ClosedByServer,
    /// The connection failed.
    ConnectionFailed,
    /// The server is not available.
    ServerNotAvailable,
}

impl WsFailReason {
    /// The text of the reason.
    pub open spec fn text(self) -> Seq<char> {
        match self {
            WsFailReason::ClosedByServer => "closed by server"@,
            WsFailReason::ConnectionFailed => "connection failed"@,
            WsFailReason::ServerNotAvailable => "server not available"@,
        }
    }

    /// Describes the reason.
    pub fn to_string(&self) -> (s: String)
        ensures
            s@ == self.text(),
    {
        match self {
            WsFailReason::ClosedByServer => String::from_str("closed by server"),
            WsFailReason::ConnectionFailed => String::from_str("connection failed"),
            WsFailReason::ServerNotAvailable => String::from_str("server not available"),
        }
    }
}

/// How one connection attempt ended.
#[derive(Debug, Clone, Copy, PartialEq, Eq, Structural)]
pub enum AttemptEnd {
    /// The server could not be reached.
    Unreachable,
    /// The session was interrupted by the stop signal.
    Interrupted,
    /// The session ended because the server closed the connection.
    Closed,
    /// The session failed with an error.
    Failed,
}

/// The verdict on an attempt: `None` when the client stops for good
/// (interrupted by its user), else the reason of the failure to report.
pub fn attempt_verdict(end: AttemptEnd) -> (r: Option<WsFailReason>)
    ensures
        r == (match end {
            AttemptEnd::Unreachable => Some(WsFailReason::ServerNotAvailable),
            AttemptEnd::Interrupted => None,
            AttemptEnd::Closed => Some(WsFailReason::ClosedByServer),
            AttemptEnd::Failed => Some(WsFailReason::ConnectionFailed),
        }),
{
    match end {
        AttemptEnd::Unreachable => Some(WsFailReason::ServerNotAvailable),
        AttemptEnd::Interrupted => None,
        AttemptEnd::Closed => Some(WsFailReason::ClosedByServer),
        AttemptEnd::Failed => Some(WsFailReason::ConnectionFailed),
    }
}

/// What the client does after a failed attempt.
#[derive(Debug, Clone, Copy, PartialEq, Eq, Structural)]
pub enum RetryPlan {
    /// No reconnection was asked for: stop with the error.
    GiveUp,
    /// Wait `wait_nanos` nanoseconds, then connect again.
    Retry {
        /// The time to wait, in nanoseconds.
        wait_nanos: u64,
    },
}

/// Plans the next attempt: without a repeat interval the client gives up;
/// with one it waits what is left of the interval since the last success
/// (nothing when the interval has passed).
pub fn retry_plan(repeat_interval_nanos: Option<u64>, elapsed_nanos: u64) -> (p: RetryPlan)
    ensures
        p == (match repeat_interval_nanos {
            None => RetryPlan::GiveUp,
            Some(interval) => RetryPlan::Retry {
                wait_nanos: if elapsed_nanos < interval {
                    (interval - elapsed_nanos) as u64
                } else {
                    0
                },
            },
        }),
{
    match repeat_interval_nanos {
        None => RetryPlan::GiveUp,
        Some(interval) => {
            let wait_nanos = if elapsed_nanos < interval {
                interval - elapsed_nanos
            } else {
                0
            };
            RetryPlan::Retry { wait_nanos }
        },
    }
}

} // verus!
