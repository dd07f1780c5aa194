//! Declarations of the outside types the library carries and the few
//! outside calls it makes.

use crate::actor_runtime::Status;
use std::sync::Arc;
use vstd::prelude::*;

verus! {

/// `anyhow::Error`: the error type that task results and stop signals carry.
#[verifier::external_type_specification]
#[verifier::external_body]
pub struct ExAnyhowError(anyhow::Error);

/// `std::time::Instant`: a point in time, carried as the deadline of a
/// scheduled event and the moment of a heartbeat tick.
#[verifier::external_type_specification]
#[verifier::external_body]
pub struct ExInstant(std::time::Instant);

/// `tokio::sync::watch::Sender`: the sending half of the channel that
/// carries a task's status.
#[verifier::external_type_specification]
#[verifier::external_body]
#[verifier::reject_recursive_types(T)]
pub struct ExWatchSender<T>(tokio::sync::watch::Sender<T>);

/// `tokio::sync::watch::Receiver`: the receiving half of that channel.
#[verifier::external_type_specification]
#[verifier::external_body]
#[verifier::reject_recursive_types(T)]
pub struct ExWatchReceiver<T>(tokio::sync::watch::Receiver<T>);

/// `Clone` of `tokio::sync::watch::Receiver`: another receiver of the same
/// channel. Nothing is claimed of it: the receiver is opaque.
pub assume_specification<T>[ <tokio::sync::watch::Receiver<T> as Clone>::clone ](
    this: &tokio::sync::watch::Receiver<T>,
) -> tokio::sync::watch::Receiver<T>;

/// Calls `tokio::sync::watch::channel(init)`: a new channel whose current
/// value is `init`. Nothing is claimed of the halves: they are opaque.
#[verifier::external_body]
pub(crate) fn watch_channel(
    init: Status,
) -> (tokio::sync::watch::Sender<Status>, tokio::sync::watch::Receiver<Status>) {
    tokio::sync::watch::channel(init)
}

/// Calls `tokio::sync::watch::Sender::send(value)` and converts its
/// `SendError` into `anyhow::Error`. Whether it fails depends on whether any
/// receiver is still alive, so nothing is claimed of the result.
#[verifier::external_body]
pub(crate) fn watch_send(
    tx: &tokio::sync::watch::Sender<Status>,
    value: Status,
) -> Result<(), anyhow::Error> {
    tx.send(value).map_err(anyhow::Error::from)
}

/// Calls `tokio::sync::watch::Receiver::borrow` and copies the current
/// value out. The value depends on what other holders of the channel sent,
/// so nothing is claimed of it.
#[verifier::external_body]
pub(crate) fn watch_current(rx: &tokio::sync::watch::Receiver<Status>) -> Status {
    *rx.borrow()
}

/// Calls `Arc::clone` on the sending half of a stop channel. The clone is
/// another pointer to the same sender, so it equals the original (an `Arc`
/// is equal to another exactly when the values they point to are).
#[verifier::external_body]
pub(crate) fn share_stop_tx(
    tx: &Arc<tokio::sync::watch::Sender<Status>>,
) -> (r: Arc<tokio::sync::watch::Sender<Status>>)
    ensures
        r == *tx,
{
    tx.clone()
}

/// The `Sec-WebSocket-Accept` value that RFC 6455 derives from a
/// `Sec-WebSocket-Key` (the base64 of the SHA-1 of the key followed by the
/// protocol's GUID).
pub uninterp spec fn websocket_accept_key(key: Seq<u8>) -> Seq<char>;

/// Calls `tungstenite::handshake::derive_accept_key(key)`. The result is
/// claimed to be the accept value of the key, a function of the key alone.
#[verifier::external_body]
pub(crate) fn derive_accept_key(key: &[u8]) -> (accept: String)
    ensures
        accept@ == websocket_accept_key(key@),
{
    tungstenite::handshake::derive_accept_key(key)
}

/// Calls `uuid::Uuid::new_v4` and returns the 128-bit value of the fresh
/// random UUID (`Uuid::as_u128`). Nothing is claimed of the value: it is
/// random.
#[verifier::external_body]
pub(crate) fn random_uuid_value() -> u128 {
    uuid::Uuid::new_v4().as_u128()
}

} // verus!
