//! `meio` core: the decision logic of a lightweight actor framework.
//!
//! The crate holds what an actor runtime decides: how supervised children are
//! grouped and terminated stage by stage, when an actor may stop, how the
//! event loops of actors, tasks and WebSocket sessions react to each event,
//! and how requests are matched to routes. Channels, timers and sockets are
//! driven by the caller, which hands each event to these state machines and
//! performs the actions they return.

pub mod external;
pub mod ids;
pub mod id_map;
pub mod lifecycle;
pub mod actor_runtime;
pub mod lite_runtime;
pub mod terminator;
pub mod connect;
pub mod handlers;
pub mod http;
pub mod linkage;
pub mod channel;
pub mod extra;
pub mod forwarders;
pub mod interrupter;
pub mod signal;
pub mod system;
pub mod task;
pub mod tasks;
