//! WebSocket sessions, clients and HTTP routing decisions.

pub mod client;
pub mod route;
pub mod talker;
