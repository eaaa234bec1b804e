//! Selective blocking and liveness monitoring of grouped network endpoints.
//!
//! The crate models a small coordination engine: a catalog of named server
//! groups, a firewall authority that can block or unblock single addresses,
//! a probe worker that round-robins liveness probes over a duplicate-free
//! worklist, a status worker that classifies each group's aggregate block
//! state, and a reconciler that keeps an in-memory view of both consistent
//! by exchanging asynchronous messages with the workers.

pub mod addr;
pub mod app;
pub mod firewall;
pub mod logger;
pub mod matcher;
pub mod ping;
pub mod pinger_worker;
pub mod status_worker;
pub mod steam_server;
pub mod worklist;
