//! Peer-to-peer core of a blockchain node: the membership view, the registry
//! of outbound peer handles, the connection life cycle, propagation with
//! connect-on-demand, the command dispatcher and the cold-start failover.
//!
//! Every decision is taken here, on plain values; sockets, timers and task
//! spawning belong to the caller, which performs the requests this crate
//! hands out and reports back what happened.
pub mod types;
pub mod message;
pub mod peers;
pub mod topology;
pub mod connection;
pub mod state;
pub mod propagate;
pub mod service;
pub mod bootstrap;
pub mod startup;
