//! The relay hub: subscriptions, offline queues, the key-package directory,
//! rate limits and gossip between hubs.
pub mod config;
pub mod gossip;
pub mod handler;
pub mod journal;
pub mod laws;
pub mod rate_limit;
pub mod state;
pub mod store;
