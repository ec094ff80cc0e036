//! Decision logic of the Onyx messenger daemon and its relay hub.
#![allow(unused_imports)]

pub mod api;
pub mod bytes;
pub mod channel;
pub mod clock;
pub mod codec;
pub mod conversations;
pub mod daemon;
pub mod files;
pub mod host_port;
pub mod hub;
pub mod hub_client;
pub mod list_map;
pub mod pending;
pub mod peer_groups;
pub mod replay_guard;
pub mod reporter;
pub mod room;
pub mod roster;
pub mod session;
pub mod text;
