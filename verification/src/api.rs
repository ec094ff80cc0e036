//! Requests of local clients: what is checked, what is planned, and what is
//! answered. The calls in between (the vault, the group state, sealing) are made
//! elsewhere; their results come in as arguments.
pub mod contact;
pub mod error;
pub mod fanout;
pub mod files;
pub mod flow;
pub mod invite;
pub mod messages;
pub mod request;
pub mod rooms;
