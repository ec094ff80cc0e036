//! File transfers: what is accepted, how it is put together again, and where it
//! goes.
pub mod names;
pub mod sanitize;
pub mod send;
pub mod storage;
pub mod transfer;
