//! Instruction-trace collection and query service for emulated virtual CPUs.
//!
//! A producer streams per-instruction events for each virtual CPU ("vCPU")
//! into a daemon; clients query the daemon for the last executed instruction
//! addresses of a vCPU, poll its lifecycle status and instruction count, or
//! open a continuously streaming address feed.
//!
//! This crate is the daemon's verified core: the two wire codecs, the
//! per-vCPU trace log, the central state manager that arbitrates lifecycle
//! transitions and answers queries, and the streamer logic. Socket and file
//! I/O live outside the library and drive it with plain values.

pub mod client;
pub mod query;
pub mod state;
pub mod stream;
pub mod trace;
pub mod wire;
