//! A replicated key-value store built on the Raft consensus algorithm.
//!
//! The consensus logic (`raft_core`) is written as a state machine: every
//! handler takes the node's state and one event, changes the state and
//! reports the outside work it asks for as a list of [`raft_core::Effect`]s.
//! The storage engines (`kv_store`, `store`, `client`) keep their contents in
//! memory and describe the log lines they persist, and `raft` is the small
//! single-process node used by the demo server.
pub mod api;
mod chance;
mod clock;
pub mod client;
pub mod command;
pub mod kv_map;
pub mod kv_store;
pub mod log_line;
pub mod raft;
pub mod raft_core;
pub mod store;
