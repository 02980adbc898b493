//! Core logic of a message broker for a small robotics contest.
//!
//! A fleet of bots and a set of human-operated clients connect to a central
//! broker over TCP. The broker routes single-character commands from clients
//! to bots by name match, disseminates referee commands to all bots, fans out
//! bot log lines to all clients, and evicts dead peers when a write to them
//! fails. This crate holds the broker's decision logic: the command codec,
//! the name validator, the peer registry, and the per-action routing rules,
//! each with a verified contract. Socket I/O stays outside; callers perform
//! the writes this crate plans and feed the outcomes back.

pub mod broker;
pub mod bytes;
pub mod clock;
pub mod codec;
pub mod config;
pub mod ids;
pub mod laws;
pub mod lines;
pub mod names;
pub mod protocol;
pub mod registry;
