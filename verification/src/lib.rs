//! The core of a chat agent that monitors a small fleet of hosts for an
//! authenticated operator: the host registry, the verdict on reachability
//! probes, the report of an on-demand scan, the supervisor of the one periodic
//! monitoring task, and the conversation state machine that guards access.
//!
//! The library decides and computes; it does no input or output. Whoever
//! embeds it receives the messages, runs the probes, reads and writes the
//! files, and hands the library plain values.

pub mod config;
pub mod dialogue;
pub mod probe;
pub mod registry;
pub mod reply;
pub mod scan;
pub mod supervisor;
pub mod text;
