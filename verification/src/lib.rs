//! Fleet command execution engine.
//!
//! Given a list of resolved targets, the library builds one immutable command
//! specification per target, classifies what the transport layer observed for
//! each target into a terminal outcome, restores input ordering over the
//! outcomes, renders the aggregate report as human-readable rows or as a JSON
//! document with a verified round-trip parser, and derives the process exit
//! disposition from the report and the operator's strictness flag.
//!
//! The process and I/O edges (spawning the transport, reading the terminal,
//! writing the report) live outside the library; everything here is pure
//! computation with a contract.

pub mod aggregate;
pub mod command;
pub mod console;
pub mod dispatch;
pub mod exit_policy;
pub mod json;
pub mod numeral;
pub mod outcome;
pub mod progress;
pub mod render;
pub mod text;
