//! The transcoder-specific pieces: argument building, lenient telemetry
//! parsing, and the event-driven per-group merger.

pub mod command;
pub mod merger;
pub mod parser;
