//! A log-line processing library: parsers for logfmt, JSON-Lines and
//! syslog-style input, a normalized event model, level and key filtering,
//! and logfmt-style and JSON-Lines output formatting.

pub mod event;
pub mod formatters;
pub mod jsonl;
pub mod laws;
pub mod logfmt;
pub mod parsers;
pub mod pipeline;
pub mod stats;
pub mod syslog;
pub mod text;
pub mod time;
pub mod value;
