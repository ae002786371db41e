//! Inspect JSON-speaking peers: recover discrete JSON messages from chunked
//! byte streams, canonicalize each message, and multiplex the recovery across
//! many live connections.
//!
//! The verified core is the incremental message-boundary detector
//! ([`jsonreader::JsonSplitter`]), the single-message canonicalizer
//! ([`json::JsonFormatter`]), and the peer multiplexing engine
//! ([`adapters::hub::Hub`]). Transport I/O and terminal rendering live in the
//! binary built around this library; they hand plain values in and take plain
//! values back.

pub mod adapters;
pub mod chars;
pub mod json;
pub mod jsonreader;
pub mod mocks;
pub mod parser;
pub mod text;
pub mod ui;
