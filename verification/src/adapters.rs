//! Transport-facing pieces: the message record handed to the display layer,
//! the capability trait the poll loop drives, the peer multiplexing engine,
//! and a self-contained test adapter.

pub mod common;
pub mod hub;
pub mod test;
