//! A verified core for a Milter-protocol mail filter: length-prefixed
//! framing, option negotiation, per-command decoding, session state,
//! and MIME reassembly of the accumulated headers and body.

pub mod config;
pub mod frame;
pub mod headers;
pub mod message;
pub mod milter;
pub mod milter_command;
pub mod mime;
pub mod parse;
pub mod session;
pub mod util;
