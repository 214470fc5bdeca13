//! Client-side control plane for driving a long-lived agent process over a
//! single duplex byte stream.
//!
//! The crate multiplexes one newline-delimited JSON stream into three
//! independent interaction kinds: ordinary content messages, correlated
//! request/response control calls, and externally dispatched callback
//! invocations. The frame codec, the framing state machine and the control
//! protocol orchestrator live here, each with a verified contract; process
//! spawning and the actual byte I/O are left to the embedding program.

pub mod codec;
pub mod config;
pub mod error;
pub mod hooks;
pub mod json;
pub mod mcp;
pub mod message;
pub mod permission;
pub mod message_parser;
pub mod query;
pub mod text;
pub mod transport;
