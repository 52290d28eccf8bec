//! A verified request/response correlation and dispatch core for a
//! JSON-RPC-over-stdio protocol server, in the style of the Language Server
//! Protocol: byte-level message framing, a JSON-RPC message model with an
//! encoder and decoder proved to round-trip, a request correlator, the
//! initialize/shutdown lifecycle state machine, and a dispatcher with a
//! handler registry.

pub mod correlator;
pub mod dispatch;
pub mod frame;
pub mod json;
pub mod lifecycle;
pub mod message;
pub mod protocol;
pub mod server;
