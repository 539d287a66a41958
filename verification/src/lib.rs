//! Core of an RTSP 1.0 server: the framed message codec, the request
//! handler, the session and source state machines, and the registries
//! that tie them together. The asynchronous plumbing around this crate
//! feeds it plain values and carries its outputs to the network.

use vstd::prelude::*;

verus! {

pub mod codec;
pub mod connection;
pub mod entropy;
pub mod handler;
pub mod session;
pub mod source;
pub mod transport;
pub mod message;
pub mod octets;

} // verus!
