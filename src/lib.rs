//! A client for Riemann's length-prefixed protocol buffer protocol: the
//! message model, its wire encoding, the framing of each request and
//! response, the interpretation of a response's status, the defaults an
//! event is sent with, the ordering of query results, and the TLS setup
//! read from PEM text.
//!
//! The sockets themselves stay with the caller: this crate builds the bytes
//! to write and reads the bytes that came back.
use vstd::prelude::*;

pub mod client;
pub mod codec;
pub mod error;
pub mod proto;
pub mod tls;
pub mod transport;
pub mod wire;

verus! {

} // verus!
