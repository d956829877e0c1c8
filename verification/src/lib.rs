//! Client-side engine for a document database's binary wire protocol.
//!
//! The crate holds the protocol logic alone: the query-tree data model and
//! its serialization to the wire's nested-array JSON encoding, the JSON
//! text codec used on the wire, the handshake state machine with its
//! challenge-response authentication, and the length/token framing of
//! queries and responses.  All byte-level conformance is stated in the
//! contracts; the socket I/O that carries those bytes lives outside.

use vstd::prelude::*;

pub mod auth;
pub mod connection;
pub mod error;
pub mod handshake;
pub mod json;
pub mod parse;
pub mod roundtrip;
pub mod tree;

verus! {

/// Entry point for building queries against the default database handle.
pub struct DB {}

/// Returns a fresh default database handle.
pub fn db() -> (r: Result<DB, crate::error::Error>)
    ensures
        r is Ok,
{
    Ok(DB {})
}

} // verus!
