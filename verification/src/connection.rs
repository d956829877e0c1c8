//! The per-session protocol state and the framing of queries.
//!
//! A connection owns a monotonic query-token counter: the k-th query of
//! a session takes token `k mod 2^64`.  A query frame is the token as
//! eight little-endian bytes, the payload length as four little-endian
//! bytes, and the payload itself; a payload whose length does not fit
//! the four-byte field is rejected before any frame byte exists.

use vstd::prelude::*;
use vstd::bytes::{
    spec_u32_from_le_bytes,
    spec_u32_to_le_bytes,
    spec_u64_from_le_bytes,
    spec_u64_to_le_bytes,
    u32_from_le_bytes,
    u32_to_le_bytes,
    u64_from_le_bytes,
    u64_to_le_bytes,
};
use vstd::slice::slice_subrange;
use vstd::string::StringExecFns;
use vstd::utf8::{valid_utf8, encode_utf8};
use crate::auth::bytes_to_str;
use crate::error::Error;
use crate::json::{Json, spec_encode, encode_json};
use crate::parse::{spec_parse_json, parse_json};
use crate::tree::{Tree, spec_tree_to_json};

verus! {

/// The number of distinct query tokens: the token counter wraps at the
/// 64-bit boundary.
pub const TOKEN_SPAN: u64 = 0xffff_ffff_ffff_ffff;

/// The largest payload length the four-byte length field can carry.
pub const MAX_PAYLOAD: u32 = 0xffff_ffff;

/// The bytes of one query frame: token, payload length, payload.
pub open spec fn spec_query_frame(token: u64, payload: Seq<u8>) -> Seq<u8>
    recommends
        payload.len() <= MAX_PAYLOAD,
{
    spec_u64_to_le_bytes(token) + spec_u32_to_le_bytes(payload.len() as u32) + payload
}

/// One session's protocol state.  The socket that carries the bytes is
/// owned by the caller; this value decides what the bytes are.
pub struct Connection {
    host: String,
    port: u16,
    user: String,
    password: String,
    query_token: u64,
    sent: Ghost<nat>,
}

impl Connection {
    /// The server endpoint's host name.
    pub closed spec fn spec_host(&self) -> Seq<char> {
        self.host@
    }

    /// The server endpoint's port.
    pub closed spec fn spec_port(&self) -> u16 {
        self.port
    }

    /// The identity this session authenticates as.
    pub closed spec fn spec_user(&self) -> Seq<char> {
        self.user@
    }

    /// The credential secret of this session.
    pub closed spec fn spec_password(&self) -> Seq<char> {
        self.password@
    }

    /// How many queries this session has framed so far.
    pub closed spec fn spec_sent(&self) -> nat {
        self.sent@
    }

    /// The token the next query will take.
    pub closed spec fn spec_token(&self) -> u64 {
        self.query_token
    }

    /// Session invariant: the token counter is the number of framed
    /// queries, reduced modulo the 64-bit boundary.
    pub open spec fn wf(&self) -> bool {
        self.spec_token() as nat == self.spec_sent() % (TOKEN_SPAN as nat + 1)
    }

    /// A fresh, not yet authenticated session state: token counter at 0,
    /// no query framed yet.
    pub fn new(host: String, port: u16, user: String, password: String) -> (c: Connection)
        ensures
            c.wf(),
            c.spec_sent() == 0,
            c.spec_token() == 0,
            c.spec_host() == host@,
            c.spec_port() == port,
            c.spec_user() == user@,
            c.spec_password() == password@,
    {
        proof {
            vstd::arithmetic::div_mod::lemma_small_mod(0nat, TOKEN_SPAN as nat + 1);
        }
        Connection { host, port, user, password, query_token: 0, sent: Ghost(0nat) }
    }

    /// Frames one query: serializes the tree, rejects a payload that the
    /// length field cannot carry before any frame byte is produced, and
    /// otherwise takes the next token.  The token counter advances in
    /// either case, exactly as one query was consumed.
    pub fn send_query(&mut self, tree: &Tree) -> (r: Result<Vec<u8>, Error>)
        requires
            old(self).wf(),
        ensures
            final(self).wf(),
            final(self).spec_sent() == old(self).spec_sent() + 1,
            final(self).spec_token() as nat == (old(self).spec_token() as nat + 1) % (
            TOKEN_SPAN as nat + 1),
            final(self).spec_host() == old(self).spec_host(),
            final(self).spec_port() == old(self).spec_port(),
            final(self).spec_user() == old(self).spec_user(),
            final(self).spec_password() == old(self).spec_password(),
            ({
                let payload = spec_encode(spec_tree_to_json(tree@));
                if payload.len() <= MAX_PAYLOAD {
                    &&& r is Ok
                    &&& r->Ok_0@ == spec_query_frame(old(self).spec_token(), payload)
                } else {
                    &&& r is Err
                    &&& r->Err_0 == Error::QueryTooLarge(payload.len() as usize)
                }
            }),
    {
        let token = self.query_token;
        self.query_token = if token == TOKEN_SPAN {
            0
        } else {
            token + 1
        };
        proof {
            let w = TOKEN_SPAN as nat + 1;
            if token == TOKEN_SPAN {
                assert((old(self).spec_sent() + 1) % w == 0) by {
                    vstd::arithmetic::div_mod::lemma_add_mod_noop(
                        old(self).spec_sent() as int,
                        1,
                        w as int,
                    );
                    vstd::arithmetic::div_mod::lemma_small_mod(1nat, w);
                    vstd::arithmetic::div_mod::lemma_small_mod(0nat, w);
                }
            } else {
                assert((old(self).spec_sent() + 1) % w == token as nat + 1) by {
                    vstd::arithmetic::div_mod::lemma_add_mod_noop(
                        old(self).spec_sent() as int,
                        1,
                        w as int,
                    );
                    vstd::arithmetic::div_mod::lemma_small_mod(1nat, w);
                    vstd::arithmetic::div_mod::lemma_small_mod(token as nat + 1, w);
                }
            }
        }
        self.sent = Ghost(self.sent@ + 1);
        let json = tree.to_json();
        let payload = encode_json(&json);
        if payload.len() > MAX_PAYLOAD as usize {
            return Err(Error::QueryTooLarge(payload.len()));
        }
        let mut frame = u64_to_le_bytes(token);
        let mut len_bytes = u32_to_le_bytes(payload.len() as u32);
        frame.append(&mut len_bytes);
        let mut payload = payload;
        frame.append(&mut payload);
        Ok(frame)
    }
}

/// One framed response, as read back from the stream: its correlation
/// token, its declared payload length, and the payload parsed as JSON.
#[derive(Debug, PartialEq, Eq)]
pub struct QueryResponse {
    pub query_token: u64,
    pub length: u32,
    pub response: Json,
}

/// Parses one response frame: the twelve header bytes carry the token
/// and the payload length, little-endian; the payload bytes must be
/// text holding one JSON value.  A payload that is not such a text is
/// the malformed-message failure, carrying the offending text where
/// there is one.
pub fn parse_response(header: &[u8], payload: &[u8]) -> (r: Result<QueryResponse, Error>)
    requires
        header@.len() == 12,
    ensures
        match r {
            Ok(qr) => {
                &&& qr.query_token == spec_u64_from_le_bytes(header@.subrange(0, 8))
                &&& qr.length == spec_u32_from_le_bytes(header@.subrange(8, 12))
                &&& valid_utf8(payload@)
                &&& spec_parse_json(payload@) == Some(qr.response@)
            },
            Err(e) => {
                &&& (e matches Error::ServerError(t) && (valid_utf8(payload@) ==> encode_utf8(
                    t@,
                ) == payload@))
                &&& (e matches Error::ServerError(t) && (!valid_utf8(payload@) ==> t@
                    == crate::handshake::diag_invalid_utf8()))
                &&& (!valid_utf8(payload@) || spec_parse_json(payload@) is None)
            },
        },
{
    let token = u64_from_le_bytes(slice_subrange(header, 0, 8));
    let length = u32_from_le_bytes(slice_subrange(header, 8, 12));
    let text = match bytes_to_str(payload) {
        Some(t) => t,
        None => {
            return Err(
                Error::ServerError(
                    String::from_str("Received a message from RethinkDB that is not valid UTF-8."),
                ),
            );
        },
    };
    match parse_json(payload) {
        Some(response) => Ok(QueryResponse { query_token: token, length, response }),
        None => Err(Error::ServerError(text.to_owned())),
    }
}

/// Law: the tokens of a session's first `2^64` queries are all distinct:
/// the counter value after k queries is k itself while k stays below the
/// wraparound boundary, so two different query positions below it take
/// two different tokens.
pub proof fn lemma_token_distinct(i: nat, j: nat)
    requires
        i < j <= TOKEN_SPAN as nat,
    ensures
        i % (TOKEN_SPAN as nat + 1) != j % (TOKEN_SPAN as nat + 1),
{
    vstd::arithmetic::div_mod::lemma_small_mod(i, TOKEN_SPAN as nat + 1);
    vstd::arithmetic::div_mod::lemma_small_mod(j, TOKEN_SPAN as nat + 1);
}

} // verus!
