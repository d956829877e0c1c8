//! The handshake engine: version negotiation and the four-message
//! challenge-response authentication.
//!
//! The engine is a state machine over the NUL-terminated handshake
//! texts.  The caller owns the stream: it writes what a step hands out,
//! reads the next text, and hands the bytes back.  Every failing step
//! yields the teardown action, so no half-authenticated session can
//! escape: the caller shuts the stream down before surfacing the error.
//!
//! A server text is discriminated by trial against two shapes, in a
//! fixed order: the success shape `{authentication, success}` first,
//! then the error shape `{error, error_code, success}`.  An error code
//! within 10 to 20 is the distinguished authentication failure.

use vstd::prelude::*;
use vstd::bytes::{spec_u32_to_le_bytes, u32_to_le_bytes};
use vstd::slice::slice_to_vec;
use vstd::string::{StringSliceAdditionalSpecFns, StringExecFns};
use vstd::utf8::{valid_utf8, encode_utf8};
use crate::auth::{
    bytes_to_str,
    scram_client_final,
    scram_client_first,
    scram_handle_server_final,
    scram_handle_server_first,
    scram_new,
};
use crate::error::Error;
use crate::json::{Json, Jv, json_view, member_views_of};
use crate::parse::{spec_parse_json, parse_json};

verus! {

/// The version identifier this driver offers the server.
pub const VERSION_MAGIC: u32 = 0x34c2bdc3;

/// The revision of the authentication sub-protocol spoken within the
/// negotiated version.
pub const SUB_PROTOCOL_VERSION: i64 = 0;

/// The low end of the error-code range reserved for authentication
/// failures.
pub const AUTH_ERROR_CODE_LOW: i64 = 10;

/// The high end of the error-code range reserved for authentication
/// failures.
pub const AUTH_ERROR_CODE_HIGH: i64 = 20;

pub open spec fn key_authentication() -> Seq<u8> {
    "authentication".spec_bytes()
}

pub open spec fn key_authentication_method() -> Seq<u8> {
    "authentication_method".spec_bytes()
}

pub open spec fn key_protocol_version() -> Seq<u8> {
    "protocol_version".spec_bytes()
}

pub open spec fn key_success() -> Seq<u8> {
    "success".spec_bytes()
}

pub open spec fn key_min_protocol_version() -> Seq<u8> {
    "min_protocol_version".spec_bytes()
}

pub open spec fn key_max_protocol_version() -> Seq<u8> {
    "max_protocol_version".spec_bytes()
}

pub open spec fn key_server_version() -> Seq<u8> {
    "server_version".spec_bytes()
}

pub open spec fn key_error() -> Seq<u8> {
    "error".spec_bytes()
}

pub open spec fn key_error_code() -> Seq<u8> {
    "error_code".spec_bytes()
}

pub open spec fn val_scram_method() -> Seq<u8> {
    "SCRAM-SHA-256".spec_bytes()
}

pub open spec fn diag_success_false() -> Seq<char> {
    "Received a success response from RethinkDB with success = false."@
}

pub open spec fn diag_error_true() -> Seq<char> {
    "Received an error response from RethinkDB with success = true."@
}

pub open spec fn diag_invalid_utf8() -> Seq<char> {
    "Received a message from RethinkDB that is not valid UTF-8."@
}

pub open spec fn diag_wrong_state() -> Seq<char> {
    "No handshake step expects a message in this state."@
}

/// The value of the last member carrying `key`, if any: a duplicated
/// key is resolved by its last occurrence.
pub open spec fn spec_lookup(ms: Seq<(Seq<u8>, Jv)>, key: Seq<u8>) -> Option<Jv>
    decreases ms.len(),
{
    if ms.len() == 0 {
        None
    } else if ms.last().0 == key {
        Some(ms.last().1)
    } else {
        spec_lookup(ms.drop_last(), key)
    }
}

/// The first index at or after `i` that holds a comma, or the end.
pub open spec fn spec_comma_or_end(s: Seq<u8>, i: int) -> int
    decreases s.len() - i when 0 <= i <= s.len()
{
    if i < s.len() && s[i] != 0x2c {
        spec_comma_or_end(s, i + 1)
    } else {
        i
    }
}

/// Whether a challenge text may be handed to the mechanism.  Its parser
/// reads the first two bytes of each of the first three comma-separated
/// fields without checking the field's length, so each such field that
/// exists must hold at least two bytes; a text shorter than two bytes is
/// refused by the mechanism before any field is read.
pub open spec fn spec_server_first_guard(s: Seq<u8>) -> bool {
    s.len() < 2 || {
        let e0 = spec_comma_or_end(s, 0);
        &&& e0 >= 2
        &&& (e0 == s.len() || {
            let e1 = spec_comma_or_end(s, e0 + 1);
            &&& e1 - (e0 + 1) >= 2
            &&& (e1 == s.len() || spec_comma_or_end(s, e1 + 1) - (e1 + 1) >= 2)
        })
    }
}

/// Whether an identity-proof text may be handed to the mechanism.  Its
/// parser takes the text's first two bytes as a character slice, so when
/// anything follows them the third byte must start a character; two
/// leading ASCII bytes guarantee that, and a text of at most two bytes
/// is read whole.
pub open spec fn spec_server_final_guard(s: Seq<u8>) -> bool {
    s.len() <= 2 || (s[0] < 0x80 && s[1] < 0x80)
}

fn comma_or_end(s: &[u8], i: usize) -> (j: usize)
    requires
        i <= s@.len(),
    ensures
        j as int == spec_comma_or_end(s@, i as int),
        i <= j <= s@.len(),
{
    let mut j = i;
    while j < s.len() && s[j] != 0x2c
        invariant
            i <= j <= s@.len(),
            spec_comma_or_end(s@, i as int) == spec_comma_or_end(s@, j as int),
        decreases s@.len() - j,
    {
        j = j + 1;
    }
    j
}

fn server_first_text_ok(s: &[u8]) -> (r: bool)
    ensures
        r == spec_server_first_guard(s@),
{
    if s.len() < 2 {
        return true;
    }
    let e0 = comma_or_end(s, 0);
    if e0 < 2 {
        return false;
    }
    if e0 == s.len() {
        return true;
    }
    let e1 = comma_or_end(s, e0 + 1);
    if e1 - (e0 + 1) < 2 {
        return false;
    }
    if e1 == s.len() {
        return true;
    }
    let e2 = comma_or_end(s, e1 + 1);
    e2 - (e1 + 1) >= 2
}

fn server_final_text_ok(s: &[u8]) -> (r: bool)
    ensures
        r == spec_server_final_guard(s@),
{
    s.len() <= 2 || (s[0] < 0x80 && s[1] < 0x80)
}

/// The protocol-acknowledgment shape: a `success` flag, the two
/// protocol-version bounds, and the server's version text.
pub open spec fn ack_shape_ok(ms: Seq<(Seq<u8>, Jv)>) -> bool {
    &&& spec_lookup(ms, key_success()) matches Some(Jv::Bool(_))
    &&& spec_lookup(ms, key_min_protocol_version()) matches Some(Jv::Int(_))
    &&& spec_lookup(ms, key_max_protocol_version()) matches Some(Jv::Int(_))
    &&& spec_lookup(ms, key_server_version()) matches Some(Jv::Str(_))
}

/// What the protocol acknowledgment says: its `success` flag, or
/// nothing when the text has no such shape.
pub open spec fn spec_classify_ack(t: Seq<u8>) -> Option<bool> {
    match spec_parse_json(t) {
        Some(Jv::Obj(ms)) => if ack_shape_ok(ms) {
            Some(spec_lookup(ms, key_success())->Some_0->Bool_0)
        } else {
            None
        },
        _ => None,
    }
}

pub open spec fn success_shape_ok(ms: Seq<(Seq<u8>, Jv)>) -> bool {
    &&& spec_lookup(ms, key_authentication()) matches Some(Jv::Str(_))
    &&& spec_lookup(ms, key_success()) matches Some(Jv::Bool(_))
}

pub open spec fn error_shape_ok(ms: Seq<(Seq<u8>, Jv)>) -> bool {
    &&& spec_lookup(ms, key_error()) matches Some(Jv::Str(_))
    &&& spec_lookup(ms, key_error_code()) matches Some(Jv::Int(_))
    &&& spec_lookup(ms, key_success()) matches Some(Jv::Bool(_))
}

/// The discrimination of one server authentication text.
pub enum MsgClass {
    /// The success shape with `success` true; carries `authentication`.
    Success(Seq<u8>),
    /// The success shape with `success` false: a protocol invariant the
    /// server is never expected to break.
    BadSuccess,
    /// The error shape with a code in the reserved range.
    AuthFailure,
    /// The error shape with a code outside the reserved range; carries
    /// the server's message text.
    ErrText(Seq<u8>),
    /// The error shape with `success` true: the mirror-image protocol
    /// invariant violation.
    BadError,
    /// Neither shape.
    Malformed,
}

/// Classifies one server text: the success shape is tried first, then
/// the error shape, exactly one of the six outcomes holds.
pub open spec fn spec_classify_server(t: Seq<u8>) -> MsgClass {
    match spec_parse_json(t) {
        Some(Jv::Obj(ms)) => if success_shape_ok(ms) {
            if spec_lookup(ms, key_success())->Some_0->Bool_0 {
                MsgClass::Success(spec_lookup(ms, key_authentication())->Some_0->Str_0)
            } else {
                MsgClass::BadSuccess
            }
        } else if error_shape_ok(ms) {
            if !spec_lookup(ms, key_success())->Some_0->Bool_0 {
                if AUTH_ERROR_CODE_LOW <= spec_lookup(ms, key_error_code())->Some_0->Int_0
                    <= AUTH_ERROR_CODE_HIGH {
                    MsgClass::AuthFailure
                } else {
                    MsgClass::ErrText(spec_lookup(ms, key_error())->Some_0->Str_0)
                }
            } else {
                MsgClass::BadError
            }
        } else {
            MsgClass::Malformed
        },
        _ => MsgClass::Malformed,
    }
}

/// The client-first text: the mechanism's opening line under
/// `authentication`, the mechanism name, and the sub-protocol revision,
/// serialized compactly in key order and NUL-terminated.
pub open spec fn spec_client_first_message(a: Seq<u8>) -> Seq<u8> {
    crate::json::spec_encode(
        Jv::Obj(
            seq![
                (key_authentication(), Jv::Str(a)),
                (key_authentication_method(), Jv::Str(val_scram_method())),
                (key_protocol_version(), Jv::Int(SUB_PROTOCOL_VERSION as int)),
            ],
        ),
    ) + seq![0u8]
}

/// The client-final text: the mechanism's closing line under
/// `authentication`, serialized compactly and NUL-terminated.
pub open spec fn spec_client_final_message(a: Seq<u8>) -> Seq<u8> {
    crate::json::spec_encode(Jv::Obj(seq![(key_authentication(), Jv::Str(a))])) + seq![0u8]
}

fn bytes_eq(a: &[u8], b: &[u8]) -> (r: bool)
    ensures
        r == (a@ == b@),
{
    if a.len() != b.len() {
        return false;
    }
    let mut i: usize = 0;
    while i < a.len()
        invariant
            a@.len() == b@.len(),
            i <= a@.len(),
            forall|k: int| 0 <= k < i ==> a@[k] == b@[k],
        decreases a@.len() - i,
    {
        if a[i] != b[i] {
            return false;
        }
        i = i + 1;
    }
    proof {
        assert(a@ =~= b@);
    }
    true
}

fn lookup<'x>(ms: &'x Vec<(Vec<u8>, Json)>, key: &[u8]) -> (r: Option<&'x Json>)
    ensures
        match r {
            Some(v) => spec_lookup(member_views_of(ms@), key@) == Some(v@),
            None => spec_lookup(member_views_of(ms@), key@) is None,
        },
{
    let ghost full = member_views_of(ms@);
    let mut i: usize = ms.len();
    proof {
        assert(full.take(ms@.len() as int) =~= full);
    }
    while i > 0
        invariant
            i <= ms@.len(),
            full == member_views_of(ms@),
            spec_lookup(full, key@) == spec_lookup(full.take(i as int), key@),
        decreases i,
    {
        proof {
            assert(full.take(i as int).last() == full[i - 1]);
            assert(full.take(i as int).drop_last() =~= full.take(i - 1));
        }
        if bytes_eq(ms[i - 1].0.as_slice(), key) {
            return Some(&ms[i - 1].1);
        }
        i = i - 1;
    }
    proof {
        assert(full.take(0) =~= Seq::<(Seq<u8>, Jv)>::empty());
    }
    None
}

enum AckOutcome {
    Good,
    FlagFalse,
    Bad,
}

fn check_ack(t: &[u8]) -> (r: AckOutcome)
    ensures
        match spec_classify_ack(t@) {
            Some(b) => if b {
                r is Good
            } else {
                r is FlagFalse
            },
            None => r is Bad,
        },
{
    let parsed = match parse_json(t) {
        Some(j) => j,
        None => {
            return AckOutcome::Bad;
        },
    };
    let ghost pv = parsed@;
    let ms = match parsed {
        Json::Obj(ms) => ms,
        _ => {
            return AckOutcome::Bad;
        },
    };
    proof {
        assert(pv->Obj_0 =~= member_views_of(ms@));
    }
    let su = match lookup(&ms, "success".as_bytes()) {
        Some(Json::Bool(b)) => *b,
        _ => {
            return AckOutcome::Bad;
        },
    };
    match lookup(&ms, "min_protocol_version".as_bytes()) {
        Some(Json::I64(_)) => {},
        _ => {
            return AckOutcome::Bad;
        },
    }
    match lookup(&ms, "max_protocol_version".as_bytes()) {
        Some(Json::I64(_)) => {},
        _ => {
            return AckOutcome::Bad;
        },
    }
    match lookup(&ms, "server_version".as_bytes()) {
        Some(Json::Str(_)) => {},
        _ => {
            return AckOutcome::Bad;
        },
    }
    if su {
        AckOutcome::Good
    } else {
        AckOutcome::FlagFalse
    }
}

/// The exec counterpart of one classified server text.
pub enum ServerMsg {
    Success { authentication: Vec<u8> },
    BadSuccess,
    AuthFailure,
    ErrText { error: Vec<u8> },
    BadError,
    Malformed,
}

/// Classifies one server authentication text, exactly as
/// `spec_classify_server` says.
pub fn classify_server(t: &[u8]) -> (r: ServerMsg)
    ensures
        match r {
            ServerMsg::Success { authentication } => spec_classify_server(t@)
                == MsgClass::Success(authentication@),
            ServerMsg::BadSuccess => spec_classify_server(t@) == MsgClass::BadSuccess,
            ServerMsg::AuthFailure => spec_classify_server(t@) == MsgClass::AuthFailure,
            ServerMsg::ErrText { error } => spec_classify_server(t@) == MsgClass::ErrText(error@),
            ServerMsg::BadError => spec_classify_server(t@) == MsgClass::BadError,
            ServerMsg::Malformed => spec_classify_server(t@) == MsgClass::Malformed,
        },
{
    let parsed = match parse_json(t) {
        Some(j) => j,
        None => {
            return ServerMsg::Malformed;
        },
    };
    let ghost pv = parsed@;
    let ms = match parsed {
        Json::Obj(ms) => ms,
        _ => {
            return ServerMsg::Malformed;
        },
    };
    proof {
        assert(pv->Obj_0 =~= member_views_of(ms@));
    }
    let success_flag: Option<bool> = match lookup(&ms, "success".as_bytes()) {
        Some(Json::Bool(b)) => Some(*b),
        _ => None,
    };
    let auth: Option<&Vec<u8>> = match lookup(&ms, "authentication".as_bytes()) {
        Some(Json::Str(a)) => Some(a),
        _ => None,
    };
    if let (Some(flag), Some(a)) = (success_flag, auth) {
        if flag {
            return ServerMsg::Success { authentication: crate::json::clone_bytes(a) };
        } else {
            return ServerMsg::BadSuccess;
        }
    }
    let err_text: Option<&Vec<u8>> = match lookup(&ms, "error".as_bytes()) {
        Some(Json::Str(e)) => Some(e),
        _ => None,
    };
    let err_code: Option<i64> = match lookup(&ms, "error_code".as_bytes()) {
        Some(Json::I64(c)) => Some(*c),
        _ => None,
    };
    if let (Some(flag), Some(e), Some(c)) = (success_flag, err_text, err_code) {
        if !flag {
            if AUTH_ERROR_CODE_LOW <= c && c <= AUTH_ERROR_CODE_HIGH {
                return ServerMsg::AuthFailure;
            } else {
                return ServerMsg::ErrText { error: crate::json::clone_bytes(e) };
            }
        } else {
            return ServerMsg::BadError;
        }
    }
    ServerMsg::Malformed
}

fn client_first_message(auth: &str) -> (m: Vec<u8>)
    ensures
        m@ == spec_client_first_message(auth.spec_bytes()),
{
    let mut ms: Vec<(Vec<u8>, Json)> = Vec::new();
    ms.push(
        (slice_to_vec("authentication".as_bytes()), Json::Str(slice_to_vec(auth.as_bytes()))),
    );
    ms.push(
        (
            slice_to_vec("authentication_method".as_bytes()),
            Json::Str(slice_to_vec("SCRAM-SHA-256".as_bytes())),
        ),
    );
    ms.push((slice_to_vec("protocol_version".as_bytes()), Json::I64(SUB_PROTOCOL_VERSION)));
    let obj = Json::Obj(ms);
    proof {
        reveal_with_fuel(json_view, 3);
        assert(obj@->Obj_0.len() == 3);
        assert(obj@->Obj_0[0] == (key_authentication(), Jv::Str(auth.spec_bytes())));
        assert(obj@->Obj_0[1] == (key_authentication_method(), Jv::Str(val_scram_method())));
        assert(obj@->Obj_0[2] == (key_protocol_version(), Jv::Int(SUB_PROTOCOL_VERSION as int)));
        assert(obj@->Obj_0 =~= seq![
            (key_authentication(), Jv::Str(auth.spec_bytes())),
            (key_authentication_method(), Jv::Str(val_scram_method())),
            (key_protocol_version(), Jv::Int(SUB_PROTOCOL_VERSION as int)),
        ]);
    }
    let mut m = crate::json::encode_json(&obj);
    m.push(0);
    m
}

fn client_final_message(auth: &str) -> (m: Vec<u8>)
    ensures
        m@ == spec_client_final_message(auth.spec_bytes()),
{
    let mut ms: Vec<(Vec<u8>, Json)> = Vec::new();
    ms.push(
        (slice_to_vec("authentication".as_bytes()), Json::Str(slice_to_vec(auth.as_bytes()))),
    );
    let obj = Json::Obj(ms);
    proof {
        reveal_with_fuel(json_view, 3);
        assert(obj@->Obj_0.len() == 1);
        assert(obj@->Obj_0[0] == (key_authentication(), Jv::Str(auth.spec_bytes())));
        assert(obj@->Obj_0 =~= seq![(key_authentication(), Jv::Str(auth.spec_bytes()))]);
    }
    let mut m = crate::json::encode_json(&obj);
    m.push(0);
    m
}

/// Where the handshake stands: which message exchange comes next.
pub enum HandshakeState<'a> {
    /// The version identifier is written; the server's protocol
    /// acknowledgment is awaited.
    AwaitProtocolAck { user: &'a str, password: &'a str },
    /// The client-first text is written; the server's challenge is
    /// awaited, with the mechanism's continuation retained.
    AwaitServerFirst { server_first: scram::client::ServerFirst<'a> },
    /// The client-final text is written; the server's identity proof is
    /// awaited, with the pending verifier retained.
    AwaitServerFinal { server_final: scram::client::ServerFinal },
    /// The session is authenticated.
    Done,
    /// The handshake is aborted; the stream is to be torn down.
    Failed,
}

/// What the caller must do after a step.
pub enum HandshakeAction {
    /// Write these bytes, flush, and read the next NUL-terminated text.
    Send(Vec<u8>),
    /// The handshake is complete; queries may follow.
    Finish,
    /// Shut the stream down, both directions, and surface this error.
    /// No further handshake step may run: the exchange is not
    /// idempotent.
    Teardown(Error),
}

/// The step failed: the state is failed and the action tears the
/// stream down with a server error carrying exactly this text.
pub open spec fn teardown_with_text<'a>(
    ns: HandshakeState<'a>,
    act: HandshakeAction,
    t: Seq<char>,
) -> bool {
    &&& ns is Failed
    &&& (act matches HandshakeAction::Teardown(Error::ServerError(s)) && s@ == t)
}

/// The step failed with a server error whose text reads back as these
/// bytes.
pub open spec fn teardown_with_raw<'a>(
    ns: HandshakeState<'a>,
    act: HandshakeAction,
    b: Seq<u8>,
) -> bool {
    &&& ns is Failed
    &&& (act matches HandshakeAction::Teardown(Error::ServerError(s)) && encode_utf8(s@) == b)
}

/// The step failed with a server error whose text reads back as these
/// bytes whenever they are text at all.
pub open spec fn teardown_with_server_text<'a>(
    ns: HandshakeState<'a>,
    act: HandshakeAction,
    b: Seq<u8>,
) -> bool {
    &&& ns is Failed
    &&& (act matches HandshakeAction::Teardown(Error::ServerError(s)) && (valid_utf8(b)
        ==> encode_utf8(s@) == b))
}

/// The step failed with the distinguished authentication failure.
pub open spec fn teardown_auth<'a>(ns: HandshakeState<'a>, act: HandshakeAction) -> bool {
    &&& ns is Failed
    &&& act matches HandshakeAction::Teardown(Error::ReqlAuthError)
}

/// The step failed with some server error.
pub open spec fn teardown_server<'a>(ns: HandshakeState<'a>, act: HandshakeAction) -> bool {
    &&& ns is Failed
    &&& act matches HandshakeAction::Teardown(Error::ServerError(_))
}

/// The step succeeded and sends a well-formed client-first text.
pub open spec fn sends_client_first<'a>(ns: HandshakeState<'a>, act: HandshakeAction) -> bool {
    &&& ns is AwaitServerFirst
    &&& (act matches HandshakeAction::Send(m) && (exists|a: Seq<u8>|
        m@ == #[trigger] spec_client_first_message(a)))
}

/// The step succeeded and sends a well-formed client-final text.
pub open spec fn sends_client_final<'a>(ns: HandshakeState<'a>, act: HandshakeAction) -> bool {
    &&& ns is AwaitServerFinal
    &&& (act matches HandshakeAction::Send(m) && (exists|f: Seq<u8>|
        m@ == #[trigger] spec_client_final_message(f)))
}

fn fail_server_error<'a>(text: &str) -> (r: (HandshakeState<'a>, HandshakeAction))
    ensures
        teardown_with_text(r.0, r.1, text@),
{
    (HandshakeState::Failed, HandshakeAction::Teardown(Error::ServerError(text.to_owned())))
}

/// Opens the handshake: the state awaiting the protocol acknowledgment,
/// and the version identifier to write, as four little-endian bytes.
pub fn handshake_start<'a>(user: &'a str, password: &'a str) -> (r: (
    HandshakeState<'a>,
    Vec<u8>,
))
    ensures
        (r.0 matches HandshakeState::AwaitProtocolAck { user: u, password: p } && u == user
            && p == password),
        r.1@ == spec_u32_to_le_bytes(VERSION_MAGIC),
{
    (HandshakeState::AwaitProtocolAck { user, password }, u32_to_le_bytes(VERSION_MAGIC))
}

/// Feeds one received text (the bytes before its NUL terminator) to the
/// engine.  A failing step always pairs the failed state with the
/// teardown action, and only a finished handshake pairs the done state
/// with the finish action; the error is classified exactly as the
/// received text demands.  What the challenge-response mechanism makes
/// of a challenge is its own: on its acceptance the next text is sent,
/// on its rejection the handshake fails.
pub fn handshake_on_message<'a>(state: HandshakeState<'a>, msg: &[u8]) -> (r: (
    HandshakeState<'a>,
    HandshakeAction,
))
    ensures
        (r.0 is Failed <==> r.1 is Teardown),
        (r.0 is Done <==> r.1 is Finish),
        match state {
            HandshakeState::AwaitProtocolAck { .. } => if !valid_utf8(msg@) {
                teardown_with_text(r.0, r.1, diag_invalid_utf8())
            } else {
                match spec_classify_ack(msg@) {
                    Some(b) => if b {
                        sends_client_first(r.0, r.1)
                    } else {
                        teardown_with_text(r.0, r.1, diag_success_false())
                    },
                    None => teardown_with_raw(r.0, r.1, msg@),
                }
            },
            HandshakeState::AwaitServerFirst { .. } => if !valid_utf8(msg@) {
                teardown_with_text(r.0, r.1, diag_invalid_utf8())
            } else {
                match spec_classify_server(msg@) {
                    MsgClass::Success(a) => sends_client_final(r.0, r.1) || teardown_server(
                        r.0,
                        r.1,
                    ),
                    MsgClass::BadSuccess => teardown_with_text(r.0, r.1, diag_success_false()),
                    MsgClass::AuthFailure => teardown_auth(r.0, r.1),
                    MsgClass::ErrText(e) => teardown_with_server_text(r.0, r.1, e),
                    MsgClass::BadError => teardown_with_text(r.0, r.1, diag_error_true()),
                    MsgClass::Malformed => teardown_with_raw(r.0, r.1, msg@),
                }
            },
            HandshakeState::AwaitServerFinal { .. } => if !valid_utf8(msg@) {
                teardown_with_text(r.0, r.1, diag_invalid_utf8())
            } else {
                match spec_classify_server(msg@) {
                    MsgClass::Success(a) => (r.0 is Done && r.1 is Finish) || teardown_auth(
                        r.0,
                        r.1,
                    ) || (teardown_server(r.0, r.1) && (!valid_utf8(a)
                        || !spec_server_final_guard(a))),
                    MsgClass::BadSuccess => teardown_with_text(r.0, r.1, diag_success_false()),
                    MsgClass::AuthFailure => teardown_auth(r.0, r.1),
                    MsgClass::ErrText(e) => teardown_with_server_text(r.0, r.1, e),
                    MsgClass::BadError => teardown_with_text(r.0, r.1, diag_error_true()),
                    MsgClass::Malformed => teardown_with_raw(r.0, r.1, msg@),
                }
            },
            HandshakeState::Done => teardown_with_text(r.0, r.1, diag_wrong_state()),
            HandshakeState::Failed => teardown_with_text(r.0, r.1, diag_wrong_state()),
        },
{
    match state {
        HandshakeState::AwaitProtocolAck { user, password } => {
            let text = match bytes_to_str(msg) {
                Some(t) => t,
                None => {
                    return fail_server_error("Received a message from RethinkDB that is not valid UTF-8.");
                },
            };
            match check_ack(msg) {
                AckOutcome::Good => {
                    let sc = scram_new(user, password);
                    let (server_first, auth) = scram_client_first(sc);
                    let m = client_first_message(auth.as_str());
                    (HandshakeState::AwaitServerFirst { server_first }, HandshakeAction::Send(m))
                },
                AckOutcome::FlagFalse => fail_server_error("Received a success response from RethinkDB with success = false."),
                AckOutcome::Bad => fail_server_error(text),
            }
        },
        HandshakeState::AwaitServerFirst { server_first } => {
            let text = match bytes_to_str(msg) {
                Some(t) => t,
                None => {
                    return fail_server_error("Received a message from RethinkDB that is not valid UTF-8.");
                },
            };
            match classify_server(msg) {
                ServerMsg::Success { authentication } => {
                    let astr = match bytes_to_str(authentication.as_slice()) {
                        Some(a) => a,
                        None => {
                            return fail_server_error("Received a message from RethinkDB that is not valid UTF-8.");
                        },
                    };
                    if !server_first_text_ok(authentication.as_slice()) {
                        return fail_server_error(
                            "Received a malformed challenge from RethinkDB.",
                        );
                    }
                    match scram_handle_server_first(server_first, astr) {
                        Ok(client_final) => {
                            let (server_final, auth) = scram_client_final(client_final);
                            let m = client_final_message(auth.as_str());
                            (
                                HandshakeState::AwaitServerFinal { server_final },
                                HandshakeAction::Send(m),
                            )
                        },
                        Err(e) => (
                            HandshakeState::Failed,
                            HandshakeAction::Teardown(Error::ServerError(e)),
                        ),
                    }
                },
                ServerMsg::BadSuccess => fail_server_error("Received a success response from RethinkDB with success = false."),
                ServerMsg::AuthFailure => (
                    HandshakeState::Failed,
                    HandshakeAction::Teardown(Error::ReqlAuthError),
                ),
                ServerMsg::ErrText { error } => {
                    let t = match bytes_to_str(error.as_slice()) {
                        Some(e) => e.to_owned(),
                        None => String::from_str(
                            "Received a message from RethinkDB that is not valid UTF-8.",
                        ),
                    };
                    (HandshakeState::Failed, HandshakeAction::Teardown(Error::ServerError(t)))
                },
                ServerMsg::BadError => fail_server_error("Received an error response from RethinkDB with success = true."),
                ServerMsg::Malformed => fail_server_error(text),
            }
        },
        HandshakeState::AwaitServerFinal { server_final } => {
            let text = match bytes_to_str(msg) {
                Some(t) => t,
                None => {
                    return fail_server_error("Received a message from RethinkDB that is not valid UTF-8.");
                },
            };
            match classify_server(msg) {
                ServerMsg::Success { authentication } => {
                    let astr = match bytes_to_str(authentication.as_slice()) {
                        Some(a) => a,
                        None => {
                            return fail_server_error("Received a message from RethinkDB that is not valid UTF-8.");
                        },
                    };
                    if !server_final_text_ok(authentication.as_slice()) {
                        return fail_server_error(
                            "Received a malformed identity proof from RethinkDB.",
                        );
                    }
                    match scram_handle_server_final(server_final, astr) {
                        Ok(_) => (HandshakeState::Done, HandshakeAction::Finish),
                        Err(_) => (
                            HandshakeState::Failed,
                            HandshakeAction::Teardown(Error::ReqlAuthError),
                        ),
                    }
                },
                ServerMsg::BadSuccess => fail_server_error("Received a success response from RethinkDB with success = false."),
                ServerMsg::AuthFailure => (
                    HandshakeState::Failed,
                    HandshakeAction::Teardown(Error::ReqlAuthError),
                ),
                ServerMsg::BadError => fail_server_error("Received an error response from RethinkDB with success = true."),
                ServerMsg::ErrText { error } => {
                    let t = match bytes_to_str(error.as_slice()) {
                        Some(e) => e.to_owned(),
                        None => String::from_str(
                            "Received a message from RethinkDB that is not valid UTF-8.",
                        ),
                    };
                    (HandshakeState::Failed, HandshakeAction::Teardown(Error::ServerError(t)))
                },
                ServerMsg::Malformed => fail_server_error(text),
            }
        },
        HandshakeState::Done => fail_server_error("No handshake step expects a message in this state."),
        HandshakeState::Failed => fail_server_error("No handshake step expects a message in this state."),
    }
}

} // verus!
