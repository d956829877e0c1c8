//! Trusted bindings: the outside SCRAM-SHA-256 mechanism that computes
//! the challenge-response proofs, and std's UTF-8 check.
//!
//! The cryptography itself is an external collaborator; nothing is
//! claimed of the texts it produces, since they depend on a random
//! nonce.  The engine states what holds of every outcome instead.

use vstd::prelude::*;
use vstd::string::StringSliceAdditionalSpecFns;
use vstd::utf8::valid_utf8;
use crate::handshake::{spec_server_first_guard, spec_server_final_guard};

verus! {

#[verifier::external_type_specification]
#[verifier::external_body]
pub struct ExScramClient<'a>(scram::ScramClient<'a>);

#[verifier::external_type_specification]
#[verifier::external_body]
pub struct ExServerFirst<'a>(scram::client::ServerFirst<'a>);

#[verifier::external_type_specification]
#[verifier::external_body]
pub struct ExClientFinal(scram::client::ClientFinal);

#[verifier::external_type_specification]
#[verifier::external_body]
pub struct ExServerFinal(scram::client::ServerFinal);

/// Relies on scram's ScramClient::new: the client state of one exchange
/// for these credentials, around a freshly drawn random nonce.
#[verifier::external_body]
pub(crate) fn scram_new<'a>(user: &'a str, password: &'a str) -> (c: scram::ScramClient<'a>) {
    scram::ScramClient::new(user, password, None)
}

/// Relies on scram's ScramClient::client_first: the continuation and the
/// client-first text; the text depends on the random nonce.
#[verifier::external_body]
pub(crate) fn scram_client_first<'a>(c: scram::ScramClient<'a>) -> (r: (
    scram::client::ServerFirst<'a>,
    String,
)) {
    c.client_first()
}

/// Relies on scram's ServerFirst::handle_server_first: checks the
/// server's challenge and computes the client proof; a challenge the
/// mechanism rejects comes back as its error's descriptive line.  Its
/// parser reads the first two bytes of each of the first three
/// comma-separated fields of the text without checking the field's
/// length, so the caller keeps out the texts with a shorter field.
#[verifier::external_body]
pub(crate) fn scram_handle_server_first<'a>(
    sf: scram::client::ServerFirst<'a>,
    server_first: &str,
) -> (r: Result<scram::client::ClientFinal, String>)
    requires
        spec_server_first_guard(server_first.spec_bytes()),
{
    sf.handle_server_first(server_first).map_err(|e| format!("{}", e))
}

/// Relies on scram's ClientFinal::client_final: the pending verifier and
/// the client-final text.
#[verifier::external_body]
pub(crate) fn scram_client_final(cf: scram::client::ClientFinal) -> (r: (
    scram::client::ServerFinal,
    String,
)) {
    cf.client_final()
}

/// Relies on scram's ServerFinal::handle_server_final: confirms the
/// server's identity proof; a proof that does not verify comes back as
/// its error's descriptive line.  Its parser takes the text's first two
/// bytes as a character slice, so the caller keeps out the texts in
/// which those bytes do not end at a character.
#[verifier::external_body]
pub(crate) fn scram_handle_server_final(
    sf: scram::client::ServerFinal,
    server_final: &str,
) -> (r: Result<(), String>)
    requires
        spec_server_final_guard(server_final.spec_bytes()),
{
    sf.handle_server_final(server_final).map_err(|e| format!("{}", e))
}

/// Relies on std's str::from_utf8: accepts exactly the valid UTF-8 byte
/// sequences, and the accepted text reads back as the same bytes.
#[verifier::external_body]
pub(crate) fn bytes_to_str(v: &[u8]) -> (r: Option<&str>)
    ensures
        match r {
            Some(t) => t.spec_bytes() == v@ && valid_utf8(v@),
            None => !valid_utf8(v@),
        },
{
    match core::str::from_utf8(v) {
        Ok(t) => Some(t),
        Err(_) => None,
    }
}

} // verus!
