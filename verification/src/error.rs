//! The error taxonomy of the driver.

use vstd::prelude::*;
use vstd::string::StringExecFns;

verus! {

/// A failure of one logical operation: a handshake step or a single
/// query send / response read.
#[derive(Debug, PartialEq, Eq)]
pub enum Error {
    /// The serialized query payload exceeds what the four-byte length
    /// field of the framing can represent; carries the computed size.
    QueryTooLarge(usize),
    /// The server rejected the credentials, or its identity proof did
    /// not verify.
    ReqlAuthError,
    /// Any other failure: transport, malformed message, or a
    /// server-reported error; carries one descriptive line.
    ServerError(String),
}

pub open spec fn digit_char(d: nat) -> char {
    if d == 0 {
        '0'
    } else if d == 1 {
        '1'
    } else if d == 2 {
        '2'
    } else if d == 3 {
        '3'
    } else if d == 4 {
        '4'
    } else if d == 5 {
        '5'
    } else if d == 6 {
        '6'
    } else if d == 7 {
        '7'
    } else if d == 8 {
        '8'
    } else {
        '9'
    }
}

/// Decimal digits of `n` as text, most significant first.
pub open spec fn spec_dec_chars(n: nat) -> Seq<char>
    decreases n,
{
    if n < 10 {
        seq![digit_char(n)]
    } else {
        spec_dec_chars(n / 10).push(digit_char(n % 10))
    }
}

fn digit_str(d: u64) -> (s: &'static str)
    requires
        d < 10,
    ensures
        s@ == seq![digit_char(d as nat)],
{
    proof {
        reveal_strlit("0");
        reveal_strlit("1");
        reveal_strlit("2");
        reveal_strlit("3");
        reveal_strlit("4");
        reveal_strlit("5");
        reveal_strlit("6");
        reveal_strlit("7");
        reveal_strlit("8");
        reveal_strlit("9");
    }
    if d == 0 {
        "0"
    } else if d == 1 {
        "1"
    } else if d == 2 {
        "2"
    } else if d == 3 {
        "3"
    } else if d == 4 {
        "4"
    } else if d == 5 {
        "5"
    } else if d == 6 {
        "6"
    } else if d == 7 {
        "7"
    } else if d == 8 {
        "8"
    } else {
        "9"
    }
}

fn dec_string(n: u64) -> (s: String)
    ensures
        s@ == spec_dec_chars(n as nat),
    decreases n,
{
    if n < 10 {
        String::from_str(digit_str(n))
    } else {
        let mut s = dec_string(n / 10);
        s.append(digit_str(n % 10));
        s
    }
}

impl Error {
    /// The one descriptive line this failure renders as.
    pub open spec fn spec_message(&self) -> Seq<char> {
        match self {
            Error::QueryTooLarge(n) =>
                "Query was too large: max size is 4294967295 bytes but the query takes up "@
                + spec_dec_chars(*n as nat) + " bytes."@,
            Error::ReqlAuthError => "Authentication failed."@,
            Error::ServerError(t) => t@,
        }
    }

    /// Renders the failure as its one descriptive line.
    pub fn message(&self) -> (s: String)
        ensures
            s@ == self.spec_message(),
    {
        match self {
            Error::QueryTooLarge(n) => {
                let mut s = String::from_str(
                    "Query was too large: max size is 4294967295 bytes but the query takes up ",
                );
                let d = dec_string(*n as u64);
                s.append(d.as_str());
                s.append(" bytes.");
                s
            },
            Error::ReqlAuthError => String::from_str("Authentication failed."),
            Error::ServerError(t) => t.clone(),
        }
    }
}

} // verus!
