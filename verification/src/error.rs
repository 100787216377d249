//! The library's error type.

use vstd::prelude::*;

use crate::ids::{uuid_hyphenated, uuid_text};
use crate::text::{chars_of, push_all, string_of};

verus! {

/// Why an operation was refused. Identifiers are the 128-bit values of the
/// store's UUIDs; outside failures carry the message they reported.
#[derive(Debug)]
pub enum Error {
    Unauthorized,
    VaultDenied { vault_id: u128 },
    NotFound(&'static str),
    Invalid(String),
    Sqlite(String),
    Yaml(String),
    Io(String),
}

pub type Result<T> = core::result::Result<T, Error>;

/// `r` is the `Invalid` error with message `m`.
pub open spec fn is_invalid_with<T>(r: Result<T>, m: Seq<char>) -> bool {
    r matches Err(Error::Invalid(msg)) && msg@ == m
}

/// The text an error reads as.
pub open spec fn error_text(e: Error) -> Seq<char> {
    match e {
        Error::Unauthorized => "agent token required or invalid"@,
        Error::VaultDenied { vault_id } => "vault "@ + uuid_hyphenated(vault_id)
            + " is isolated from this agent"@,
        Error::NotFound(kind) => kind@ + " not found"@,
        Error::Invalid(m) => m@,
        Error::Sqlite(m) => "sqlite: "@ + m@,
        Error::Yaml(m) => "yaml: "@ + m@,
        Error::Io(m) => "io: "@ + m@,
    }
}

fn prefixed(head: &str, tail: &str) -> (r: String)
    ensures
        r@ == head@ + tail@,
{
    let mut c = chars_of(head);
    let t = chars_of(tail);
    push_all(&mut c, &t);
    string_of(&c)
}

impl Error {
    /// The text the error reads as.
    pub fn message(&self) -> (r: String)
        ensures
            r@ == error_text(*self),
    {
        match self {
            Error::Unauthorized => {
                let c = chars_of("agent token required or invalid");
                string_of(&c)
            },
            Error::VaultDenied { vault_id } => {
                let id = uuid_text(*vault_id);
                let head = prefixed("vault ", id.as_str());
                prefixed(head.as_str(), " is isolated from this agent")
            },
            Error::NotFound(kind) => prefixed(kind, " not found"),
            Error::Invalid(m) => {
                let c = chars_of(m.as_str());
                string_of(&c)
            },
            Error::Sqlite(m) => prefixed("sqlite: ", m.as_str()),
            Error::Yaml(m) => prefixed("yaml: ", m.as_str()),
            Error::Io(m) => prefixed("io: ", m.as_str()),
        }
    }
}

/// `r` is the `VaultDenied` error for vault `v`.
pub open spec fn is_denied_for<T>(r: Result<T>, v: u128) -> bool {
    r matches Err(Error::VaultDenied { vault_id }) && vault_id == v
}

} // verus!
