//! Identifiers as text: the plain and hyphenated hex forms of a UUID, the
//! `id@version` reference that an event supersedes, and session tokens.

use vstd::prelude::*;

use crate::text::{chars_of, hex_digits, nat_text, push_all, string_of, u64_text};

verus! {

/// The 32 lowercase hex digits of a UUID, most significant first.
pub open spec fn uuid_simple(id: u128) -> Seq<char> {
    hex_digits(id as nat, 32)
}

/// The hyphenated form of a UUID: its hex digits in groups of 8-4-4-4-12.
pub open spec fn uuid_hyphenated(id: u128) -> Seq<char> {
    let d = uuid_simple(id);
    d.subrange(0, 8) + seq!['-'] + d.subrange(8, 12) + seq!['-'] + d.subrange(12, 16) + seq!['-']
        + d.subrange(16, 20) + seq!['-'] + d.subrange(20, 32)
}

/// The text of a UUID.
///
/// Trusted: `uuid::Uuid::from_u128(id).to_string()`. The crate's `Display`
/// for `Uuid` writes the big-endian bytes of the value as lowercase hex in
/// groups of 8-4-4-4-12 digits, which `uuid_hyphenated` states.
#[verifier::external_body]
pub(crate) fn uuid_text(id: u128) -> (r: String)
    ensures
        r@ == uuid_hyphenated(id),
{
    uuid::Uuid::from_u128(id).to_string()
}

/// The 32-digit form of a UUID.
///
/// Trusted: `uuid::Uuid::from_u128(id).simple().to_string()`. The crate's
/// `Display` for `Simple` writes the big-endian bytes as 32 lowercase hex
/// digits, which `uuid_simple` states.
#[verifier::external_body]
fn uuid_simple_text(id: u128) -> (r: String)
    ensures
        r@ == uuid_simple(id),
{
    uuid::Uuid::from_u128(id).simple().to_string()
}

/// What parsing a text as a UUID gives: the value, or the message of the
/// parse error.
pub uninterp spec fn uuid_parse_of(text: Seq<char>) -> core::result::Result<u128, Seq<char>>;

/// A text read as a UUID.
///
/// Trusted: `uuid::Uuid::parse_str(text)`, its value taken by `as_u128` and
/// its error by `to_string`. Both are a function of the text alone, which
/// `uuid_parse_of` names.
#[verifier::external_body]
pub(crate) fn parse_uuid(text: &str) -> (r: core::result::Result<u128, String>)
    ensures
        match uuid_parse_of(text@) {
            Ok(v) => r matches Ok(x) && x == v,
            Err(m) => r matches Err(e) && e@ == m,
        },
{
    uuid::Uuid::parse_str(text).map(|u| u.as_u128()).map_err(|e| e.to_string())
}

/// A fresh random UUID.
///
/// Trusted: `uuid::Uuid::new_v4().as_u128()`. The value comes from the
/// operating system's random source, so nothing is said of which it is.
#[verifier::external_body]
pub(crate) fn random_uuid() -> (r: u128) {
    uuid::Uuid::new_v4().as_u128()
}

/// `id@version`: the reference a reconcile event records for the state
/// version it supersedes.
pub open spec fn version_ref_m(id: u128, state_version: u64) -> Seq<char> {
    uuid_hyphenated(id) + seq!['@'] + nat_text(state_version as nat)
}

/// `id@version` for a desired state at a version.
pub fn version_ref(id: u128, state_version: u64) -> (r: String)
    ensures
        r@ == version_ref_m(id, state_version),
{
    let head = uuid_text(id);
    let mut out = chars_of(head.as_str());
    out.push('@');
    let v = u64_text(state_version);
    push_all(&mut out, &v);
    string_of(&out)
}

/// A session token: `hdt_` and the 32 hex digits of a UUID.
pub open spec fn token_m(u: u128) -> Seq<char> {
    "hdt_"@ + uuid_simple(u)
}

/// The token for a UUID.
pub fn token_for(u: u128) -> (r: String)
    ensures
        r@ == token_m(u),
{
    let mut out = chars_of("hdt_");
    let digits = uuid_simple_text(u);
    let d = chars_of(digits.as_str());
    push_all(&mut out, &d);
    string_of(&out)
}

/// A new session token from a random UUID.
pub fn issue_token() -> (r: String)
    ensures
        exists|u: u128| r@ == #[trigger] token_m(u),
{
    let u = random_uuid();
    let t = token_for(u);
    assert(t@ == token_m(u));
    t
}

} // verus!
