//! Content hashes of nodes and desired states: the bytes that are hashed,
//! framed here, and the BLAKE3 digest of them.

use vstd::prelude::*;
use vstd::utf8::encode_utf8;

use crate::text::{nat_text, string_of, u64_text};
use crate::types::{node_type_name, NodeType};

verus! {

/// The lowercase hex BLAKE3 digest of a byte string.
pub uninterp spec fn blake3_hex_of(bytes: Seq<u8>) -> Seq<char>;

/// The BLAKE3 digest of `bytes`, as hex.
///
/// Trusted: `blake3::hash(bytes).to_hex()`. The digest is a function of the
/// bytes alone, which `blake3_hex_of` names; the crate documents `to_hex` as
/// the 64 lowercase hex digits of the 32-byte hash.
#[verifier::external_body]
fn blake3_hex(bytes: &[u8]) -> (r: String)
    ensures
        r@ == blake3_hex_of(bytes@),
        r@.len() == 64,
{
    blake3::hash(bytes).to_hex().to_string()
}

fn push_bytes(out: &mut Vec<u8>, s: &str)
    ensures
        final(out)@ == old(out)@ + encode_utf8(s@),
{
    let b = s.as_bytes();
    let mut i: usize = 0;
    while i < b.len()
        invariant
            i <= b@.len(),
            b@ == encode_utf8(s@),
            out@ == old(out)@ + b@.take(i as int),
        decreases b.len() - i,
    {
        out.push(b[i]);
        assert(b@.take(i + 1) =~= b@.take(i as int).push(b@[i as int]));
        i = i + 1;
    }
    assert(b@.take(b@.len() as int) =~= b@);
}

/// The text of an optional string, empty when absent.
pub open spec fn or_empty(o: Option<Seq<char>>) -> Seq<char> {
    match o {
        Some(s) => s,
        None => Seq::empty(),
    }
}

/// The view of an optional string slice.
pub open spec fn opt_str(o: Option<&str>) -> Option<Seq<char>> {
    match o {
        Some(s) => Some(s@),
        None => None,
    }
}

/// The bytes a node's content hash covers: its type, path, H.TEC path and
/// the YAML text of its extra document, separated by zero bytes. An extra
/// document that could not be written as YAML contributes nothing.
pub open spec fn content_message(
    node_type: NodeType,
    path: Option<Seq<char>>,
    htec_path: Option<Seq<char>>,
    extra_yaml: Option<Seq<char>>,
) -> Seq<u8> {
    encode_utf8(node_type_name(node_type)) + seq![0u8] + encode_utf8(or_empty(path)) + seq![0u8]
        + encode_utf8(or_empty(htec_path)) + seq![0u8] + encode_utf8(or_empty(extra_yaml))
}

/// The content hash of a node.
pub fn content_hash(
    node_type: NodeType,
    path: Option<&str>,
    htec_path: Option<&str>,
    extra_yaml: Option<&str>,
) -> (r: String)
    ensures
        r@ == blake3_hex_of(
            content_message(node_type, opt_str(path), opt_str(htec_path), opt_str(extra_yaml)),
        ),
        r@.len() == 64,
{
    let mut msg: Vec<u8> = Vec::new();
    push_bytes(&mut msg, node_type.as_str());
    msg.push(0u8);
    match path {
        Some(p) => push_bytes(&mut msg, p),
        None => {},
    }
    msg.push(0u8);
    match htec_path {
        Some(h) => push_bytes(&mut msg, h),
        None => {},
    }
    msg.push(0u8);
    match extra_yaml {
        Some(e) => push_bytes(&mut msg, e),
        None => {},
    }
    assert(encode_utf8(Seq::<char>::empty()) =~= Seq::<u8>::empty());
    assert(msg@ =~= content_message(
        node_type,
        opt_str(path),
        opt_str(htec_path),
        opt_str(extra_yaml),
    ));
    blake3_hex(msg.as_slice())
}

/// The bytes a desired state's content hash covers: the YAML text of its
/// spec and of its status, and its version in decimal, separated by zero
/// bytes.
pub open spec fn state_message(
    spec_yaml: Seq<char>,
    status_yaml: Seq<char>,
    state_version: u64,
) -> Seq<u8> {
    encode_utf8(spec_yaml) + seq![0u8] + encode_utf8(status_yaml) + seq![0u8] + encode_utf8(
        nat_text(state_version as nat),
    )
}

/// The content hash of a desired state at a version.
pub fn desired_state_hash(spec_yaml: &str, status_yaml: &str, state_version: u64) -> (r: String)
    ensures
        r@ == blake3_hex_of(state_message(spec_yaml@, status_yaml@, state_version)),
        r@.len() == 64,
{
    let mut msg: Vec<u8> = Vec::new();
    push_bytes(&mut msg, spec_yaml);
    msg.push(0u8);
    push_bytes(&mut msg, status_yaml);
    msg.push(0u8);
    let digits = u64_text(state_version);
    let v = string_of(&digits);
    push_bytes(&mut msg, v.as_str());
    assert(msg@ =~= state_message(spec_yaml@, status_yaml@, state_version));
    blake3_hex(msg.as_slice())
}

} // verus!
