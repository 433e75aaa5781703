//! Fingerprints of bytes.
use crate::hex;
use vstd::prelude::*;
use vstd::string::StringSliceAdditionalSpecFns;

verus! {

/// What `blake3::hash` returns for these bytes.
pub uninterp spec fn blake3_hash(bytes: Seq<u8>) -> [u8; 32];

/// What `blake3::keyed_hash` returns for this key and these bytes.
pub uninterp spec fn blake3_keyed_hash(key: Seq<u8>, bytes: Seq<u8>) -> [u8; 32];

/// `blake3::hash` gives thirty-two bytes that depend on the input alone.
#[verifier::external_body]
fn hash(bytes: &[u8]) -> (digest: [u8; 32])
    ensures
        digest@ == blake3_hash(bytes@)@,
{
    *blake3::hash(bytes).as_bytes()
}

/// `blake3::keyed_hash` gives thirty-two bytes that depend on the key and the input alone.
#[verifier::external_body]
pub(crate) fn keyed_hash(key: &[u8; 32], bytes: &[u8]) -> (digest: [u8; 32])
    ensures
        digest@ == blake3_keyed_hash(key@, bytes@)@,
{
    *blake3::keyed_hash(key, bytes).as_bytes()
}

/// `blake3::Hash::to_hex` writes the bytes of a digest as lower case hexadecimal text.
#[verifier::external_body]
fn digest_hex(digest: &[u8; 32]) -> (text: String)
    ensures
        text@ == hex::hex_text(digest@),
{
    blake3::Hash::from_bytes(*digest).to_hex().to_string()
}

/// The fingerprint of a text.
pub open spec fn text_digest(bytes: Seq<u8>) -> Seq<char> {
    hex::hex_text(blake3_hash(bytes)@)
}

/// The fingerprint of a text, in hexadecimal.
pub fn digest_text(raw: &str) -> (r: String)
    ensures
        r@ == text_digest(raw.spec_bytes()),
        r@.len() == 64,
{
    digest_hex(&hash(raw.as_bytes()))
}

} // verus!
