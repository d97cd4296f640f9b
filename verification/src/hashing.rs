//! Content integrity: BLAKE3 hashing behind a trusted declaration, and the
//! verified integrity check against a lock record.

use vstd::prelude::*;

use crate::strutil;

verus! {

/// The lowercase hex BLAKE3 digest of a byte string, a function of the
/// bytes alone.
pub uninterp spec fn blake3_hex(b: Seq<u8>) -> Seq<char>;

/// Relies on `blake3::hash` and `Hash::to_hex`: a 32-byte digest of the
/// input bytes, printed as 64 hex characters.
#[verifier::external_body]
pub fn blake3_hash_hex(bytes: &[u8]) -> (r: String)
    ensures
        r@ == blake3_hex(bytes@),
        r@.len() == 64,
{
    blake3::hash(bytes).to_hex().to_string()
}

/// Whether the bytes match an optional recorded hash: a missing record
/// passes, a present one must equal the bytes' digest.
pub open spec fn spec_integrity_ok(expected: Option<Seq<char>>, b: Seq<u8>) -> bool {
    match expected {
        Some(h) => h == blake3_hex(b),
        None => true,
    }
}

/// Check a byte string against an optional recorded BLAKE3 hash.
pub fn check_integrity(expected: &Option<String>, bytes: &[u8]) -> (r: bool)
    ensures
        r == spec_integrity_ok(expected.deep_view(), bytes@),
{
    match expected {
        Some(h) => {
            let actual = blake3_hash_hex(bytes);
            strutil::str_eq(h.as_str(), actual.as_str())
        },
        None => true,
    }
}

} // verus!
