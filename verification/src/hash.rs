//! Content hashing.
use vstd::prelude::*;

verus! {

/// The BLAKE3 digest of some bytes, in hexadecimal notation.
pub uninterp spec fn digest(data: Seq<u8>) -> Seq<char>;

/// `blake3::hash`, written by `blake3::Hash::to_hex`. The digest of some bytes goes by the name
/// `digest`.
#[verifier::external_body]
fn blake3_hex(data: &[u8]) -> (r: String)
    ensures
        r@ == digest(data@),
{
    blake3::hash(data).to_hex().to_string()
}

/// The hash of the content of a file.
pub fn hash_bytes(data: &[u8]) -> (r: String)
    ensures
        r@ == digest(data@),
{
    blake3_hex(data)
}

}
