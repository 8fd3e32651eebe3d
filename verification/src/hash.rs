//! SHA-1 digests and their rendering in hexadecimal.

use sha1::Digest;
use vstd::prelude::*;

verus! {

/// The SHA-1 digest of a byte string, as the `sha1` crate computes it.
pub uninterp spec fn sha1(data: Seq<u8>) -> Seq<u8>;

/// `sha1::Sha1::digest`: the SHA-1 digest of the data, which has 20 bytes.
#[verifier::external_body]
pub(crate) fn sha1_digest(data: &[u8]) -> (hash: Vec<u8>)
    ensures
        hash@ == sha1(data@),
        hash@.len() == 20,
{
    sha1::Sha1::digest(data).to_vec()
}

/// The hexadecimal digit, `0` to `9` and `a` to `f`, for a number below
/// sixteen.
pub open spec fn hex_lower(nibble: int) -> char {
    if nibble < 10 {
        (48 + nibble) as char
    } else {
        (87 + nibble) as char
    }
}

/// Bytes in hexadecimal: two digits for each byte, the high half first.
pub open spec fn hex_text(bytes: Seq<u8>) -> Seq<char> {
    Seq::new(
        2 * bytes.len(),
        |j: int|
            if j % 2 == 0 {
                hex_lower(bytes[j / 2] as int / 16)
            } else {
                hex_lower(bytes[j / 2] as int % 16)
            },
    )
}

/// `hex::encode`: the bytes in lower-case hexadecimal, two digits for each
/// byte, the high half first.
#[verifier::external_body]
pub(crate) fn hex_encode(bytes: &[u8]) -> (text: String)
    ensures
        text@ == hex_text(bytes@),
{
    hex::encode(bytes)
}

} // verus!
