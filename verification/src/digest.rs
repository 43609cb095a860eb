//! Content hashing for change detection. The exact digest algorithm is not a
//! correctness requirement; what matters is that the same bytes always hash
//! to the same string.

use vstd::prelude::*;

verus! {

/// The lowercase hex rendering of the digest of a byte sequence: a function
/// of the bytes alone, identical across runs and machines.
pub uninterp spec fn md5_hex_of(bytes: Seq<u8>) -> Seq<char>;

/// A lowercase hexadecimal digit.
pub open spec fn is_hex_digit(c: char) -> bool {
    ('0' <= c && c <= '9') || ('a' <= c && c <= 'f')
}

/// Calculate a hash string for content.
///
/// Relies on `md5::compute` and the md5 crate's `LowerHex` rendering of a
/// `Digest`: two lowercase hex digits for each of the 16 digest bytes, so 32
/// characters, determined by the input bytes alone.
#[verifier::external_body]
pub fn hash(content: &[u8]) -> (r: String)
    ensures
        r@ == md5_hex_of(content@),
        r@.len() == 32,
        forall|i: int| 0 <= i < r@.len() ==> is_hex_digit(#[trigger] r@[i]),
{
    format!("{:x}", md5::compute(content))
}

} // verus!
