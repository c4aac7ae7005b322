//! The content hash that names shards and entry files.

use vstd::prelude::*;

verus! {

/// The SHA-256 digest of the UTF-8 encoding of `text`, as hexadecimal text.
pub uninterp spec fn sha256_hex(text: Seq<char>) -> Seq<char>;

/// The number of characters in a rendered digest: two per byte of the 32-byte hash.
pub open spec fn digest_len() -> nat {
    64
}

/// True of the sixteen characters that a rendered digest is made of.
pub open spec fn is_lower_hex(c: char) -> bool {
    ('0' <= c && c <= '9') || ('a' <= c && c <= 'f')
}

/// Calls `sha256::digest` on a string slice.
///
/// Trusted, not proved: the result is the digest named by [`sha256_hex`], a
/// function of the input text alone; it is 64 characters long, and each
/// character is a decimal digit or a letter from `a` to `f`. The crate hashes
/// the bytes of the input with SHA-256, which yields 32 bytes, and renders each
/// byte as two characters taken from `0123456789abcdef`.
#[verifier::external_body]
pub(crate) fn digest_hex(input: &str) -> (hex: String)
    ensures
        hex@ == sha256_hex(input@),
        hex@.len() == digest_len(),
        forall|i: int| 0 <= i < hex@.len() ==> is_lower_hex(#[trigger] hex@[i]),
{
    sha256::digest(input)
}

} // verus!
