//! SHA-256 and hexadecimal text, as the outside crates compute them.

use vstd::prelude::*;

verus! {

/// The SHA-256 digest of a byte string.
pub uninterp spec fn sha256_of(data: Seq<u8>) -> Seq<u8>;

/// `sha2::Sha256::digest`, copied into a vector. The contract claims that the
/// result is the SHA-256 digest of `data`, which depends on `data` alone and
/// is 32 bytes long.
#[verifier::external_body]
pub(crate) fn sha256(data: &[u8]) -> (out: Vec<u8>)
    ensures
        out@ == sha256_of(data@),
        out@.len() == 32,
{
    <sha2::Sha256 as sha2::Digest>::digest(data).to_vec()
}

/// The lower-case hexadecimal digit of a value `0..=15`.
pub open spec fn hex_digit(n: int) -> char {
    if n < 10 {
        (('0' as u8) + n) as u8 as char
    } else {
        (('a' as u8) + n - 10) as u8 as char
    }
}

/// Two lower-case hexadecimal digits for every byte, the high one first.
pub open spec fn hex_lower(bytes: Seq<u8>) -> Seq<char> {
    Seq::new(
        2 * bytes.len(),
        |i: int|
            if i % 2 == 0 {
                hex_digit(bytes[i / 2] as int / 16)
            } else {
                hex_digit(bytes[i / 2] as int % 16)
            },
    )
}

/// `hex::encode`. The contract claims that every byte of `data` is written as
/// two lower-case hexadecimal digits, the high one first, in the order of
/// the bytes.
#[verifier::external_body]
pub(crate) fn hex_encode(data: &[u8]) -> (out: String)
    ensures
        out@ == hex_lower(data@),
{
    hex::encode(data)
}

/// The SHA-256 digest of the UTF-8 bytes of `text`, in lower-case
/// hexadecimal digits.
pub open spec fn sha256_hex(text: Seq<char>) -> Seq<char> {
    hex_lower(sha256_of(vstd::utf8::encode_utf8(text)))
}

/// Hashes the UTF-8 bytes of `text` with SHA-256 and writes the digest as 64
/// lower-case hexadecimal digits.
pub fn hash_text(text: &str) -> (out: String)
    ensures
        out@ == sha256_hex(text@),
        out@.len() == 64,
{
    let digest = sha256(text.as_bytes());
    hex_encode(digest.as_slice())
}

} // verus!
