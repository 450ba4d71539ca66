//! Content fingerprints: the SHA-256 digest of a text's UTF-8 encoding,
//! written as 64 lower-case hexadecimal digits.

use sha2::{Digest, Sha256};
use vstd::prelude::*;
use vstd::utf8::encode_utf8;

verus! {

/// The SHA-256 digest of `data`.
pub uninterp spec fn sha256(data: Seq<u8>) -> Seq<u8>;

/// Number of bytes of a SHA-256 digest.
pub const DIGEST_BYTES: usize = 32;

/// `Sha256::digest` of the crate `sha2`: the digest of `data`, which depends on
/// `data` alone and has 32 bytes.
#[verifier::external_body]
fn sha256_digest(data: &[u8]) -> (digest: Vec<u8>)
    ensures
        digest@ == sha256(data@),
        digest@.len() == DIGEST_BYTES,
{
    Sha256::digest(data).to_vec()
}

/// The lower-case hexadecimal digit of `v`, which is less than 16.
pub open spec fn hex_digit(v: int) -> char {
    seq!['0', '1', '2', '3', '4', '5', '6', '7', '8', '9', 'a', 'b', 'c', 'd', 'e', 'f'][v]
}

/// `bytes` written in hexadecimal: two lower-case digits for each byte, the
/// high half first.
pub open spec fn hex(bytes: Seq<u8>) -> Seq<char> {
    Seq::new(
        2 * bytes.len(),
        |i: int|
            if i % 2 == 0 {
                hex_digit(bytes[i / 2] as int / 16)
            } else {
                hex_digit(bytes[i / 2] as int % 16)
            },
    )
}

/// The fingerprint of a text: its SHA-256 digest in hexadecimal.
pub open spec fn content_digest(content: Seq<char>) -> Seq<char> {
    hex(sha256(encode_utf8(content)))
}

/// The lower-case hexadecimal digit of `v`.
pub fn hex_char(v: u8) -> (c: char)
    requires
        v < 16,
    ensures
        c == hex_digit(v as int),
{
    if v == 0 {
        '0'
    } else if v == 1 {
        '1'
    } else if v == 2 {
        '2'
    } else if v == 3 {
        '3'
    } else if v == 4 {
        '4'
    } else if v == 5 {
        '5'
    } else if v == 6 {
        '6'
    } else if v == 7 {
        '7'
    } else if v == 8 {
        '8'
    } else if v == 9 {
        '9'
    } else if v == 10 {
        'a'
    } else if v == 11 {
        'b'
    } else if v == 12 {
        'c'
    } else if v == 13 {
        'd'
    } else if v == 14 {
        'e'
    } else {
        'f'
    }
}

/// `bytes` written in hexadecimal.
pub fn hex_encode(bytes: &[u8]) -> (s: String)
    ensures
        s@ == hex(bytes@),
{
    let mut s = String::new();
    let mut i: usize = 0;
    while i < bytes.len()
        invariant
            i <= bytes.len(),
            s@.len() == 2 * i,
            forall|j: int| 0 <= j < 2 * i ==> s@[j] == hex(bytes@)[j],
        decreases bytes.len() - i,
    {
        let b: u8 = bytes[i];
        s.push(hex_char(b / 16));
        s.push(hex_char(b % 16));
        i += 1;
    }
    s
}

/// The fingerprint of `content`. Equal contents have equal fingerprints, and
/// every fingerprint has 64 characters.
pub fn content_hash(content: &str) -> (digest: String)
    ensures
        digest@ == content_digest(content@),
        digest@.len() == 2 * DIGEST_BYTES,
{
    let raw = sha256_digest(content.as_bytes());
    hex_encode(raw.as_slice())
}

/// Every character of a fingerprint is a lower-case hexadecimal digit.
pub proof fn lemma_hex_alphabet(bytes: Seq<u8>, i: int)
    requires
        0 <= i < hex(bytes).len(),
    ensures
        ('0' <= hex(bytes)[i] <= '9') || ('a' <= hex(bytes)[i] <= 'f'),
{
}

} // verus!
