//! SHA-256 digests and their lowercase hexadecimal rendering.

use sha2::{Digest, Sha256};
use vstd::prelude::*;

verus! {

/// The SHA-256 digest of `data`, as the `sha2` crate computes it.
pub uninterp spec fn sha256(data: Seq<u8>) -> Seq<u8>;

/// Calls `sha2::Sha256::digest` on `data` and hands the 32 output bytes back
/// as an array. Trusted: the result is the function `sha256` of the input
/// bytes, the same for the same bytes on every call.
#[verifier::external_body]
pub(crate) fn sha256_bytes(data: &[u8]) -> (out: [u8; 32])
    ensures
        out@ == sha256(data@),
{
    Sha256::digest(data).into()
}

/// The lowercase hexadecimal digit for a value below sixteen.
pub open spec fn hex_digit(nibble: u8) -> char {
    if nibble < 10 {
        (48 + nibble) as char
    } else {
        (87 + nibble) as char
    }
}

/// Lowercase hexadecimal text of a byte string: two digits per byte, high
/// nibble first.
pub open spec fn hex_lower(bytes: Seq<u8>) -> Seq<char>
    decreases bytes.len(),
{
    if bytes.len() == 0 {
        Seq::empty()
    } else {
        hex_lower(bytes.drop_last()).push(hex_digit(bytes.last() / 16)).push(
            hex_digit(bytes.last() % 16),
        )
    }
}

/// Hexadecimal text is twice as long as the bytes it renders.
pub proof fn lemma_hex_lower_len(bytes: Seq<u8>)
    ensures
        hex_lower(bytes).len() == 2 * bytes.len(),
    decreases bytes.len(),
{
    if bytes.len() > 0 {
        lemma_hex_lower_len(bytes.drop_last());
    }
}

fn hex_digit_of(nibble: u8) -> (ch: char)
    requires
        nibble < 16,
    ensures
        ch == hex_digit(nibble),
{
    if nibble < 10 {
        (48 + nibble) as char
    } else {
        (87 + nibble) as char
    }
}

/// Renders `bytes` as lowercase hexadecimal text.
pub fn to_hex(bytes: &[u8]) -> (out: String)
    ensures
        out@ == hex_lower(bytes@),
{
    let mut out = String::new();
    let mut i: usize = 0;
    while i < bytes.len()
        invariant
            i <= bytes.len(),
            out@ == hex_lower(bytes@.take(i as int)),
        decreases bytes.len() - i,
    {
        let byte = bytes[i];
        proof {
            let next = bytes@.take(i + 1);
            assert(next.drop_last() == bytes@.take(i as int));
            assert(next.last() == byte);
        }
        out.push(hex_digit_of(byte / 16));
        out.push(hex_digit_of(byte % 16));
        i += 1;
    }
    proof {
        assert(bytes@.take(bytes.len() as int) == bytes@);
    }
    out
}

/// The SHA-256 digest of `data` as lowercase hexadecimal text.
pub open spec fn sha256_hex(data: Seq<u8>) -> Seq<char> {
    hex_lower(sha256(data))
}

/// Hashes `data` with SHA-256 and renders the digest as 64 lowercase
/// hexadecimal characters.
pub fn digest_hex(data: &[u8]) -> (out: String)
    ensures
        out@ == sha256_hex(data@),
        out@.len() == 64,
{
    let raw = sha256_bytes(data);
    proof {
        lemma_hex_lower_len(raw@);
    }
    to_hex(raw.as_slice())
}

} // verus!
