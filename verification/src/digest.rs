//! The cryptographic digest over a serialized container and its
//! lowercase hex rendering, the two outside calls the prefix search is
//! driven by.

use sha2::Digest;
use vstd::prelude::*;

verus! {

/// The 64-byte SHA-512 digest of a byte sequence, a function of the
/// bytes alone.
pub uninterp spec fn sha512_of(bytes: Seq<u8>) -> Seq<u8>;

/// Relies on sha2::Sha512: the SHA-512 digest, 64 bytes, depending on
/// nothing but the input bytes.
#[verifier::external_body]
pub(crate) fn sha512(bytes: &[u8]) -> (r: Vec<u8>)
    ensures
        r@ == sha512_of(bytes@),
        r@.len() == 64,
{
    sha2::Sha512::digest(bytes).to_vec()
}

/// The lowercase hex digit (as an ASCII byte) of a value below 16.
pub open spec fn hex_digit(n: u8) -> u8
    recommends
        n < 16,
{
    if n < 10 {
        (0x30 + n) as u8
    } else {
        (0x61 + (n - 10)) as u8
    }
}

/// The lowercase hex text of a byte sequence: two digits per byte,
/// high nibble first.
pub open spec fn hex_bytes_of(s: Seq<u8>) -> Seq<u8> {
    Seq::new(
        2 * s.len(),
        |i: int|
            if i % 2 == 0 {
                hex_digit(s[i / 2] >> 4)
            } else {
                hex_digit(s[i / 2] & 0xf)
            },
    )
}

/// Relies on hex::encode: two lowercase hex digits for each byte, high
/// nibble first.
#[verifier::external_body]
pub(crate) fn hex_lower(bytes: &[u8]) -> (r: Vec<u8>)
    ensures
        r@ == hex_bytes_of(bytes@),
{
    hex::encode(bytes).into_bytes()
}

} // verus!
