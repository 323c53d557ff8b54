//! Rendering of byte strings as lower-case hexadecimal text, and of small
//! numbers as decimal text, for the audit logs and the key listings.

use vstd::prelude::*;

verus! {

/// The lower-case base-sixteen digit for a value below sixteen.
pub open spec fn digit_char(n: u8) -> char
    recommends
        n < 16,
{
    if n < 10 {
        ((48 + n) as u8) as char
    } else {
        ((87 + n) as u8) as char
    }
}

/// The lower-case hexadecimal rendering of a byte sequence: two digits per
/// byte, high nibble first.
pub open spec fn hex_of(b: Seq<u8>) -> Seq<char> {
    Seq::new(
        2 * b.len(),
        |i: int|
            if i % 2 == 0 {
                digit_char((b[i / 2] / 16) as u8)
            } else {
                digit_char((b[i / 2] % 16) as u8)
            },
    )
}

/// The decimal rendering of a natural number, most significant digit first.
pub open spec fn dec_of(n: nat) -> Seq<char>
    decreases n,
{
    if n < 10 {
        seq![digit_char(n as u8)]
    } else {
        dec_of(n / 10).push(digit_char((n % 10) as u8))
    }
}

/// Relies on hex::encode: renders each byte as two lower-case hexadecimal
/// digits, high nibble first, in input order.
#[verifier::external_body]
pub fn hex_string(b: &[u8]) -> (r: String)
    ensures
        r@ == hex_of(b@),
{
    hex::encode(b)
}

} // verus!
