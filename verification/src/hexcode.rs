//! Hex representation of digests. The encoding is pinned down exactly by
//! the spec function `hex_of`: two lowercase hex digits per byte, high
//! nibble first.

use vstd::prelude::*;

verus! {

/// The lowercase hex digit for a nibble.
pub open spec fn hex_digit_char(n: u8) -> char
    recommends
        n < 16,
{
    if n < 10 {
        ((n + 48) as u8) as char
    } else {
        ((n + 87) as u8) as char
    }
}

/// The nibble a lowercase hex digit stands for.
pub open spec fn unhex_digit(c: char) -> u8 {
    if c as u8 >= 97 {
        ((c as u8) - 97 + 10) as u8
    } else {
        ((c as u8) - 48) as u8
    }
}

/// The lowercase hex encoding of a byte sequence.
pub open spec fn hex_of(bytes: Seq<u8>) -> Seq<char>
    decreases bytes.len(),
{
    if bytes.len() == 0 {
        Seq::empty()
    } else {
        seq![hex_digit_char(bytes[0] / 16), hex_digit_char(bytes[0] % 16)] + hex_of(
            bytes.drop_first(),
        )
    }
}

/// The bytes a hex string stands for, reading two digits at a time.
pub open spec fn unhex(s: Seq<char>) -> Seq<u8>
    decreases s.len(),
{
    if s.len() < 2 {
        Seq::empty()
    } else {
        seq![(unhex_digit(s[0]) * 16 + unhex_digit(s[1])) as u8] + unhex(s.skip(2))
    }
}

/// Hex encoding writes two characters per byte.
pub proof fn lemma_hex_of_len(bytes: Seq<u8>)
    ensures
        hex_of(bytes).len() == 2 * bytes.len(),
    decreases bytes.len(),
{
    if bytes.len() > 0 {
        lemma_hex_of_len(bytes.drop_first());
    }
}

/// Reading a nibble back from its hex digit recovers it.
proof fn lemma_unhex_digit_of_hex(n: u8)
    requires
        n < 16,
    ensures
        unhex_digit(hex_digit_char(n)) == n,
{
}

/// `unhex` inverts `hex_of`.
pub proof fn lemma_unhex_of_hex(bytes: Seq<u8>)
    ensures
        unhex(hex_of(bytes)) == bytes,
    decreases bytes.len(),
{
    if bytes.len() == 0 {
        assert(unhex(hex_of(bytes)) =~= bytes);
    } else {
        let s = hex_of(bytes);
        let b0 = bytes[0];
        lemma_hex_of_len(bytes.drop_first());
        lemma_unhex_digit_of_hex(b0 / 16);
        lemma_unhex_digit_of_hex(b0 % 16);
        assert(unhex_digit(s[0]) * 16 + unhex_digit(s[1]) == b0) by {
            assert((b0 / 16) * 16 + b0 % 16 == b0) by (nonlinear_arith);
        }
        assert(s.skip(2) =~= hex_of(bytes.drop_first()));
        lemma_unhex_of_hex(bytes.drop_first());
        assert(unhex(hex_of(bytes)) =~= bytes);
    }
}

/// Relies on `hex::encode`: two lowercase hex digits per input byte, high
/// nibble first, in input order.
#[verifier::external_body]
pub(crate) fn hex_encode(bytes: &[u8]) -> (r: String)
    ensures
        r@ == hex_of(bytes@),
{
    hex::encode(bytes)
}

/// Relies on `hex::decode`: the inverse of hex encoding. On a string in the
/// image of `hex_of` (even length, lowercase hex digits only) it always
/// succeeds and returns the encoded bytes.
#[verifier::external_body]
pub(crate) fn hex_decode(s: &str) -> (r: Vec<u8>)
    requires
        exists|b: Seq<u8>| s@ == hex_of(b),
    ensures
        hex_of(r@) == s@,
{
    hex::decode(s).unwrap()
}

} // verus!
