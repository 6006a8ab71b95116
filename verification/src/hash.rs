//! 40-bit hash keys: the derived hash of a label and the hexadecimal
//! literal form `0x` + ten digits.

use vstd::prelude::*;
use crate::text::{
    all_hex_digits, format_hex_fixed, hex_fixed, hex_value, lemma_hex_round_trip,
    lemma_hex_value_bound, lemma_pow16_le, parse_hex40, pow16,
};

verus! {

/// The derived 40-bit hash of a label's text.
pub uninterp spec fn label_hash(s: Seq<char>) -> u64;

/// Relies on `prc::hash40::hash40`: a CRC-32 of the lowercased bytes,
/// with the byte length reduced modulo 256 in bits 32..40.  The result
/// depends on the characters alone and always fits in 40 bits.
#[verifier::external_body]
pub fn hash_of_label(s: &str) -> (r: u64)
    ensures
        r == label_hash(s@),
        r < 0x100_0000_0000,
{
    prc::hash40::hash40(s).0
}

/// The literal form of a 40-bit hash: `0x` followed by ten lowercase
/// hexadecimal digits.
pub open spec fn hash_literal(h: u64) -> Seq<char> {
    "0x"@ + hex_fixed(h as nat, 10)
}

/// Whether `s` starts with the hexadecimal literal marker `0x`.
pub open spec fn has_hex_marker(s: Seq<char>) -> bool {
    s.len() >= 2 && s[0] == '0' && s[1] == 'x'
}

/// The hash denoted by a literal: defined when the marker is followed
/// by one to ten hexadecimal digits.
pub open spec fn parse_hash_literal(s: Seq<char>) -> Option<u64> {
    if has_hex_marker(s) && 1 <= s.len() - 2 <= 10 && all_hex_digits(s.skip(2)) {
        Some(hex_value(s.skip(2)) as u64)
    } else {
        None
    }
}

/// The literal form of a 40-bit hash.
pub fn format_hash(h: u64) -> (r: Vec<char>)
    requires
        h < 0x100_0000_0000,
    ensures
        r@ == hash_literal(h),
{
    let mut v: Vec<char> = Vec::new();
    v.push('0');
    v.push('x');
    let mut digits = format_hex_fixed(h, 10);
    v.append(&mut digits);
    proof {
        assert(v@ =~= "0x"@ + hex_fixed(h as nat, 10)) by {
            reveal_strlit("0x");
        }
    }
    v
}

/// Whether the characters start with the literal marker `0x`.
pub fn starts_with_hex_marker(s: &Vec<char>) -> (r: bool)
    ensures
        r == has_hex_marker(s@),
{
    s.len() >= 2 && s[0] == '0' && s[1] == 'x'
}

/// Reads a hash literal; rejects anything without the marker, with a
/// digit that is not hexadecimal, or with more than ten digits.
pub fn parse_hash(s: &Vec<char>) -> (r: Option<u64>)
    ensures
        r == parse_hash_literal(s@),
        r matches Some(h) ==> h < 0x100_0000_0000,
{
    if !starts_with_hex_marker(s) {
        return None;
    }
    let r = parse_hex40(s, 2);
    proof {
        if r is Some {
            lemma_hex_value_bound(s@.skip(2));
        }
    }
    r
}

/// Reading back the literal form of a hash gives the hash again.
pub proof fn lemma_hash_literal_round_trip(h: u64)
    requires
        h < 0x100_0000_0000,
    ensures
        parse_hash_literal(hash_literal(h)) == Some(h),
{
    reveal_with_fuel(pow16, 11);
    lemma_hex_round_trip(h as nat, 10);
    let s = hash_literal(h);
    reveal_strlit("0x");
    assert(s.len() == 12);
    assert(s[0] == '0');
    assert(s[1] == 'x');
    assert(s.skip(2) =~= hex_fixed(h as nat, 10));
}

} // verus!
