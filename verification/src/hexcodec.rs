//! Hexadecimal encoding and decoding, specified exactly and performed by the
//! `hex` crate behind trusted wrappers.

use vstd::prelude::*;
use crate::Error;

verus! {

/// The lowercase hexadecimal digit for a value below sixteen.
pub open spec fn hex_char_of(n: u8) -> char {
    if n == 0 { '0' }
    else if n == 1 { '1' }
    else if n == 2 { '2' }
    else if n == 3 { '3' }
    else if n == 4 { '4' }
    else if n == 5 { '5' }
    else if n == 6 { '6' }
    else if n == 7 { '7' }
    else if n == 8 { '8' }
    else if n == 9 { '9' }
    else if n == 10 { 'a' }
    else if n == 11 { 'b' }
    else if n == 12 { 'c' }
    else if n == 13 { 'd' }
    else if n == 14 { 'e' }
    else { 'f' }
}

/// The value of a hexadecimal digit, in either case; sixteen for any other
/// character.
pub open spec fn hex_val(c: char) -> u8 {
    if c == '0' { 0 }
    else if c == '1' { 1 }
    else if c == '2' { 2 }
    else if c == '3' { 3 }
    else if c == '4' { 4 }
    else if c == '5' { 5 }
    else if c == '6' { 6 }
    else if c == '7' { 7 }
    else if c == '8' { 8 }
    else if c == '9' { 9 }
    else if c == 'a' || c == 'A' { 10 }
    else if c == 'b' || c == 'B' { 11 }
    else if c == 'c' || c == 'C' { 12 }
    else if c == 'd' || c == 'D' { 13 }
    else if c == 'e' || c == 'E' { 14 }
    else if c == 'f' || c == 'F' { 15 }
    else { 16 }
}

pub open spec fn is_hex_digit(c: char) -> bool {
    hex_val(c) < 16
}

/// A string decodes as hexadecimal when its length is even and every
/// character is a digit of either case.
pub open spec fn is_hex_seq(s: Seq<char>) -> bool {
    &&& s.len() % 2 == 0
    &&& forall|i: int| 0 <= i < s.len() ==> is_hex_digit(#[trigger] s[i])
}

/// The lowercase hexadecimal rendering of `b`: two digits per byte, high
/// nibble first.
pub open spec fn hex_of(b: Seq<u8>) -> Seq<char> {
    Seq::new(b.len() * 2, |i: int|
        if i % 2 == 0 { hex_char_of(b[i / 2] >> 4) } else { hex_char_of(b[i / 2] & 0xf) })
}

/// The bytes a hexadecimal string stands for, one per digit pair.
pub open spec fn hex_bytes_of(s: Seq<char>) -> Seq<u8> {
    Seq::new(s.len() / 2, |i: int| (hex_val(s[2 * i]) * 16 + hex_val(s[2 * i + 1])) as u8)
}

/// Relies on hex::encode: two lowercase digits for each byte, in order.
#[verifier::external_body]
pub(crate) fn hex_encode(b: &Vec<u8>) -> (r: String)
    ensures
        r@ == hex_of(b@),
{
    hex::encode(b)
}

/// Relies on hex::decode: succeeds exactly on even-length strings of
/// hexadecimal digits of either case, returning one byte per digit pair.
#[verifier::external_body]
pub(crate) fn hex_decode(s: &str) -> (r: Result<Vec<u8>, Error>)
    ensures
        r is Ok <==> is_hex_seq(s@),
        r is Ok ==> r->Ok_0@ == hex_bytes_of(s@),
        r is Err ==> r->Err_0 == Error::DecodeError,
{
    match hex::decode(s) {
        Ok(v) => Ok(v),
        Err(_) => Err(Error::DecodeError),
    }
}

} // verus!
