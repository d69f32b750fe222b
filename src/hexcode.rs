use vstd::prelude::*;

verus! {

/// The lowercase hex digit for a value below sixteen.
pub open spec fn hex_digit(n: int) -> char {
    if n == 0 { '0' } else if n == 1 { '1' } else if n == 2 { '2' } else if n == 3 { '3' }
    else if n == 4 { '4' } else if n == 5 { '5' } else if n == 6 { '6' } else if n == 7 { '7' }
    else if n == 8 { '8' } else if n == 9 { '9' } else if n == 10 { 'a' } else if n == 11 { 'b' }
    else if n == 12 { 'c' } else if n == 13 { 'd' } else if n == 14 { 'e' } else { 'f' }
}

/// Two lowercase hex digits for each byte, the high one first.
pub open spec fn hex_of(b: Seq<u8>) -> Seq<char>
    decreases b.len(),
{
    if b.len() == 0 {
        Seq::empty()
    } else {
        hex_of(b.drop_last()) + seq![hex_digit(b.last() as int / 16), hex_digit(b.last() as int % 16)]
    }
}

/// A hex digit of either case.
pub open spec fn is_hex_char(c: char) -> bool {
    ('0' <= c && c <= '9') || ('a' <= c && c <= 'f') || ('A' <= c && c <= 'F')
}

/// The value of a hex digit.
pub open spec fn hex_value(c: char) -> int {
    if '0' <= c && c <= '9' {
        c as int - '0' as int
    } else if 'a' <= c && c <= 'f' {
        c as int - 'a' as int + 10
    } else {
        c as int - 'A' as int + 10
    }
}

/// `s` is the hex text of exactly `n` bytes.
pub open spec fn is_hex_of_len(s: Seq<char>, n: int) -> bool {
    s.len() == 2 * n && forall|i: int| 0 <= i < s.len() ==> is_hex_char(#[trigger] s[i])
}

/// The bytes that the hex text `s` spells.
pub open spec fn bytes_of_hex(s: Seq<char>) -> Seq<u8> {
    Seq::new(s.len() / 2, |i: int| (hex_value(s[2 * i]) * 16 + hex_value(s[2 * i + 1])) as u8)
}

/// Relies on `hex::encode`: two lowercase hex digits per byte, the high one first.
#[verifier::external_body]
pub(crate) fn hex_encode(b: &Vec<u8>) -> (r: String)
    ensures
        r@ == hex_of(b@),
{
    hex::encode(b)
}

/// Relies on `hex::decode_to_slice`: it fills exactly `n` bytes from text of `2 * n` hex
/// digits of either case, and fails on any other text.
#[verifier::external_body]
pub(crate) fn hex_decode_exact(s: &str, n: usize) -> (r: Option<Vec<u8>>)
    ensures
        r.is_some() <==> is_hex_of_len(s@, n as int),
        r matches Some(b) ==> b@ == bytes_of_hex(s@),
{
    let mut out = vec![0u8; n];
    match hex::decode_to_slice(s.as_bytes(), &mut out) {
        Ok(()) => Some(out),
        Err(_) => None,
    }
}

} // verus!
