//! Hexadecimal text.

use vstd::prelude::*;

verus! {

/// The value of a hexadecimal digit, in either case.
pub open spec fn hex_digit(c: char) -> Option<int> {
    if '0' <= c && c <= '9' {
        Some(c as int - 48)
    } else if 'a' <= c && c <= 'f' {
        Some(c as int - 87)
    } else if 'A' <= c && c <= 'F' {
        Some(c as int - 55)
    } else {
        None
    }
}

/// Whether `s` is an even number of hexadecimal digits.
pub open spec fn is_hex(s: Seq<char>) -> bool {
    s.len() % 2 == 0 && forall|i: int| 0 <= i < s.len() ==> hex_digit(#[trigger] s[i]) is Some
}

/// The bytes written in `s`, two digits each.
pub open spec fn hex_bytes(s: Seq<char>) -> Seq<u8> {
    Seq::new(
        s.len() / 2,
        |i: int| (16 * hex_digit(s[2 * i])->0 + hex_digit(s[2 * i + 1])->0) as u8,
    )
}

/// The lower-case digit of a value below sixteen.
pub open spec fn hex_char(v: int) -> char {
    if v < 10 {
        ((48 + v) as u8) as char
    } else {
        ((87 + v) as u8) as char
    }
}

/// `b` written in lower-case hexadecimal.
pub open spec fn hex_text(b: Seq<u8>) -> Seq<char> {
    Seq::new(
        2 * b.len(),
        |i: int|
            hex_char(
                if i % 2 == 0 {
                    b[i / 2] as int / 16
                } else {
                    b[i / 2] as int % 16
                },
            ),
    )
}

/// `hex::decode`: the bytes that an even number of hexadecimal digits (of either
/// case) stands for, and an error for any other text.
#[verifier::external_body]
pub(crate) fn decode(s: &str) -> (r: Option<Vec<u8>>)
    ensures
        r is Some <==> is_hex(s@),
        r is Some ==> r->0@ == hex_bytes(s@),
{
    hex::decode(s).ok()
}

/// `hex::encode`: two lower-case hexadecimal digits for each byte.
#[verifier::external_body]
pub(crate) fn encode(b: &[u8]) -> (r: String)
    ensures
        r@ == hex_text(b@),
{
    hex::encode(b)
}

/// Bytes in hexadecimal read back, and are written in lower case.
pub proof fn hexadecimal_reads_back(b: Seq<u8>)
    ensures
        is_hex(hex_text(b)),
        hex_bytes(hex_text(b)) == b,
        hex_text(b).len() == 2 * b.len(),
        forall|i: int|
            0 <= i < hex_text(b).len() ==> ('0' <= #[trigger] hex_text(b)[i] && hex_text(b)[i]
                <= '9') || ('a' <= hex_text(b)[i] && hex_text(b)[i] <= 'f'),
{
    let t = hex_text(b);
    assert forall|i: int| 0 <= i < t.len() implies hex_digit(#[trigger] t[i]) == Some(
        if i % 2 == 0 {
            b[i / 2] as int / 16
        } else {
            b[i / 2] as int % 16
        },
    ) by {}
    assert forall|i: int| 0 <= i < b.len() implies #[trigger] hex_bytes(t)[i] == b[i] by {
        assert(hex_digit(t[2 * i]) == Some(b[i] as int / 16));
        assert(hex_digit(t[2 * i + 1]) == Some(b[i] as int % 16));
    }
    assert(hex_bytes(t) =~= b);
}

} // verus!
