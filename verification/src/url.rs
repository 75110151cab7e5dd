//! Percent-encoding for links and cookie paths, and the text form of
//! identifiers.

use vstd::prelude::*;
use vstd::utf8::encode_utf8;

use crate::json::{hex_digit, push_char};

verus! {

/// The upper-case hexadecimal digit of `d` (below 16).
pub open spec fn upper_hex_digit(d: int) -> char {
    if d < 10 {
        hex_digit(d)
    } else if d == 10 {
        'A'
    } else if d == 11 {
        'B'
    } else if d == 12 {
        'C'
    } else if d == 13 {
        'D'
    } else if d == 14 {
        'E'
    } else {
        'F'
    }
}

/// An ASCII letter or digit.
pub open spec fn is_alphanumeric_byte(b: u8) -> bool {
    (0x30 <= b <= 0x39) || (0x41 <= b <= 0x5a) || (0x61 <= b <= 0x7a)
}

/// A byte that `urlencoding::encode` leaves as it is: a letter, a digit,
/// `-`, `.`, `_` or `~`.
pub open spec fn url_safe_byte(b: u8) -> bool {
    is_alphanumeric_byte(b) || b == 0x2d || b == 0x2e || b == 0x5f || b == 0x7e
}

/// The bytes percent-encoded as `urlencoding::encode` writes them: safe
/// bytes as characters, every other byte as `%` and two upper-case
/// hexadecimal digits.
pub open spec fn url_encoded(bytes: Seq<u8>) -> Seq<char>
    decreases bytes.len(),
{
    if bytes.len() == 0 {
        Seq::empty()
    } else {
        let b = bytes.last();
        url_encoded(bytes.drop_last()) + if url_safe_byte(b) {
            seq![b as char]
        } else {
            seq!['%', upper_hex_digit(b as int / 16), upper_hex_digit(b as int % 16)]
        }
    }
}

/// A byte that `uri_encode::encode_uri_component` leaves as it is: a letter,
/// a digit, or one of `-`, `_`, `.`, `!`, `~`, `*`, `'`, `(`, `)`.
pub open spec fn uri_component_safe_byte(b: u8) -> bool {
    is_alphanumeric_byte(b) || b == 0x2d || b == 0x5f || b == 0x2e || b == 0x21 || b == 0x7e
        || b == 0x2a || b == 0x27 || b == 0x28 || b == 0x29
}

/// The bytes percent-encoded as `uri_encode::encode_uri_component` writes
/// them: safe bytes as characters, every other byte as `%` and two
/// lower-case hexadecimal digits.
pub open spec fn uri_component_encoded(bytes: Seq<u8>) -> Seq<char>
    decreases bytes.len(),
{
    if bytes.len() == 0 {
        Seq::empty()
    } else {
        let b = bytes.last();
        uri_component_encoded(bytes.drop_last()) + if uri_component_safe_byte(b) {
            seq![b as char]
        } else {
            seq!['%', hex_digit(b as int / 16), hex_digit(b as int % 16)]
        }
    }
}

/// Percent-encodes the UTF-8 bytes of `s` with `urlencoding::encode`; the
/// contract states the encoding that its source implements.
#[verifier::external_body]
pub(crate) fn url_encode(s: &str) -> (r: String)
    ensures
        r@ == url_encoded(encode_utf8(s@)),
{
    urlencoding::encode(s).into_owned()
}

/// Percent-encodes the UTF-8 bytes of `s` with
/// `uri_encode::encode_uri_component`; the contract states the encoding that
/// its source implements.
#[verifier::external_body]
pub(crate) fn uri_component(s: &str) -> (r: String)
    ensures
        r@ == uri_component_encoded(encode_utf8(s@)),
{
    uri_encode::encode_uri_component(s)
}

/// The last `n` hexadecimal digits of `v` (lower case), most significant
/// first.
pub open spec fn hex_digits(v: nat, n: nat) -> Seq<char>
    decreases n,
{
    if n == 0 {
        Seq::empty()
    } else {
        hex_digits(v / 16, (n - 1) as nat) + seq![hex_digit((v % 16) as int)]
    }
}

/// An identifier in the hyphenated text form that `uuid::Uuid` displays:
/// 32 lower-case hexadecimal digits in groups of 8, 4, 4, 4 and 12.
pub open spec fn uuid_text(u: u128) -> Seq<char> {
    hex_digits(u as nat / 0x1_0000_0000_0000_0000_0000_0000, 8) + seq!['-'] + hex_digits(
        u as nat / 0x1_0000_0000_0000_0000_0000,
        4,
    ) + seq!['-'] + hex_digits(u as nat / 0x1_0000_0000_0000_0000, 4) + seq!['-'] + hex_digits(
        u as nat / 0x1_0000_0000_0000,
        4,
    ) + seq!['-'] + hex_digits(u as nat, 12)
}

/// The lower-case hexadecimal digit of `d`.
fn lower_hex_char(d: u128) -> (c: char)
    requires
        d < 16,
    ensures
        c == hex_digit(d as int),
{
    match d {
        0 => '0',
        1 => '1',
        2 => '2',
        3 => '3',
        4 => '4',
        5 => '5',
        6 => '6',
        7 => '7',
        8 => '8',
        9 => '9',
        10 => 'a',
        11 => 'b',
        12 => 'c',
        13 => 'd',
        14 => 'e',
        _ => 'f',
    }
}

/// Appends the last `n` hexadecimal digits of `v`.
fn push_hex_digits(out: &mut String, v: u128, n: u32)
    ensures
        final(out)@ == old(out)@ + hex_digits(v as nat, n as nat),
    decreases n,
{
    if n == 0 {
        proof {
            assert(out@ =~= out@ + hex_digits(v as nat, 0));
        }
        return;
    }
    let ghost start = out@;
    push_hex_digits(out, v / 16, n - 1);
    push_char(out, lower_hex_char(v % 16));
    proof {
        assert(out@ =~= start + hex_digits(v as nat, n as nat));
    }
}

/// The identifier in the hyphenated text form.
pub fn uuid_to_text(u: u128) -> (r: String)
    ensures
        r@ == uuid_text(u),
{
    let mut out = String::new();
    push_hex_digits(&mut out, u / 0x1_0000_0000_0000_0000_0000_0000, 8);
    push_char(&mut out, '-');
    push_hex_digits(&mut out, u / 0x1_0000_0000_0000_0000_0000, 4);
    push_char(&mut out, '-');
    push_hex_digits(&mut out, u / 0x1_0000_0000_0000_0000, 4);
    push_char(&mut out, '-');
    push_hex_digits(&mut out, u / 0x1_0000_0000_0000, 4);
    push_char(&mut out, '-');
    push_hex_digits(&mut out, u, 12);
    proof {
        assert(out@ =~= uuid_text(u));
    }
    out
}

} // verus!
