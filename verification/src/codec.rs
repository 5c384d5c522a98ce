//! Text out of bytes: UTF-8 where the bytes are UTF-8, lowercase
//! hexadecimal where they are not.

use vstd::prelude::*;
use vstd::utf8::{decode_utf8, valid_utf8};

verus! {

/// The sixteen lowercase hexadecimal digits, by value.
pub open spec fn lower_hex_digits() -> Seq<char> {
    seq!['0', '1', '2', '3', '4', '5', '6', '7', '8', '9', 'a', 'b', 'c', 'd', 'e', 'f']
}

/// Lowercase hexadecimal text of a byte string: two digits per byte, the
/// high half first.
pub open spec fn hex_encode_spec(bytes: Seq<u8>) -> Seq<char> {
    Seq::new(
        2 * bytes.len(),
        |i: int|
            lower_hex_digits()[if i % 2 == 0 {
                bytes[i / 2] as int / 16
            } else {
                bytes[i / 2] as int % 16
            }],
    )
}

/// Value of a hexadecimal digit of either case, if the character is one.
pub open spec fn hex_value(c: char) -> Option<int> {
    if '0' <= c <= '9' {
        Some(c as int - '0' as int)
    } else if 'a' <= c <= 'f' {
        Some(c as int - 'a' as int + 10)
    } else if 'A' <= c <= 'F' {
        Some(c as int - 'A' as int + 10)
    } else {
        None
    }
}

/// Text that stands for a byte string: an even number of hexadecimal
/// digits.
pub open spec fn is_hex_text(text: Seq<char>) -> bool {
    &&& text.len() % 2 == 0
    &&& forall|i: int| 0 <= i < text.len() ==> (#[trigger] hex_value(text[i])) is Some
}

/// The byte string that hexadecimal text stands for.
pub open spec fn hex_decode_spec(text: Seq<char>) -> Seq<u8> {
    Seq::new(
        text.len() / 2,
        |i: int| (16 * hex_value(text[2 * i]).unwrap() + hex_value(text[2 * i + 1]).unwrap()) as u8,
    )
}

/// The text that a byte string is shown as: its UTF-8 reading where it has
/// one, else its lowercase hexadecimal form.
pub open spec fn text_of(bytes: Seq<u8>) -> Seq<char> {
    if valid_utf8(bytes) {
        decode_utf8(bytes)
    } else {
        hex_encode_spec(bytes)
    }
}

/// Decimal digits of a number, most significant first, without leading
/// zeros. The ten decimal digits are the first ten hexadecimal ones.
pub open spec fn decimal_digits(n: nat) -> Seq<char>
    decreases n,
{
    if n < 10 {
        seq![lower_hex_digits()[n as int]]
    } else {
        decimal_digits(n / 10).push(lower_hex_digits()[(n % 10) as int])
    }
}

/// Calls `String::from_utf8` on a copy of the bytes. Trusted: the call
/// succeeds exactly on well-formed UTF-8 and then yields the characters
/// that the bytes encode.
#[verifier::external_body]
pub(crate) fn string_from_utf8(bytes: &Vec<u8>) -> (text: Option<String>)
    ensures
        text is Some <==> valid_utf8(bytes@),
        text is Some ==> text->0@ == decode_utf8(bytes@),
{
    String::from_utf8(bytes.clone()).ok()
}

/// Calls `hex::encode`. Trusted: the result has two lowercase hexadecimal
/// digits for each byte, in order, the high four bits first.
#[verifier::external_body]
pub(crate) fn hex_encode(bytes: &Vec<u8>) -> (text: String)
    ensures
        text@ == hex_encode_spec(bytes@),
{
    hex::encode(bytes)
}

/// Calls `from_hex` of `bitcoin::hashes::hex::FromHex` for `Vec<u8>`.
/// Trusted: the call succeeds exactly on an even number of hexadecimal
/// digits of either case, and each pair of digits gives one byte, the
/// first digit being its high half.
#[verifier::external_body]
pub(crate) fn hex_decode(text: &String) -> (bytes: Option<Vec<u8>>)
    ensures
        bytes is Some <==> is_hex_text(text@),
        bytes is Some ==> bytes->0@ == hex_decode_spec(text@),
{
    <Vec<u8> as bitcoin::hashes::hex::FromHex>::from_hex(text.as_str()).ok()
}

/// Calls `to_string` on an unsigned integer. Trusted: the result is the
/// number in decimal, without sign or leading zeros.
#[verifier::external_body]
pub(crate) fn decimal_string(n: usize) -> (text: String)
    ensures
        text@ == decimal_digits(n as nat),
{
    n.to_string()
}

/// Shows bytes as text: as UTF-8 if they are well-formed UTF-8, else in
/// lowercase hexadecimal.
pub fn utf8_or_hex(bytes: &Vec<u8>) -> (text: String)
    ensures
        text@ == text_of(bytes@),
{
    match string_from_utf8(bytes) {
        Some(text) => text,
        None => hex_encode(bytes),
    }
}

/// Hexadecimal text reads back as the bytes it was written from.
pub proof fn lemma_hex_round_trip(bytes: Seq<u8>)
    ensures
        is_hex_text(hex_encode_spec(bytes)),
        hex_decode_spec(hex_encode_spec(bytes)) == bytes,
{
    let text = hex_encode_spec(bytes);
    assert forall|n: int| 0 <= n < 16 implies hex_value(#[trigger] lower_hex_digits()[n]) == Some(
        n,
    ) by {
        if n == 0 {
        } else if n == 1 {
        } else if n == 2 {
        } else if n == 3 {
        } else if n == 4 {
        } else if n == 5 {
        } else if n == 6 {
        } else if n == 7 {
        } else if n == 8 {
        } else if n == 9 {
        } else if n == 10 {
        } else if n == 11 {
        } else if n == 12 {
        } else if n == 13 {
        } else if n == 14 {
        } else {
        }
    }
    assert forall|i: int| 0 <= i < text.len() implies (#[trigger] hex_value(text[i])) is Some by {
        let b = bytes[i / 2] as int;
        if i % 2 == 0 {
            assert(text[i] == lower_hex_digits()[b / 16]);
        } else {
            assert(text[i] == lower_hex_digits()[b % 16]);
        }
    }
    assert forall|i: int| 0 <= i < bytes.len() implies hex_decode_spec(text)[i] == bytes[i] by {
        let b = bytes[i] as int;
        assert((2 * i) / 2 == i && (2 * i) % 2 == 0);
        assert((2 * i + 1) / 2 == i && (2 * i + 1) % 2 == 1);
        assert(text[2 * i] == lower_hex_digits()[b / 16]);
        assert(text[2 * i + 1] == lower_hex_digits()[b % 16]);
        assert(16 * (b / 16) + b % 16 == b);
    }
    assert(hex_decode_spec(text) =~= bytes);
}

} // verus!
