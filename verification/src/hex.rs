//! Bytes as hexadecimal text.

use vstd::prelude::*;

verus! {

/// The character of a hexadecimal digit, in lower case.
pub open spec fn hex_digit(n: nat) -> char {
    if n < 10 {
        (0x30 + n) as u8 as char
    } else {
        (0x57 + n) as u8 as char
    }
}

/// Bytes in hexadecimal: two lower-case digits for each, the high one first.
pub open spec fn hex_text(bytes: Seq<u8>) -> Seq<char> {
    Seq::new(
        2 * bytes.len(),
        |i: int|
            hex_digit(
                if i % 2 == 0 {
                    (bytes[i / 2] / 16) as nat
                } else {
                    (bytes[i / 2] % 16) as nat
                },
            ),
    )
}

/// Whether a character is a hexadecimal digit, of either case.
pub open spec fn is_hex_digit(c: char) -> bool {
    ('0' <= c <= '9') || ('a' <= c <= 'f') || ('A' <= c <= 'F')
}

/// The number that a hexadecimal digit stands for.
pub open spec fn hex_value(c: char) -> nat {
    if c <= '9' {
        (c as nat - 0x30) as nat
    } else if c >= 'a' {
        (c as nat - 0x57) as nat
    } else {
        (c as nat - 0x37) as nat
    }
}

/// Whether a text begins with `0x` or `0X`.
pub open spec fn has_hex_prefix(text: Seq<char>) -> bool {
    text.len() >= 2 && text[0] == '0' && (text[1] == 'x' || text[1] == 'X')
}

/// The digits of a hexadecimal text: the text without its prefix, where it
/// has one.
pub open spec fn hex_digits_of(text: Seq<char>) -> Seq<char> {
    if has_hex_prefix(text) {
        text.skip(2)
    } else {
        text
    }
}

/// The bytes that a hexadecimal text denotes: an optional prefix, then an
/// even count of digits of either case, two for each byte, the high one
/// first. `None` for every other text.
pub open spec fn bytes_of_hex(text: Seq<char>) -> Option<Seq<u8>> {
    let digits = hex_digits_of(text);
    if text.len() % 2 == 0 && (forall|i: int|
        0 <= i < digits.len() ==> is_hex_digit(#[trigger] digits[i])) {
        Some(
            Seq::new(
                digits.len() / 2,
                |i: int| (16 * hex_value(digits[2 * i]) + hex_value(digits[2 * i + 1])) as u8,
            ),
        )
    } else {
        None
    }
}

/// The error of `alloy::hex` decoding, carried through unread.
#[verifier::external_type_specification]
#[verifier::external_body]
pub struct ExFromHexError(alloy::hex::FromHexError);

/// Calls `alloy::hex::encode`. Trusted: the text holds two lower-case
/// hexadecimal digits for each byte, in order, and no prefix.
#[verifier::external_body]
pub(crate) fn hex_encode(bytes: &[u8]) -> (text: String)
    ensures
        text@ == hex_text(bytes@),
{
    alloy::hex::encode(bytes)
}

/// Calls `alloy::hex::decode`. Trusted: a text of odd length is refused;
/// then a prefix `0x` or `0X` is taken off; then every character must be a
/// hexadecimal digit of either case, and each pair of them gives one byte.
#[verifier::external_body]
pub(crate) fn hex_decode(text: &str) -> (r: Result<Vec<u8>, alloy::hex::FromHexError>)
    ensures
        match r {
            Ok(bytes) => bytes_of_hex(text@) == Some(bytes@),
            Err(_) => bytes_of_hex(text@) is None,
        },
{
    alloy::hex::decode(text)
}

/// A hexadecimal digit stands for the number it was written for.
pub proof fn lemma_hex_digit_value(n: nat)
    requires
        n < 16,
    ensures
        is_hex_digit(hex_digit(n)),
        hex_value(hex_digit(n)) == n,
        hex_digit(n) != 'x',
        hex_digit(n) != 'X',
{
}

/// Bytes written in hexadecimal are read back as they were, with the prefix
/// `0x` and without it.
pub proof fn hex_round_trip(bytes: Seq<u8>)
    ensures
        bytes_of_hex(hex_text(bytes)) == Some(bytes),
        bytes_of_hex("0x"@ + hex_text(bytes)) == Some(bytes),
{
    let text = hex_text(bytes);
    assert forall|i: int| 0 <= i < text.len() implies is_hex_digit(#[trigger] text[i]) && text[i]
        != 'x' && text[i] != 'X' by {
        lemma_hex_digit_value((bytes[i / 2] / 16) as nat);
        lemma_hex_digit_value((bytes[i / 2] % 16) as nat);
    }
    assert forall|i: int| 0 <= i < bytes.len() implies (16 * hex_value(text[2 * i]) + hex_value(
        text[2 * i + 1],
    )) as u8 == bytes[i] by {
        lemma_hex_digit_value((bytes[i] / 16) as nat);
        lemma_hex_digit_value((bytes[i] % 16) as nat);
        assert((2 * i) / 2 == i && (2 * i) % 2 == 0);
        assert((2 * i + 1) / 2 == i && (2 * i + 1) % 2 == 1);
    }
    if text.len() >= 2 {
        assert(text[1] != 'x' && text[1] != 'X');
    }
    assert(!has_hex_prefix(text));
    assert(bytes_of_hex(text).unwrap() =~= bytes);

    reveal_strlit("0x");
    let prefixed = "0x"@ + text;
    assert(prefixed[0] == '0' && prefixed[1] == 'x');
    assert(has_hex_prefix(prefixed));
    assert(prefixed.skip(2) =~= text);
    assert(bytes_of_hex(prefixed).unwrap() =~= bytes);
}

} // verus!
