//! One word of a Cairo byte array: a decimal token whose integer, written in
//! hexadecimal, spells the bytes of a piece of text.

use crate::decimal::{digits_value, is_digit};
use crate::error::DecodeError;
use num::BigInt;
use num::bigint::ParseBigIntError;
use hex::FromHexError;
use std::string::FromUtf8Error;
use vstd::prelude::*;
use vstd::utf8::{decode_utf8, valid_utf8};

verus! {

/// The error of `num`'s integer parser; nothing of it is read.
#[verifier::external_type_specification]
#[verifier::external_body]
pub struct ExParseBigIntError(ParseBigIntError);

/// The error of `hex::decode`; nothing of it is read.
#[verifier::external_type_specification]
#[verifier::external_body]
pub struct ExFromHexError(FromHexError);

/// The error of `String::from_utf8`; nothing of it is read.
#[verifier::external_type_specification]
#[verifier::external_body]
pub struct ExFromUtf8Error(FromUtf8Error);

/// The text behind an optional leading sign, `-` or `+`.
pub open spec fn integer_body(s: Seq<char>) -> Seq<char> {
    if s.len() > 0 && (s[0] == '-' || s[0] == '+') {
        s.skip(1)
    } else {
        s
    }
}

/// Whether `s` writes a decimal integer of any size: an optional sign, a
/// digit, then digits and underscores.
pub open spec fn is_integer_text(s: Seq<char>) -> bool {
    let body = integer_body(s);
    &&& body.len() > 0
    &&& is_digit(body[0])
    &&& forall|i: int| 0 <= i < body.len() ==> is_digit(#[trigger] body[i]) || body[i] == '_'
}

/// The integer that `s` writes; underscores between its digits do not count.
pub open spec fn integer_value(s: Seq<char>) -> int {
    let magnitude = digits_value(integer_body(s).filter(|c: char| c != '_'));
    if s.len() > 0 && s[0] == '-' {
        -magnitude
    } else {
        magnitude as int
    }
}

/// The lower-case hexadecimal digit for `d`, for `d` below 16.
pub open spec fn hex_digit(d: nat) -> char {
    if d < 10 {
        ('0' as nat + d) as char
    } else {
        ('a' as nat + d - 10) as char
    }
}

/// The hexadecimal digits of `n`, without leading zeros; `0` for zero.
pub open spec fn hex_digits(n: nat) -> Seq<char>
    decreases n,
{
    if n < 16 {
        seq![hex_digit(n)]
    } else {
        hex_digits(n / 16).push(hex_digit(n % 16))
    }
}

/// An integer in lower-case hexadecimal, with `-` before a negative one.
pub open spec fn hex_text(v: int) -> Seq<char> {
    if v < 0 {
        seq!['-'] + hex_digits((-v) as nat)
    } else {
        hex_digits(v as nat)
    }
}

/// The number that a hexadecimal digit of either case stands for.
pub open spec fn hex_digit_value(c: char) -> Option<nat> {
    if '0' <= c <= '9' {
        Some((c as int - '0' as int) as nat)
    } else if 'a' <= c <= 'f' {
        Some((c as int - 'a' as int + 10) as nat)
    } else if 'A' <= c <= 'F' {
        Some((c as int - 'A' as int + 10) as nat)
    } else {
        None
    }
}

/// Whether `s` is an even number of hexadecimal digits.
pub open spec fn is_hex_text(s: Seq<char>) -> bool {
    &&& s.len() % 2 == 0
    &&& forall|i: int| 0 <= i < s.len() ==> hex_digit_value(#[trigger] s[i]) is Some
}

/// The bytes that the digits of `s` write, two digits to a byte.
pub open spec fn hex_bytes(s: Seq<char>) -> Seq<u8> {
    Seq::new(
        s.len() / 2,
        |i: int| (16 * hex_digit_value(s[2 * i])->0 + hex_digit_value(s[2 * i + 1])->0) as u8,
    )
}

/// The text that a word token spells. `None` where the token is no decimal
/// integer, where its hexadecimal form has an odd number of digits or a sign,
/// or where the bytes are not UTF-8.
pub open spec fn word_text(token: Seq<char>) -> Option<Seq<char>> {
    if !is_integer_text(token) {
        None
    } else {
        let hex = hex_text(integer_value(token));
        if !is_hex_text(hex) {
            None
        } else if !valid_utf8(hex_bytes(hex)) {
            None
        } else {
            Some(decode_utf8(hex_bytes(hex)))
        }
    }
}

/// The bytes of `n`, the first weighing most, without leading zeros; one zero
/// byte for zero.
pub open spec fn be_bytes(n: nat) -> Seq<u8>
    decreases n,
{
    if n < 256 {
        seq![n as u8]
    } else {
        be_bytes(n / 256).push((n % 256) as u8)
    }
}

/// What `word_text` comes to: the UTF-8 text of the bytes of the token's
/// integer, where the integer is positive and its first byte is at least 16.
pub open spec fn bytes_text(v: int) -> Option<Seq<char>> {
    if v > 0 && be_bytes(v as nat)[0] >= 16 && valid_utf8(be_bytes(v as nat)) {
        Some(decode_utf8(be_bytes(v as nat)))
    } else {
        None
    }
}

/// Each hexadecimal digit stands for the number it was made from.
pub proof fn lemma_hex_digit_value(d: nat)
    requires
        d < 16,
    ensures
        hex_digit_value(hex_digit(d)) == Some(d),
{
}

/// The hexadecimal digits of a number pair up into its bytes exactly where
/// the first byte is at least 16; otherwise their number is odd.
pub proof fn lemma_hex_digits_bytes(n: nat)
    ensures
        be_bytes(n).len() >= 1,
        hex_digits(n).len() >= 1,
        forall|i: int|
            0 <= i < hex_digits(n).len() ==> hex_digit_value(#[trigger] hex_digits(n)[i]) is Some,
        hex_digits(n).len() % 2 == 0 <==> be_bytes(n)[0] >= 16,
        hex_digits(n).len() % 2 == 0 ==> hex_bytes(hex_digits(n)) == be_bytes(n),
    decreases n,
{
    let digits = hex_digits(n);
    if n < 16 {
        lemma_hex_digit_value(n);
    } else if n < 256 {
        let high = n / 16;
        let low = n % 16;
        lemma_hex_digit_value(high);
        lemma_hex_digit_value(low);
        assert(hex_digits(high) == seq![hex_digit(high)]);
        assert(digits =~= seq![hex_digit(high), hex_digit(low)]);
        assert(hex_bytes(digits) =~= be_bytes(n));
    } else {
        let upper = n / 256;
        let high = (n / 16) % 16;
        let low = n % 16;
        lemma_hex_digits_bytes(upper);
        lemma_hex_digit_value(high);
        lemma_hex_digit_value(low);
        let before = hex_digits(upper);
        assert((n / 16) / 16 == upper);
        assert(hex_digits(n / 16) == before.push(hex_digit(high)));
        assert(digits == before.push(hex_digit(high)).push(hex_digit(low)));
        assert(be_bytes(n)[0] == be_bytes(upper)[0]);
        if digits.len() % 2 == 0 {
            let half = before.len() / 2;
            assert(16 * high + low == n % 256);
            assert forall|i: int| 0 <= i < digits.len() / 2 implies hex_bytes(digits)[i]
                == be_bytes(n)[i] by {
                if i < half {
                    assert(digits[2 * i] == before[2 * i]);
                    assert(digits[2 * i + 1] == before[2 * i + 1]);
                    assert(hex_bytes(before)[i] == be_bytes(upper)[i]);
                } else {
                    assert(digits[2 * i] == hex_digit(high));
                    assert(digits[2 * i + 1] == hex_digit(low));
                }
            }
            assert(hex_bytes(digits) =~= be_bytes(n));
        }
    }
}

/// A word spells the UTF-8 text of the bytes of its integer. A token whose
/// integer is zero or negative, or has a first byte below 16, has no text.
pub proof fn lemma_word_text_is_bytes_text(token: Seq<char>)
    requires
        is_integer_text(token),
    ensures
        word_text(token) == bytes_text(integer_value(token)),
{
    let v = integer_value(token);
    if v < 0 {
        let hex = hex_text(v);
        assert(hex[0] == '-');
        assert(hex_digit_value(hex[0]) is None);
    } else {
        lemma_hex_digits_bytes(v as nat);
    }
}

/// Parses `token` with `num`'s `BigInt::from_str` and formats the integer
/// with `{:x}`. The contract claims of the parser that it accepts an optional
/// sign, then a digit, then digits and underscores, and nothing else, and that
/// underscores do not count; of the formatting, that it writes `-` before a
/// negative integer and then the lower-case digits without leading zeros.
#[verifier::external_body]
fn decimal_to_hex(token: &str) -> (r: Result<String, ParseBigIntError>)
    ensures
        r is Ok <==> is_integer_text(token@),
        r matches Ok(hex) ==> hex@ == hex_text(integer_value(token@)),
{
    match token.parse::<BigInt>() {
        Ok(n) => Ok(format!("{:x}", n)),
        Err(e) => Err(e),
    }
}

/// Calls `hex::decode`. The contract claims that it accepts an even number
/// of hexadecimal digits of either case, and nothing else, and that each pair
/// of digits gives one byte, the first digit weighing 16.
#[verifier::external_body]
fn hex_to_bytes(hex: &str) -> (r: Result<Vec<u8>, FromHexError>)
    ensures
        r is Ok <==> is_hex_text(hex@),
        r matches Ok(bytes) ==> bytes@ == hex_bytes(hex@),
{
    hex::decode(hex)
}

/// `String::from_utf8` accepts the bytes that are valid UTF-8, and the string
/// holds the characters that they encode.
pub assume_specification[ String::from_utf8 ](vec: Vec<u8>) -> (r: Result<String, FromUtf8Error>)
    ensures
        r is Ok <==> valid_utf8(vec@),
        r matches Ok(text) ==> text@ == decode_utf8(vec@),
;

/// Decodes one word of a byte array into the text that it spells.
pub fn decode_word(token: &str) -> (r: Result<String, DecodeError>)
    ensures
        match word_text(token@) {
            Some(text) => r matches Ok(word) && word@ == text,
            None => r matches Err(DecodeError::AddressDecodeError),
        },
{
    let hex: String = match decimal_to_hex(token) {
        Ok(hex) => hex,
        Err(_) => return Err(DecodeError::AddressDecodeError),
    };
    let bytes: Vec<u8> = match hex_to_bytes(hex.as_str()) {
        Ok(bytes) => bytes,
        Err(_) => return Err(DecodeError::AddressDecodeError),
    };
    match String::from_utf8(bytes) {
        Ok(word) => Ok(word),
        Err(_) => Err(DecodeError::AddressDecodeError),
    }
}

} // verus!
