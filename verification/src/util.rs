//! Hexadecimal text and raw bytes.

use crate::text::{has_prefix, prefix_offset, without_prefix, LETTER_X, NINE, ZERO};
use hex::FromHexError;
use vstd::prelude::*;
use vstd::slice::slice_subrange;
use vstd::string::StringSliceAdditionalSpecFns;
use vstd::utf8::{encode_utf8, is_ascii_chars, is_ascii_chars_encode_utf8};

verus! {

/// Why a command line is refused.
#[derive(Debug)]
pub enum CmdError {
    /// No subcommand goes by this name.
    UnknownSubcommand(String),
}

impl CmdError {
    /// The message of this error.
    pub open spec fn spec_text(self) -> Seq<char> {
        match self {
            CmdError::UnknownSubcommand(c) => "unknown command "@ + c@,
        }
    }

    /// The message of this error, for display.
    pub fn to_string(&self) -> (r: String)
        ensures
            r@ == self.spec_text(),
    {
        match self {
            CmdError::UnknownSubcommand(c) => String::from_str("unknown command ").concat(
                c.as_str(),
            ),
        }
    }
}

/// The error of the `hex` crate's decoder, with its variants as the crate
/// declares them.
#[verifier::external_type_specification]
pub struct ExFromHexError(FromHexError);

/// ASCII `a`.
pub const LOWER_A: u8 = 0x61;

/// ASCII `f`.
pub const LOWER_F: u8 = 0x66;

/// ASCII `A`.
pub const UPPER_A: u8 = 0x41;

/// ASCII `F`.
pub const UPPER_F: u8 = 0x46;

/// A hexadecimal digit of either case.
pub open spec fn is_hex_digit(c: u8) -> bool {
    ZERO <= c <= NINE || LOWER_A <= c <= LOWER_F || UPPER_A <= c <= UPPER_F
}

/// The number from 0 to 15 that a hexadecimal digit stands for.
pub open spec fn hex_digit_value(c: u8) -> nat
    recommends
        is_hex_digit(c),
{
    if c <= NINE {
        (c - ZERO) as nat
    } else if c <= UPPER_F {
        (c - UPPER_A + 10) as nat
    } else {
        (c - LOWER_A + 10) as nat
    }
}

/// Hexadecimal text: an even number of hexadecimal digits.
pub open spec fn is_hex(s: Seq<u8>) -> bool {
    s.len() % 2 == 0 && forall|i: int| 0 <= i < s.len() ==> is_hex_digit(#[trigger] s[i])
}

/// The bytes that hexadecimal text spells, two digits to the byte.
pub open spec fn hex_bytes(s: Seq<u8>) -> Seq<u8>
    recommends
        is_hex(s),
{
    Seq::new(
        s.len() / 2,
        |i: int| (hex_digit_value(s[2 * i]) * 16 + hex_digit_value(s[2 * i + 1])) as u8,
    )
}

/// The text `0x`.
pub open spec fn hex_marker() -> Seq<u8> {
    seq![ZERO, LETTER_X]
}

/// The index of the first byte of `s` that is no hexadecimal digit, or
/// `s.len()`.
pub open spec fn first_foreign(s: Seq<u8>) -> nat
    decreases s.len(),
{
    if s.len() == 0 || !is_hex_digit(s[0]) {
        0
    } else {
        1 + first_foreign(s.skip(1))
    }
}

/// What decoding `s` gives: its bytes, or the decoder's complaint. An odd
/// length is reported before any foreign byte.
pub open spec fn spec_decode(s: Seq<u8>) -> Result<Seq<u8>, FromHexError> {
    if s.len() % 2 != 0 {
        Err(FromHexError::OddLength)
    } else if first_foreign(s) < s.len() {
        Err(
            FromHexError::InvalidHexCharacter {
                c: s[first_foreign(s) as int] as char,
                index: first_foreign(s) as usize,
            },
        )
    } else {
        Ok(hex_bytes(s))
    }
}

/// `hex::decode` on a byte string. The contract is the decoder's source read
/// as a table: an odd length gives `OddLength`; otherwise the first byte that
/// is no digit of either case gives `InvalidHexCharacter` with that byte and
/// its index; otherwise each pair of digits gives one byte, high digit first.
#[verifier::external_body]
fn hex_decode(data: &[u8]) -> (r: Result<Vec<u8>, FromHexError>)
    ensures
        match spec_decode(data@) {
            Ok(bytes) => r is Ok && r->Ok_0@ == bytes,
            Err(e) => r == Err::<Vec<u8>, FromHexError>(e),
        },
{
    hex::decode(data)
}

/// `first_foreign` gives the first byte that is no hexadecimal digit: every
/// byte before it is one.
pub proof fn lemma_first_foreign(s: Seq<u8>)
    ensures
        first_foreign(s) <= s.len(),
        first_foreign(s) < s.len() ==> !is_hex_digit(s[first_foreign(s) as int]),
        forall|i: int| 0 <= i < first_foreign(s) ==> is_hex_digit(#[trigger] s[i]),
    decreases s.len(),
{
    if s.len() == 0 || !is_hex_digit(s[0]) {
    } else {
        let t = s.skip(1);
        lemma_first_foreign(t);
        assert forall|i: int| 0 <= i < first_foreign(s) implies is_hex_digit(#[trigger] s[i]) by {
            if i > 0 {
                assert(t[i - 1] == s[i]);
            }
        }
        if first_foreign(t) < t.len() {
            assert(t[first_foreign(t) as int] == s[first_foreign(s) as int]);
        }
    }
}

/// Hexadecimal digits without a marker decode to the bytes that they spell,
/// half as many as there are digits, where these are even in number; an odd
/// number of them is refused for that.
pub proof fn lemma_decode_hex_of_digits(s: Seq<u8>)
    requires
        forall|i: int| 0 <= i < s.len() ==> is_hex_digit(#[trigger] s[i]),
    ensures
        s.len() % 2 == 0 ==> spec_decode_hex(s) == Ok::<Seq<u8>, FromHexError>(hex_bytes(s)),
        s.len() % 2 != 0 ==> spec_decode_hex(s) == Err::<Seq<u8>, FromHexError>(
            FromHexError::OddLength,
        ),
        hex_bytes(s).len() == s.len() / 2,
{
    lemma_first_foreign(s);
    if hex_marker().is_prefix_of(s) {
        assert(s[1] == hex_marker()[1]);
        assert(!is_hex_digit(s[1]));
    }
    assert(without_prefix(s, hex_marker()) == s);
}

/// The message that the `hex` crate displays for a foreign byte, which shows
/// the byte as a character and its index.
pub uninterp spec fn foreign_byte_message(c: char, index: usize) -> Seq<char>;

/// The message of a complaint of the decoder.
pub open spec fn hex_error_message(e: FromHexError) -> Seq<char> {
    match e {
        FromHexError::InvalidHexCharacter { c, index } => foreign_byte_message(c, index),
        FromHexError::OddLength => "Odd number of digits"@,
        FromHexError::InvalidStringLength => "Invalid string length"@,
    }
}

/// The message that `FromHexError` displays: a fixed sentence for each of the
/// two complaints about length, and for a foreign byte a sentence made of
/// the byte and its index.
#[verifier::external_body]
pub(crate) fn hex_error_text(e: &FromHexError) -> (r: String)
    ensures
        match *e {
            FromHexError::InvalidHexCharacter { c, index } => r@ == foreign_byte_message(c, index),
            FromHexError::OddLength => r@ == "Odd number of digits"@,
            FromHexError::InvalidStringLength => r@ == "Invalid string length"@,
        },
{
    e.to_string()
}

/// The lower-case hexadecimal digit for a number from 0 to 15.
pub open spec fn lower_hex_char(n: nat) -> char
    recommends
        n < 16,
{
    if n < 10 {
        ((ZERO + n) as u8) as char
    } else {
        ((LOWER_A + n - 10) as u8) as char
    }
}

/// The lower-case hexadecimal text of `b`, two digits to the byte, high
/// digit first.
pub open spec fn hex_text(b: Seq<u8>) -> Seq<char> {
    Seq::new(
        2 * b.len(),
        |i: int|
            if i % 2 == 0 {
                lower_hex_char((b[i / 2] / 16) as nat)
            } else {
                lower_hex_char((b[i / 2] % 16) as nat)
            },
    )
}

/// `hex::encode` on a byte string: every byte becomes two lower-case digits
/// from the table `0123456789abcdef`, the high four bits first.
#[verifier::external_body]
pub(crate) fn hex_encode(data: &[u8]) -> (r: String)
    ensures
        r@ == hex_text(data@),
{
    hex::encode(data)
}

/// The text that [`encode_hex`] writes for `b`, as bytes.
pub open spec fn encoded_hex(b: Seq<u8>) -> Seq<u8> {
    encode_utf8("0x"@ + hex_text(b))
}

/// What [`encode_hex`] writes, [`decode_hex`] reads back: the marker is
/// dropped and every two digits give the byte that they were written for.
pub proof fn lemma_hex_round_trip(b: Seq<u8>)
    ensures
        spec_decode_hex(encoded_hex(b)) == Ok::<Seq<u8>, FromHexError>(b),
{
    let chars = "0x"@ + hex_text(b);
    let bytes = encoded_hex(b);
    let digits = bytes.skip(2);
    reveal_strlit("0x");
    assert(is_ascii_chars(chars)) by {
        assert forall|i: int| 0 <= i < chars.len() implies '\0' <= #[trigger] chars[i]
            <= '\u{7f}' by {
            if i >= 2 {
                assert(chars[i] == hex_text(b)[i - 2]);
            }
        }
    }
    is_ascii_chars_encode_utf8(chars);
    assert(bytes.len() == 2 + 2 * b.len());
    assert forall|i: int| 0 <= i < digits.len() implies #[trigger] digits[i] == (if i % 2 == 0 {
        lower_hex_char((b[i / 2] / 16) as nat)
    } else {
        lower_hex_char((b[i / 2] % 16) as nat)
    }) as u8 by {
        assert(digits[i] == bytes[i + 2]);
        assert(chars[i + 2] == hex_text(b)[i]);
    }
    assert forall|i: int| 0 <= i < digits.len() implies is_hex_digit(#[trigger] digits[i]) by {}
    assert(bytes[0] == ZERO && bytes[1] == LETTER_X);
    assert(hex_marker().is_prefix_of(bytes)) by {
        assert(bytes.subrange(0, 2) =~= hex_marker());
    }
    assert(without_prefix(bytes, hex_marker()) == digits);
    lemma_first_foreign(digits);
    assert(hex_bytes(digits) =~= b) by {
        assert forall|i: int| 0 <= i < b.len() implies hex_bytes(digits)[i] == b[i] by {
            let high = (b[i] / 16) as nat;
            let low = (b[i] % 16) as nat;
            assert(digits[2 * i] == lower_hex_char(high) as u8);
            assert(digits[2 * i + 1] == lower_hex_char(low) as u8);
            assert(hex_digit_value(digits[2 * i]) == high);
            assert(hex_digit_value(digits[2 * i + 1]) == low);
        }
    }
}

/// What [`decode_hex`] makes of `input`: one `0x` in front is dropped and the
/// rest is decoded.
pub open spec fn spec_decode_hex(input: Seq<u8>) -> Result<Seq<u8>, FromHexError> {
    spec_decode(without_prefix(input, hex_marker()))
}

/// The text of `input` as `0x` followed by its lower-case hexadecimal digits.
pub fn encode_hex(input: &Vec<u8>) -> (out: String)
    ensures
        out@ == "0x"@ + hex_text(input@),
{
    let digits = hex_encode(input.as_slice());
    let out = String::from_str("0x");
    out.concat(digits.as_str())
}

/// Decodes hexadecimal text, with or without `0x` in front.
pub fn decode_hex(input: &str) -> (r: Result<Vec<u8>, FromHexError>)
    ensures
        match spec_decode_hex(input.spec_bytes()) {
            Ok(bytes) => r is Ok && r->Ok_0@ == bytes,
            Err(e) => r == Err::<Vec<u8>, FromHexError>(e),
        },
{
    let bytes = input.as_bytes();
    let marker: [u8; 2] = [ZERO, LETTER_X];
    assert(marker@ =~= hex_marker());
    let at = prefix_offset(bytes, marker.as_slice());
    let body = slice_subrange(bytes, at, bytes.len());
    assert(body@ =~= bytes@.skip(at as int));
    hex_decode(body)
}

/// Why text given as input is refused.
#[derive(Debug)]
pub enum InputError {
    /// The text does not start with `0x`.
    NotHex,
    /// What follows `0x` is no hexadecimal text.
    Malformed(FromHexError),
}

impl InputError {
    /// The message of this error: a sentence of this library, or the
    /// decoder's own message.
    pub open spec fn spec_text(self) -> Seq<char> {
        match self {
            InputError::NotHex => "data is not hex-encoded"@,
            InputError::Malformed(e) => hex_error_message(e),
        }
    }

    /// The message of this error, for display.
    pub fn to_string(&self) -> (r: String)
        ensures
            r@ == self.spec_text(),
    {
        match self {
            InputError::NotHex => String::from_str("data is not hex-encoded"),
            InputError::Malformed(e) => hex_error_text(e),
        }
    }
}

/// What [`parse_hex_input`] makes of `input`.
pub open spec fn spec_hex_input(input: Seq<u8>) -> Result<Seq<u8>, InputError> {
    if !hex_marker().is_prefix_of(input) {
        Err(InputError::NotHex)
    } else {
        match spec_decode_hex(input) {
            Ok(bytes) => Ok(bytes),
            Err(e) => Err(InputError::Malformed(e)),
        }
    }
}

/// The bytes that `input` spells, which must be hexadecimal text with `0x` in
/// front.
pub fn parse_hex_input(input: &str) -> (r: Result<Vec<u8>, InputError>)
    ensures
        match spec_hex_input(input.spec_bytes()) {
            Ok(bytes) => r is Ok && r->Ok_0@ == bytes,
            Err(e) => r == Err::<Vec<u8>, InputError>(e),
        },
{
    let marker: [u8; 2] = [ZERO, LETTER_X];
    assert(marker@ =~= hex_marker());
    if !has_prefix(input.as_bytes(), marker.as_slice()) {
        return Err(InputError::NotHex);
    }
    match decode_hex(input) {
        Ok(bytes) => Ok(bytes),
        Err(e) => Err(InputError::Malformed(e)),
    }
}

} // verus!
