//! Decimal integers of any size, read by the `num-bigint` crate and handed on
//! as big-endian bytes.

use crate::bigendian::{be_signed_value, be_value, is_minimal_signed, is_minimal_unsigned};
use crate::decimal::{
    decimal_text, decimal_value, is_digit, lemma_decimal_text_digits, IntFault,
};
use crate::text::{MINUS, PLUS, UNDERSCORE, ZERO};
use num_bigint::{BigInt, BigUint};
use std::str::FromStr;
use vstd::prelude::*;
use vstd::string::StringSliceAdditionalSpecFns;
use vstd::utf8::encode_utf8;

verus! {

/// Digits with underscores between or after them: at least one byte, a digit
/// first.
pub open spec fn is_spaced_digits(b: Seq<u8>) -> bool {
    &&& b.len() > 0
    &&& b[0] != UNDERSCORE
    &&& forall|i: int| 0 <= i < b.len() ==> is_digit(#[trigger] b[i]) || b[i] == UNDERSCORE
}

/// The number that the digits of `b` spell, underscores passed over.
pub open spec fn spaced_value(b: Seq<u8>) -> nat
    decreases b.len(),
{
    if b.len() == 0 {
        0
    } else if b.last() == UNDERSCORE {
        spaced_value(b.drop_last())
    } else {
        spaced_value(b.drop_last()) * 10 + (b.last() - ZERO) as nat
    }
}

/// `s` without one leading plus sign, unless a second one follows it.
pub open spec fn unsigned_body(s: Seq<u8>) -> Seq<u8> {
    if s.len() > 0 && s[0] == PLUS && !(s.len() > 1 && s[1] == PLUS) {
        s.skip(1)
    } else {
        s
    }
}

/// The natural number that `s` spells in decimal, or why it spells none:
/// nothing is left after the sign, or a byte is out of place.
pub open spec fn unsigned_decimal(s: Seq<u8>) -> Result<nat, IntFault> {
    let body = unsigned_body(s);
    if body.len() == 0 {
        Err(IntFault::Empty)
    } else if is_spaced_digits(body) {
        Ok(spaced_value(body))
    } else {
        Err(IntFault::InvalidDigit)
    }
}

/// `s` without a leading minus sign, unless a plus sign follows it.
pub open spec fn signed_body(s: Seq<u8>) -> Seq<u8> {
    if s.len() > 0 && s[0] == MINUS && !(s.len() > 1 && s[1] == PLUS) {
        s.skip(1)
    } else {
        s
    }
}

/// The integer that `s` spells in decimal, or why it spells none. A minus
/// sign may lead; a plus sign may lead in its place, or follow it only to be
/// refused.
pub open spec fn signed_decimal(s: Seq<u8>) -> Result<int, IntFault> {
    match unsigned_decimal(signed_body(s)) {
        Err(f) => Err(f),
        Ok(m) => if s.len() > 0 && s[0] == MINUS {
            Ok(-(m as int))
        } else {
            Ok(m as int)
        },
    }
}

/// The decimal numeral of an integer, with a minus sign in front where it is
/// negative.
pub open spec fn signed_numeral(v: int) -> Seq<u8> {
    if v < 0 {
        seq![MINUS] + encode_utf8(decimal_text((-v) as nat))
    } else {
        encode_utf8(decimal_text(v as nat))
    }
}

/// Digits without underscores spell the number that they spell as a plain
/// numeral.
pub proof fn lemma_spaced_value_of_digits(d: Seq<u8>)
    requires
        forall|i: int| 0 <= i < d.len() ==> is_digit(#[trigger] d[i]),
    ensures
        spaced_value(d) == decimal_value(d),
    decreases d.len(),
{
    if d.len() > 0 {
        let init = d.drop_last();
        assert forall|i: int| 0 <= i < init.len() implies is_digit(#[trigger] init[i]) by {
            assert(init[i] == d[i]);
        }
        lemma_spaced_value_of_digits(init);
        assert(is_digit(d[d.len() - 1]));
    }
}

/// The numeral of a natural number is read as that number.
pub proof fn lemma_unsigned_numeral(v: nat)
    ensures
        unsigned_decimal(encode_utf8(decimal_text(v))) == Ok::<nat, IntFault>(v),
{
    let d = encode_utf8(decimal_text(v));
    lemma_decimal_text_digits(v);
    lemma_spaced_value_of_digits(d);
    assert(is_digit(d[0]));
    assert(unsigned_body(d) == d);
}

/// The numeral of an integer is read as that integer.
pub proof fn lemma_signed_numeral(v: int)
    ensures
        signed_decimal(signed_numeral(v)) == Ok::<int, IntFault>(v),
{
    let s = signed_numeral(v);
    if v < 0 {
        let d = encode_utf8(decimal_text((-v) as nat));
        lemma_decimal_text_digits((-v) as nat);
        lemma_unsigned_numeral((-v) as nat);
        assert(s[0] == MINUS);
        assert(s[1] == d[0]);
        assert(is_digit(d[0]));
        assert(s.skip(1) =~= d);
    } else {
        let d = encode_utf8(decimal_text(v as nat));
        lemma_decimal_text_digits(v as nat);
        lemma_unsigned_numeral(v as nat);
        assert(is_digit(d[0]));
    }
}

/// `BigUint::from_str` followed by `BigUint::to_bytes_be`, or by the
/// error's `to_string`. The parser takes one plus sign, then decimal digits
/// with underscores anywhere but in front; the bytes are the number's
/// shortest big-endian spelling, one zero byte for zero. The error's message
/// is one sentence where nothing follows the sign and another where a byte is
/// out of place.
#[verifier::external_body]
pub(crate) fn unsigned_decimal_bytes(text: &str) -> (r: Result<Vec<u8>, String>)
    ensures
        match unsigned_decimal(text.spec_bytes()) {
            Ok(v) => r is Ok && is_minimal_unsigned(r->Ok_0@) && be_value(r->Ok_0@) == v,
            Err(f) => r is Err && r->Err_0@ == f.spec_text(),
        },
{
    match BigUint::from_str(text) {
        Ok(n) => Ok(n.to_bytes_be()),
        Err(e) => Err(e.to_string()),
    }
}

/// `BigInt::from_str` followed by `BigInt::to_signed_bytes_be`, or by the
/// error's `to_string`. The parser takes a minus sign and hands the rest to
/// the unsigned parser; the bytes are the number's shortest two's-complement
/// big-endian spelling. The error's message is that of the unsigned parser.
#[verifier::external_body]
pub(crate) fn signed_decimal_bytes(text: &str) -> (r: Result<Vec<u8>, String>)
    ensures
        match signed_decimal(text.spec_bytes()) {
            Ok(v) => r is Ok && is_minimal_signed(r->Ok_0@) && be_signed_value(r->Ok_0@) == v,
            Err(f) => r is Err && r->Err_0@ == f.spec_text(),
        },
{
    match BigInt::from_str(text) {
        Ok(n) => Ok(n.to_signed_bytes_be()),
        Err(e) => Err(e.to_string()),
    }
}

} // verus!
