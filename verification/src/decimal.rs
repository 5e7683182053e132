//! Decimal numerals as byte strings: their values, and a parser for sizes.

use crate::text::{NINE, PLUS, ZERO};
use vstd::prelude::*;
use vstd::utf8::{encode_utf8, is_ascii_chars, is_ascii_chars_encode_utf8};

verus! {

/// Why a byte string is not a 16-bit decimal numeral.
#[derive(Debug, Clone, Copy, PartialEq, Eq, Structural)]
pub enum IntFault {
    /// There is nothing to read.
    Empty,
    /// A byte that is no decimal digit was met first.
    InvalidDigit,
    /// The digits read so far already exceed 65535.
    TooLarge,
}

impl IntFault {
    /// The message of this fault.
    pub open spec fn spec_text(self) -> Seq<char> {
        match self {
            IntFault::Empty => "cannot parse integer from empty string"@,
            IntFault::InvalidDigit => "invalid digit found in string"@,
            IntFault::TooLarge => "number too large to fit in target type"@,
        }
    }

    /// The message of this fault, for display.
    pub fn to_string(&self) -> (r: String)
        ensures
            r@ == self.spec_text(),
    {
        match self {
            IntFault::Empty => String::from_str("cannot parse integer from empty string"),
            IntFault::InvalidDigit => String::from_str("invalid digit found in string"),
            IntFault::TooLarge => String::from_str("number too large to fit in target type"),
        }
    }
}

/// An ASCII decimal digit.
pub open spec fn is_digit(c: u8) -> bool {
    ZERO <= c <= NINE
}

/// The number that a string of decimal digits spells.
pub open spec fn decimal_value(d: Seq<u8>) -> nat
    decreases d.len(),
{
    if d.len() == 0 {
        0
    } else {
        decimal_value(d.drop_last()) * 10 + (d.last() - ZERO) as nat
    }
}

/// How many decimal digits `s` starts with.
pub open spec fn leading_digits(s: Seq<u8>) -> nat
    decreases s.len(),
{
    if s.len() > 0 && is_digit(s[0]) {
        1 + leading_digits(s.skip(1))
    } else {
        0
    }
}

/// `s` without one leading plus sign.
pub open spec fn without_plus(s: Seq<u8>) -> Seq<u8> {
    if s.len() > 0 && s[0] == PLUS {
        s.skip(1)
    } else {
        s
    }
}

/// What reading `s` as a 16-bit size gives. An optional plus sign is followed
/// by at least one digit and nothing else; leading zeros are allowed. Reading
/// goes from the left, so of an overflow and a foreign byte the one that
/// comes first is reported.
pub open spec fn spec_parse_u16(s: Seq<u8>) -> Result<u16, IntFault> {
    let body = without_plus(s);
    let digits = body.take(leading_digits(body) as int);
    if s.len() == 0 {
        Err(IntFault::Empty)
    } else if body.len() == 0 {
        Err(IntFault::InvalidDigit)
    } else if decimal_value(digits) > u16::MAX {
        Err(IntFault::TooLarge)
    } else if digits.len() < body.len() {
        Err(IntFault::InvalidDigit)
    } else {
        Ok(decimal_value(digits) as u16)
    }
}

/// A string whose first `n` bytes are digits, and whose next byte is none,
/// starts with `n` digits.
pub proof fn lemma_leading_digits(s: Seq<u8>, n: nat)
    requires
        n <= s.len(),
        forall|j: int| 0 <= j < n ==> is_digit(s[j]),
        n < s.len() ==> !is_digit(s[n as int]),
    ensures
        leading_digits(s) == n,
    decreases n,
{
    if n > 0 {
        let t = s.skip(1);
        assert forall|j: int| 0 <= j < n - 1 implies is_digit(t[j]) by {
            assert(t[j] == s[j + 1]);
        }
        lemma_leading_digits(t, (n - 1) as nat);
    }
}

/// A string whose first `n` bytes are digits starts with at least `n`
/// digits, and with no more than it has bytes.
pub proof fn lemma_leading_digits_at_least(s: Seq<u8>, n: nat)
    requires
        n <= s.len(),
        forall|j: int| 0 <= j < n ==> is_digit(s[j]),
    ensures
        leading_digits(s) >= n,
        leading_digits(s) <= s.len(),
    decreases s.len(),
{
    if s.len() > 0 && is_digit(s[0]) {
        let t = s.skip(1);
        let m = if n > 0 { (n - 1) as nat } else { 0 };
        assert forall|j: int| 0 <= j < m implies is_digit(t[j]) by {
            assert(t[j] == s[j + 1]);
        }
        lemma_leading_digits_at_least(t, m);
    }
}

/// A longer run of the same digits spells a number that is no smaller.
pub proof fn lemma_decimal_value_grows(d: Seq<u8>, i: nat, j: nat)
    requires
        i <= j <= d.len(),
    ensures
        decimal_value(d.take(i as int)) <= decimal_value(d.take(j as int)),
    decreases j,
{
    if i < j {
        lemma_decimal_value_grows(d, i, (j - 1) as nat);
        assert(d.take(j as int).drop_last() =~= d.take(j - 1));
    }
}

/// Reads bytes `from .. to` of `s` as a 16-bit size.
pub fn parse_u16(s: &[u8], from: usize, to: usize) -> (r: Result<u16, IntFault>)
    requires
        from <= to <= s.len(),
    ensures
        r == spec_parse_u16(s@.subrange(from as int, to as int)),
{
    let ghost text = s@.subrange(from as int, to as int);
    if from == to {
        return Err(IntFault::Empty);
    }
    let start: usize = if s[from] == PLUS { from + 1 } else { from };
    let ghost body = without_plus(text);
    assert(body =~= s@.subrange(start as int, to as int));
    if start == to {
        return Err(IntFault::InvalidDigit);
    }
    let mut acc: u32 = 0;
    let mut i: usize = start;
    assert(body.take(0) =~= Seq::<u8>::empty());
    while i < to
        invariant
            from <= start <= i <= to <= s.len(),
            text == s@.subrange(from as int, to as int),
            body == without_plus(text),
            body == s@.subrange(start as int, to as int),
            from < to,
            start < to,
            forall|j: int| 0 <= j < i - start ==> is_digit(body[j]),
            acc == decimal_value(body.take(i - start)),
            acc <= u16::MAX,
        decreases to - i,
    {
        let c: u8 = s[i];
        assert(body[i - start] == c);
        if c < ZERO || c > NINE {
            proof {
                lemma_leading_digits(body, (i - start) as nat);
            }
            return Err(IntFault::InvalidDigit);
        }
        let next: u32 = acc * 10 + (c - ZERO) as u32;
        assert(body.take(i - start + 1).drop_last() =~= body.take(i - start));
        if next > 65535 {
            proof {
                lemma_leading_digits_at_least(body, (i - start + 1) as nat);
                lemma_decimal_value_grows(
                    body.take(leading_digits(body) as int),
                    (i - start + 1) as nat,
                    leading_digits(body),
                );
                assert(body.take(leading_digits(body) as int).take(i - start + 1) =~= body.take(
                    i - start + 1,
                ));
                assert(body.take(leading_digits(body) as int).take(leading_digits(body) as int)
                    =~= body.take(leading_digits(body) as int));
            }
            return Err(IntFault::TooLarge);
        }
        acc = next;
        i = i + 1;
    }
    proof {
        lemma_leading_digits(body, body.len());
        assert(body.take(body.len() as int) =~= body);
    }
    Ok(acc as u16)
}

/// The character for a digit from 0 to 9.
pub open spec fn digit_char(d: nat) -> char
    recommends
        d < 10,
{
    ((ZERO + d) as u8) as char
}

/// The decimal numeral of `n`, without leading zeros.
pub open spec fn decimal_text(n: nat) -> Seq<char>
    decreases n,
{
    if n < 10 {
        seq![digit_char(n)]
    } else {
        decimal_text(n / 10).push(digit_char(n % 10))
    }
}

/// The numeral of one digit.
fn digit_str(d: u64) -> (r: &'static str)
    requires
        d < 10,
    ensures
        r@ == seq![digit_char(d as nat)],
{
    proof {
        reveal_strlit("0");
        reveal_strlit("1");
        reveal_strlit("2");
        reveal_strlit("3");
        reveal_strlit("4");
        reveal_strlit("5");
        reveal_strlit("6");
        reveal_strlit("7");
        reveal_strlit("8");
        reveal_strlit("9");
    }
    let r = if d == 0 {
        "0"
    } else if d == 1 {
        "1"
    } else if d == 2 {
        "2"
    } else if d == 3 {
        "3"
    } else if d == 4 {
        "4"
    } else if d == 5 {
        "5"
    } else if d == 6 {
        "6"
    } else if d == 7 {
        "7"
    } else if d == 8 {
        "8"
    } else {
        "9"
    };
    assert(r@ =~= seq![digit_char(d as nat)]);
    r
}

/// Appends the decimal numeral of `n` to `out`.
pub fn push_decimal(out: &mut String, n: u64)
    ensures
        final(out)@ == old(out)@ + decimal_text(n as nat),
    decreases n,
{
    if n >= 10 {
        push_decimal(out, n / 10);
    }
    out.append(digit_str(n % 10));
    proof {
        if n >= 10 {
            assert(old(out)@ + decimal_text(n as nat) =~= (old(out)@ + decimal_text(
                (n / 10) as nat,
            )) + seq![digit_char((n % 10) as nat)]);
        }
    }
}

/// The decimal numeral of `n`.
pub fn decimal_string(n: u64) -> (r: String)
    ensures
        r@ == decimal_text(n as nat),
{
    let mut r = String::new();
    push_decimal(&mut r, n);
    assert(Seq::<char>::empty() + decimal_text(n as nat) =~= decimal_text(n as nat));
    r
}

/// The numeral of `n` is made of digits, at least one, and spells `n`.
pub proof fn lemma_decimal_text_digits(n: nat)
    ensures
        decimal_text(n).len() >= 1,
        is_ascii_chars(decimal_text(n)),
        encode_utf8(decimal_text(n)).len() == decimal_text(n).len(),
        forall|i: int|
            0 <= i < decimal_text(n).len() ==> is_digit(#[trigger] encode_utf8(decimal_text(n))[i]),
        decimal_value(encode_utf8(decimal_text(n))) == n,
    decreases n,
{
    let chars = decimal_text(n);
    let bytes = encode_utf8(chars);
    if n >= 10 {
        let shorter = decimal_text(n / 10);
        lemma_decimal_text_digits(n / 10);
        is_ascii_chars_encode_utf8(shorter);
        assert(is_ascii_chars(chars)) by {
            assert forall|i: int| 0 <= i < chars.len() implies '\0' <= #[trigger] chars[i]
                <= '\u{7f}' by {
                if i < shorter.len() {
                    assert(chars[i] == shorter[i]);
                }
            }
        }
        is_ascii_chars_encode_utf8(chars);
        assert(bytes.drop_last() =~= encode_utf8(shorter)) by {
            assert forall|i: int| 0 <= i < shorter.len() implies bytes.drop_last()[i]
                == encode_utf8(shorter)[i] by {
                assert(chars[i] == shorter[i]);
            }
        }
        assert(bytes.last() == ZERO + n % 10) by {
            assert(chars[chars.len() - 1] == digit_char(n % 10));
        }
        assert forall|i: int| 0 <= i < chars.len() implies is_digit(#[trigger] bytes[i]) by {
            if i < shorter.len() {
                assert(bytes[i] == bytes.drop_last()[i]);
            }
        }
    } else {
        is_ascii_chars_encode_utf8(chars);
        assert(bytes[0] == ZERO + n);
        assert(bytes.drop_last() =~= Seq::<u8>::empty());
        reveal_with_fuel(decimal_value, 2);
    }
}

/// Digits, at least one, that spell a number up to 65535 are read as that
/// number.
pub proof fn lemma_parse_u16_of_digits(d: Seq<u8>)
    requires
        d.len() > 0,
        forall|i: int| 0 <= i < d.len() ==> is_digit(#[trigger] d[i]),
        decimal_value(d) <= u16::MAX,
    ensures
        spec_parse_u16(d) == Ok::<u16, IntFault>(decimal_value(d) as u16),
{
    assert(is_digit(d[0]));
    assert(without_plus(d) == d);
    lemma_leading_digits(d, d.len());
    assert(d.take(d.len() as int) =~= d);
}

/// A size written as a numeral is read back as the same size.
pub proof fn lemma_numeral_round_trip(n: u16)
    ensures
        spec_parse_u16(encode_utf8(decimal_text(n as nat))) == Ok::<u16, IntFault>(n),
{
    lemma_decimal_text_digits(n as nat);
    lemma_parse_u16_of_digits(encode_utf8(decimal_text(n as nat)));
}

} // verus!
