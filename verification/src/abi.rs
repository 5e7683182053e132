//! Packed ABI encoding: type names, values and lists of fields.

use crate::bigendian::{
    be_bytes, be_signed_bytes, be_signed_value, be_value, filled, lemma_minimal_signed_fits,
    lemma_minimal_unsigned_fits, lemma_pow256_is_pow2, lemma_sign_extend,
    lemma_signed_limit_is_pow2, lemma_signed_round_trip, lemma_unsigned_round_trip,
    lemma_zero_extend,
};
use crate::bignum::{
    lemma_signed_numeral, lemma_unsigned_numeral, signed_decimal, signed_decimal_bytes,
    signed_numeral, unsigned_decimal, unsigned_decimal_bytes,
};
use crate::decimal::{
    decimal_string, decimal_text, decimal_value, is_digit, lemma_parse_u16_of_digits, parse_u16,
    spec_parse_u16, IntFault,
};
use crate::util::{
    decode_hex, encode_hex, hex_bytes, hex_error_message, hex_error_text, hex_text,
    is_hex_digit, lemma_decode_hex_of_digits, spec_decode_hex,
};
use crate::text::{
    find, find_from, has_prefix, lemma_find_bounds, prefix_offset, same_bytes, split_around,
    split_once, split_once_from, split_text_once, without_prefix, COLON, COMMA, LETTER_X,
};
use hex::FromHexError;
use vstd::arithmetic::power2::pow2;
use vstd::prelude::*;
use vstd::string::StrSliceExecFns;
use vstd::string::StringSliceAdditionalSpecFns;
use vstd::utf8::encode_utf8;

verus! {

/// Why a type name, a value or a list of fields is refused.
#[derive(Debug)]
pub enum ABIError {
    /// The value is no hexadecimal text; the payload is the decoder's message.
    IOError(String),
    /// A size lies outside what the type allows.
    InvalidSize(u16),
    /// No type goes by this name.
    InvalidFieldType(String),
    /// The field, or the size part of a fixed-point type, is not of the form
    /// required.
    InvalidFieldDefinition,
    /// The value does not belong to the type; the payload says why.
    InvalidValue(String),
    /// The bytes given are not as many as the type's fixed size.
    ByteSizeMismatch,
    /// Fixed-point values cannot be encoded.
    Unimplemented,
}

/// The reasons for refusal, as the contracts tell them apart.
pub enum Fault {
    /// No type goes by this name.
    UnknownType(Seq<u8>),
    /// A separator is missing or occurs too often.
    Malformed,
    /// A size was read and lies outside what the type allows.
    BadSize(u16),
    /// A size could not be read.
    SizeSyntax(IntFault),
    /// The value is no hexadecimal text.
    BadHex(FromHexError),
    /// The address is not 20 bytes long.
    BadAddress,
    /// The value is neither `true` nor `false`.
    BadBoolean,
    /// The value is no decimal integer.
    BadInteger(IntFault),
    /// The integer does not fit the type's width.
    OutOfRange,
    /// The bytes are not as many as the type's fixed size.
    SizeMismatch,
    /// The type is a fixed-point type.
    Unimplemented,
}

impl ABIError {
    /// Whether this error is the one that stands for `f`: the variant and
    /// the payload.
    pub open spec fn reports(self, f: Fault) -> bool {
        match f {
            Fault::UnknownType(name) => self matches ABIError::InvalidFieldType(n) && encode_utf8(
                n@,
            ) == name,
            Fault::Malformed => self is InvalidFieldDefinition,
            Fault::BadSize(size) => self matches ABIError::InvalidSize(n) && n == size,
            Fault::SizeSyntax(fault) => self matches ABIError::InvalidValue(m) && m@
                == fault.spec_text(),
            Fault::BadHex(e) => self matches ABIError::IOError(m) && m@ == hex_error_message(e),
            Fault::BadAddress => self matches ABIError::InvalidValue(m) && m@
                == "invalid address"@,
            Fault::BadBoolean => self matches ABIError::InvalidValue(m) && m@
                == "invalid boolean value"@,
            Fault::BadInteger(fault) => self matches ABIError::InvalidValue(m) && m@
                == fault.spec_text(),
            Fault::OutOfRange => self matches ABIError::InvalidValue(m) && m@
                == "value does not fit the type"@,
            Fault::SizeMismatch => self is ByteSizeMismatch,
            Fault::Unimplemented => self is Unimplemented,
        }
    }
}

impl ABIError {
    /// The message of this error.
    pub open spec fn spec_text(self) -> Seq<char> {
        match self {
            ABIError::IOError(s) => s@,
            ABIError::InvalidSize(n) => decimal_text(n as nat) + " is an invalid size"@,
            ABIError::InvalidFieldType(t) => t@ + " is an invalid type"@,
            ABIError::InvalidFieldDefinition => "invalid field definition"@,
            ABIError::InvalidValue(s) => s@ + " is an invalid value"@,
            ABIError::ByteSizeMismatch => "the size of the byte field specified does not match its actual size"@,
            ABIError::Unimplemented => "this feature is unimplemented"@,
        }
    }

    /// The message of this error, for display.
    pub fn to_string(&self) -> (r: String)
        ensures
            r@ == self.spec_text(),
    {
        match self {
            ABIError::IOError(s) => s.clone(),
            ABIError::InvalidSize(n) => decimal_string(*n as u64).concat(" is an invalid size"),
            ABIError::InvalidFieldType(t) => t.clone().concat(" is an invalid type"),
            ABIError::InvalidFieldDefinition => String::from_str("invalid field definition"),
            ABIError::InvalidValue(s) => s.clone().concat(" is an invalid value"),
            ABIError::ByteSizeMismatch => String::from_str(
                "the size of the byte field specified does not match its actual size",
            ),
            ABIError::Unimplemented => String::from_str("this feature is unimplemented"),
        }
    }
}

/// Whether `r` is the outcome that `expected` describes.
pub open spec fn agrees<T>(r: Result<T, ABIError>, expected: Result<T, Fault>) -> bool {
    match expected {
        Ok(v) => r == Ok::<T, ABIError>(v),
        Err(f) => r is Err && r->Err_0.reports(f),
    }
}

/// The error for a size that could not be read.
fn size_syntax_error(f: IntFault) -> (e: ABIError)
    ensures
        e.reports(Fault::SizeSyntax(f)),
{
    ABIError::InvalidValue(f.to_string())
}

/// The type of a field.
#[derive(Debug, Clone, Copy, PartialEq, Eq, Structural)]
pub enum ABIField {
    /// A 20-byte address.
    Address,
    /// `true` or `false`, one byte.
    Boolean,
    /// Text, taken as its bytes.
    String,
    /// Bytes of any number.
    Bytes,
    /// Bytes of the number given, 1 to 32.
    BytesN(u16),
    /// A signed integer of the width given in bits.
    IntN(u16),
    /// An unsigned integer of the width given in bits.
    UintN(u16),
    /// A signed fixed-point number: width in bits, decimal places.
    FixedN(u16, u16),
    /// An unsigned fixed-point number: width in bits, decimal places.
    UFixedN(u16, u16),
}

/// A width in bits that an integer type can have: a multiple of 8 from 8 to
/// 256.
pub open spec fn is_integer_width(bits: u16) -> bool {
    8 <= bits <= 256 && bits % 8 == 0
}

/// What the size in the name of an integer type stands for: none, or zero,
/// means 256 bits.
pub open spec fn spec_integer_width(size: u16) -> Result<u16, Fault> {
    if size == 0 {
        Ok(256)
    } else if size <= 256 && size % 8 == 0 {
        Ok(size)
    } else {
        Err(Fault::BadSize(size))
    }
}

/// The size that follows `prefix` in `name`: zero where nothing follows. The
/// prefix is taken off once; what is left is read as a size.
pub open spec fn spec_size_from_name(prefix: Seq<u8>, name: Seq<u8>) -> Result<u16, Fault> {
    let rest = without_prefix(name, prefix);
    if rest.len() == 0 {
        Ok(0)
    } else {
        match spec_parse_u16(rest) {
            Ok(size) => Ok(size),
            Err(f) => Err(Fault::SizeSyntax(f)),
        }
    }
}

/// The two sizes that follow `prefix` in `name`, with exactly one `x` between
/// them. The prefix is taken off once.
pub open spec fn spec_fixed_sizes(prefix: Seq<u8>, name: Seq<u8>) -> Result<(u16, u16), Fault> {
    match split_once(without_prefix(name, prefix), LETTER_X) {
        None => Err(Fault::Malformed),
        Some((width, places)) => match spec_parse_u16(width) {
            Err(f) => Err(Fault::SizeSyntax(f)),
            Ok(m) => match spec_parse_u16(places) {
                Err(f) => Err(Fault::SizeSyntax(f)),
                Ok(n) => Ok((m, n)),
            },
        },
    }
}

/// The sizes of a fixed-point type, checked: the width is a multiple of 8
/// from 8 to 256, and there are at most 80 decimal places. The width is
/// checked first.
pub open spec fn spec_fixed_checked(sizes: Result<(u16, u16), Fault>) -> Result<(u16, u16), Fault> {
    match sizes {
        Err(f) => Err(f),
        Ok((m, n)) => if !is_integer_width(m) {
            Err(Fault::BadSize(m))
        } else if n > 80 {
            Err(Fault::BadSize(n))
        } else {
            Ok((m, n))
        },
    }
}

/// The type that a name starting with `bytes` stands for.
pub open spec fn spec_parse_bytes(name: Seq<u8>) -> Result<ABIField, Fault> {
    match spec_size_from_name("bytes".spec_bytes(), name) {
        Err(f) => Err(f),
        Ok(size) => if size == 0 {
            Ok(ABIField::Bytes)
        } else if size <= 32 {
            Ok(ABIField::BytesN(size))
        } else {
            Err(Fault::BadSize(size))
        },
    }
}

/// The type that a name starting with `int` stands for.
pub open spec fn spec_parse_int(name: Seq<u8>) -> Result<ABIField, Fault> {
    match spec_size_from_name("int".spec_bytes(), name) {
        Err(f) => Err(f),
        Ok(size) => match spec_integer_width(size) {
            Err(f) => Err(f),
            Ok(bits) => Ok(ABIField::IntN(bits)),
        },
    }
}

/// The type that a name starting with `uint` stands for.
pub open spec fn spec_parse_uint(name: Seq<u8>) -> Result<ABIField, Fault> {
    match spec_size_from_name("uint".spec_bytes(), name) {
        Err(f) => Err(f),
        Ok(size) => match spec_integer_width(size) {
            Err(f) => Err(f),
            Ok(bits) => Ok(ABIField::UintN(bits)),
        },
    }
}

/// The type that a name starting with `fixed` stands for.
pub open spec fn spec_parse_fixed(name: Seq<u8>) -> Result<ABIField, Fault> {
    match spec_fixed_checked(spec_fixed_sizes("fixed".spec_bytes(), name)) {
        Err(f) => Err(f),
        Ok((m, n)) => Ok(ABIField::FixedN(m, n)),
    }
}

/// The type that a name starting with `ufixed` stands for.
pub open spec fn spec_parse_ufixed(name: Seq<u8>) -> Result<ABIField, Fault> {
    match spec_fixed_checked(spec_fixed_sizes("ufixed".spec_bytes(), name)) {
        Err(f) => Err(f),
        Ok((m, n)) => Ok(ABIField::UFixedN(m, n)),
    }
}

/// The type that `name` stands for.
pub open spec fn spec_field_type(name: Seq<u8>) -> Result<ABIField, Fault> {
    if name == "address".spec_bytes() {
        Ok(ABIField::Address)
    } else if name == "bool".spec_bytes() {
        Ok(ABIField::Boolean)
    } else if name == "string".spec_bytes() {
        Ok(ABIField::String)
    } else if "bytes".spec_bytes().is_prefix_of(name) {
        spec_parse_bytes(name)
    } else if "int".spec_bytes().is_prefix_of(name) {
        spec_parse_int(name)
    } else if "uint".spec_bytes().is_prefix_of(name) {
        spec_parse_uint(name)
    } else if "ufixed".spec_bytes().is_prefix_of(name) {
        spec_parse_ufixed(name)
    } else if "fixed".spec_bytes().is_prefix_of(name) {
        spec_parse_fixed(name)
    } else {
        Err(Fault::UnknownType(name))
    }
}

/// Digits behind a prefix are the size: the prefix is taken off once, and
/// what is left is read whole.
pub proof fn lemma_size_after_prefix(prefix: Seq<u8>, digits: Seq<u8>)
    requires
        digits.len() > 0,
        forall|i: int| 0 <= i < digits.len() ==> is_digit(#[trigger] digits[i]),
        decimal_value(digits) <= u16::MAX,
    ensures
        spec_size_from_name(prefix, prefix + digits) == Ok::<u16, Fault>(
            decimal_value(digits) as u16,
        ),
        spec_size_from_name(prefix, prefix) == Ok::<u16, Fault>(0),
{
    let name = prefix + digits;
    assert(prefix.is_prefix_of(name)) by {
        assert(name.subrange(0, prefix.len() as int) =~= prefix);
    }
    assert(name.skip(prefix.len() as int) =~= digits);
    assert(prefix.is_prefix_of(prefix)) by {
        assert(prefix.subrange(0, prefix.len() as int) =~= prefix);
    }
    assert(prefix.skip(prefix.len() as int) =~= Seq::<u8>::empty());
    lemma_parse_u16_of_digits(digits);
}

/// A width that the size in a name stands for is one that an integer type
/// can have.
proof fn lemma_integer_width(size: u16)
    ensures
        spec_integer_width(size) matches Ok(bits) ==> is_integer_width(bits),
{
}

/// Sizes of a fixed-point type that pass the check are ones that the type
/// allows.
proof fn lemma_fixed_checked(sizes: Result<(u16, u16), Fault>)
    ensures
        spec_fixed_checked(sizes) matches Ok(pair) ==> is_integer_width(pair.0) && pair.1 <= 80,
{
}

/// Every type that a name stands for has sizes that the type allows.
pub proof fn lemma_field_type_wf(name: Seq<u8>)
    ensures
        spec_field_type(name) matches Ok(t) ==> t.wf(),
{
    let bytes_size = spec_size_from_name("bytes".spec_bytes(), name);
    let int_size = spec_size_from_name("int".spec_bytes(), name);
    let uint_size = spec_size_from_name("uint".spec_bytes(), name);
    let fixed_sizes = spec_fixed_sizes("fixed".spec_bytes(), name);
    let ufixed_sizes = spec_fixed_sizes("ufixed".spec_bytes(), name);
    if int_size is Ok {
        lemma_integer_width(int_size->Ok_0);
    }
    if uint_size is Ok {
        lemma_integer_width(uint_size->Ok_0);
    }
    lemma_fixed_checked(fixed_sizes);
    lemma_fixed_checked(ufixed_sizes);
    assert(spec_parse_bytes(name) matches Ok(t) ==> t.wf());
    assert(spec_parse_int(name) matches Ok(t) ==> t.wf());
    assert(spec_parse_uint(name) matches Ok(t) ==> t.wf());
    assert(spec_parse_fixed(name) matches Ok(t) ==> t.wf());
    assert(spec_parse_ufixed(name) matches Ok(t) ==> t.wf());
}

/// The size that follows `prefix` in `name`, zero where nothing follows.
pub fn field_size_from_name(prefix: &str, name: &str) -> (r: Result<u16, ABIError>)
    ensures
        agrees(r, spec_size_from_name(prefix.spec_bytes(), name.spec_bytes())),
{
    let bytes = name.as_bytes();
    let at = prefix_offset(bytes, prefix.as_bytes());
    assert(bytes@.skip(at as int) =~= bytes@.subrange(at as int, bytes@.len() as int));
    if at == bytes.len() {
        return Ok(0);
    }
    match parse_u16(bytes, at, bytes.len()) {
        Ok(size) => Ok(size),
        Err(f) => Err(size_syntax_error(f)),
    }
}

/// The two sizes that follow `prefix` in `name`, with one `x` between them.
pub fn fixed_field_size_from_name(prefix: &str, name: &str) -> (r: Result<(u16, u16), ABIError>)
    ensures
        agrees(r, spec_fixed_sizes(prefix.spec_bytes(), name.spec_bytes())),
{
    let bytes = name.as_bytes();
    let start = prefix_offset(bytes, prefix.as_bytes());
    let at = match split_once_from(bytes, start, LETTER_X) {
        Some(at) => at,
        None => {
            return Err(ABIError::InvalidFieldDefinition);
        },
    };
    assert(bytes@.skip(at + 1) =~= bytes@.subrange(at + 1, bytes@.len() as int));
    let m = match parse_u16(bytes, start, at) {
        Ok(m) => m,
        Err(f) => {
            return Err(size_syntax_error(f));
        },
    };
    let n = match parse_u16(bytes, at + 1, bytes.len()) {
        Ok(n) => n,
        Err(f) => {
            return Err(size_syntax_error(f));
        },
    };
    Ok((m, n))
}

/// The width that the size in the name of an integer type stands for.
fn check_integer_width(size: u16) -> (r: Result<u16, ABIError>)
    ensures
        agrees(r, spec_integer_width(size)),
        r is Ok ==> is_integer_width(r->Ok_0),
{
    if size == 0 {
        Ok(256)
    } else if size <= 256 && size % 8 == 0 {
        Ok(size)
    } else {
        Err(ABIError::InvalidSize(size))
    }
}

/// Checks the sizes of a fixed-point type, the width first.
fn check_fixed_sizes(m: u16, n: u16) -> (r: Result<(u16, u16), ABIError>)
    ensures
        agrees(r, spec_fixed_checked(Ok((m, n)))),
        r is Ok ==> is_integer_width(r->Ok_0.0) && r->Ok_0.1 <= 80,
{
    if m < 8 || m > 256 || m % 8 != 0 {
        return Err(ABIError::InvalidSize(m));
    }
    if n > 80 {
        return Err(ABIError::InvalidSize(n));
    }
    Ok((m, n))
}

impl ABIField {
    /// Whether the sizes are ones that the type allows. Every type that
    /// [`ABIField::from_str`] returns is well formed.
    pub open spec fn wf(self) -> bool {
        match self {
            ABIField::BytesN(size) => 1 <= size <= 32,
            ABIField::IntN(bits) => is_integer_width(bits),
            ABIField::UintN(bits) => is_integer_width(bits),
            ABIField::FixedN(bits, places) => is_integer_width(bits) && places <= 80,
            ABIField::UFixedN(bits, places) => is_integer_width(bits) && places <= 80,
            _ => true,
        }
    }

    /// Reads a name that starts with `bytes`: no size or zero for bytes of any
    /// number, else a size from 1 to 32.
    pub fn parse_bytes(s: &str) -> (r: Result<ABIField, ABIError>)
        ensures
            agrees(r, spec_parse_bytes(s.spec_bytes())),
            r is Ok ==> r->Ok_0.wf(),
    {
        let size = field_size_from_name("bytes", s)?;
        if size == 0 {
            Ok(ABIField::Bytes)
        } else if size <= 32 {
            Ok(ABIField::BytesN(size))
        } else {
            Err(ABIError::InvalidSize(size))
        }
    }

    /// Reads a name that starts with `int`: no size or zero for 256 bits, else
    /// a multiple of 8 up to 256.
    pub fn parse_int(s: &str) -> (r: Result<ABIField, ABIError>)
        ensures
            agrees(r, spec_parse_int(s.spec_bytes())),
            r is Ok ==> r->Ok_0.wf(),
    {
        let size = field_size_from_name("int", s)?;
        let bits = check_integer_width(size)?;
        Ok(ABIField::IntN(bits))
    }

    /// Reads a name that starts with `uint`: no size or zero for 256 bits,
    /// else a multiple of 8 up to 256.
    pub fn parse_uint(s: &str) -> (r: Result<ABIField, ABIError>)
        ensures
            agrees(r, spec_parse_uint(s.spec_bytes())),
            r is Ok ==> r->Ok_0.wf(),
    {
        let size = field_size_from_name("uint", s)?;
        let bits = check_integer_width(size)?;
        Ok(ABIField::UintN(bits))
    }

    /// Reads a name that starts with `fixed`: a width and a number of decimal
    /// places with `x` between them.
    pub fn parse_fixed(s: &str) -> (r: Result<ABIField, ABIError>)
        ensures
            agrees(r, spec_parse_fixed(s.spec_bytes())),
            r is Ok ==> r->Ok_0.wf(),
    {
        let (m, n) = fixed_field_size_from_name("fixed", s)?;
        let (m, n) = check_fixed_sizes(m, n)?;
        Ok(ABIField::FixedN(m, n))
    }

    /// Reads a name that starts with `ufixed`: a width and a number of decimal
    /// places with `x` between them.
    pub fn parse_ufixed(s: &str) -> (r: Result<ABIField, ABIError>)
        ensures
            agrees(r, spec_parse_ufixed(s.spec_bytes())),
            r is Ok ==> r->Ok_0.wf(),
    {
        let (m, n) = fixed_field_size_from_name("ufixed", s)?;
        let (m, n) = check_fixed_sizes(m, n)?;
        Ok(ABIField::UFixedN(m, n))
    }

    /// Reads a type name.
    pub fn from_str(s: &str) -> (r: Result<ABIField, ABIError>)
        ensures
            agrees(r, spec_field_type(s.spec_bytes())),
            r is Ok ==> r->Ok_0.wf(),
    {
        let name = s.as_bytes();
        if same_bytes(name, "address".as_bytes()) {
            Ok(ABIField::Address)
        } else if same_bytes(name, "bool".as_bytes()) {
            Ok(ABIField::Boolean)
        } else if same_bytes(name, "string".as_bytes()) {
            Ok(ABIField::String)
        } else if has_prefix(name, "bytes".as_bytes()) {
            ABIField::parse_bytes(s)
        } else if has_prefix(name, "int".as_bytes()) {
            ABIField::parse_int(s)
        } else if has_prefix(name, "uint".as_bytes()) {
            ABIField::parse_uint(s)
        } else if has_prefix(name, "ufixed".as_bytes()) {
            ABIField::parse_ufixed(s)
        } else if has_prefix(name, "fixed".as_bytes()) {
            ABIField::parse_fixed(s)
        } else {
            Err(ABIError::InvalidFieldType(String::from_str(s)))
        }
    }
}

/// The bytes that the value `data` of type `t` is encoded as.
pub open spec fn spec_encode_value(t: ABIField, data: Seq<u8>) -> Result<Seq<u8>, Fault> {
    match t {
        ABIField::Address => match spec_decode_hex(data) {
            Err(e) => Err(Fault::BadHex(e)),
            Ok(bytes) => if bytes.len() == 20 {
                Ok(bytes)
            } else {
                Err(Fault::BadAddress)
            },
        },
        ABIField::Boolean => if data == "true".spec_bytes() {
            Ok(seq![1u8])
        } else if data == "false".spec_bytes() {
            Ok(seq![0u8])
        } else {
            Err(Fault::BadBoolean)
        },
        ABIField::String => Ok(data),
        ABIField::Bytes => match spec_decode_hex(data) {
            Err(e) => Err(Fault::BadHex(e)),
            Ok(bytes) => Ok(bytes),
        },
        ABIField::BytesN(size) => match spec_decode_hex(data) {
            Err(e) => Err(Fault::BadHex(e)),
            Ok(bytes) => if bytes.len() == size {
                Ok(bytes)
            } else {
                Err(Fault::SizeMismatch)
            },
        },
        ABIField::UintN(bits) => match unsigned_decimal(data) {
            Err(f) => Err(Fault::BadInteger(f)),
            Ok(v) => if v < pow2(bits as nat) {
                Ok(be_bytes(v, (bits / 8) as nat))
            } else {
                Err(Fault::OutOfRange)
            },
        },
        ABIField::IntN(bits) => match signed_decimal(data) {
            Err(f) => Err(Fault::BadInteger(f)),
            Ok(v) => if -(pow2((bits - 1) as nat) as int) <= v < pow2((bits - 1) as nat) {
                Ok(be_signed_bytes(v, (bits / 8) as nat))
            } else {
                Err(Fault::OutOfRange)
            },
        },
        ABIField::FixedN(_, _) => Err(Fault::Unimplemented),
        ABIField::UFixedN(_, _) => Err(Fault::Unimplemented),
    }
}

/// An unsigned integer that its type can hold is encoded in as many bytes as
/// the type is wide, and reading these as a big-endian number gives the
/// integer back.
pub proof fn lemma_uint_round_trip(bits: u16, data: Seq<u8>, v: nat)
    requires
        is_integer_width(bits),
        unsigned_decimal(data) == Ok::<nat, IntFault>(v),
        v < pow2(bits as nat),
    ensures
        spec_encode_value(ABIField::UintN(bits), data) is Ok,
        spec_encode_value(ABIField::UintN(bits), data)->Ok_0.len() == bits / 8,
        be_value(spec_encode_value(ABIField::UintN(bits), data)->Ok_0) == v,
{
    lemma_unsigned_round_trip(v, bits as nat);
}

/// A signed integer that its type can hold is encoded in as many bytes as the
/// type is wide, and reading these as a two's-complement big-endian number
/// gives the integer back.
pub proof fn lemma_int_round_trip(bits: u16, data: Seq<u8>, v: int)
    requires
        is_integer_width(bits),
        signed_decimal(data) == Ok::<int, IntFault>(v),
        -(pow2((bits - 1) as nat) as int) <= v < pow2((bits - 1) as nat),
    ensures
        spec_encode_value(ABIField::IntN(bits), data) is Ok,
        spec_encode_value(ABIField::IntN(bits), data)->Ok_0.len() == bits / 8,
        be_signed_value(spec_encode_value(ABIField::IntN(bits), data)->Ok_0) == v,
{
    lemma_signed_round_trip(v, bits as nat);
}

/// Every unsigned integer that its type can hold, written as a numeral, is
/// encoded in as many bytes as the type is wide, and reading these as a
/// big-endian number gives the integer back.
pub proof fn lemma_uint_numeral_round_trip(bits: u16, v: nat)
    requires
        is_integer_width(bits),
        v < pow2(bits as nat),
    ensures
        spec_encode_value(ABIField::UintN(bits), encode_utf8(decimal_text(v))) is Ok,
        spec_encode_value(ABIField::UintN(bits), encode_utf8(decimal_text(v)))->Ok_0.len() == bits
            / 8,
        be_value(spec_encode_value(ABIField::UintN(bits), encode_utf8(decimal_text(v)))->Ok_0)
            == v,
{
    lemma_unsigned_numeral(v);
    lemma_uint_round_trip(bits, encode_utf8(decimal_text(v)), v);
}

/// Every signed integer that its type can hold, written as a numeral, is
/// encoded in as many bytes as the type is wide, and reading these as a
/// two's-complement big-endian number gives the integer back.
pub proof fn lemma_int_numeral_round_trip(bits: u16, v: int)
    requires
        is_integer_width(bits),
        -(pow2((bits - 1) as nat) as int) <= v < pow2((bits - 1) as nat),
    ensures
        spec_encode_value(ABIField::IntN(bits), signed_numeral(v)) is Ok,
        spec_encode_value(ABIField::IntN(bits), signed_numeral(v))->Ok_0.len() == bits / 8,
        be_signed_value(spec_encode_value(ABIField::IntN(bits), signed_numeral(v))->Ok_0) == v,
{
    lemma_signed_numeral(v);
    lemma_int_round_trip(bits, signed_numeral(v), v);
}

/// Hexadecimal digits, twice as many as the type has bytes, are encoded as
/// the bytes that they spell. Any other even number of them is a size
/// mismatch; an odd number of them spells no bytes, and the decoder's
/// complaint comes back.
pub proof fn lemma_bytesn_of_digits(size: u16, data: Seq<u8>)
    requires
        forall|i: int| 0 <= i < data.len() ==> is_hex_digit(#[trigger] data[i]),
    ensures
        data.len() == 2 * size ==> spec_encode_value(ABIField::BytesN(size), data) == Ok::<
            Seq<u8>,
            Fault,
        >(hex_bytes(data)),
        data.len() != 2 * size && data.len() % 2 == 0 ==> spec_encode_value(
            ABIField::BytesN(size),
            data,
        ) == Err::<Seq<u8>, Fault>(Fault::SizeMismatch),
        data.len() % 2 != 0 ==> spec_encode_value(ABIField::BytesN(size), data) == Err::<
            Seq<u8>,
            Fault,
        >(Fault::BadHex(FromHexError::OddLength)),
{
    lemma_decode_hex_of_digits(data);
}

/// Whether a call that was to append `expected` to `before` ended as it
/// should: on success the bytes stand behind what was there, on failure the
/// error is the one expected and nothing was appended.
pub open spec fn appended(
    r: Result<(), ABIError>,
    before: Seq<u8>,
    after: Seq<u8>,
    expected: Result<Seq<u8>, Fault>,
) -> bool {
    match expected {
        Ok(bytes) => r is Ok && after == before + bytes,
        Err(f) => r is Err && r->Err_0.reports(f) && after == before,
    }
}

/// Appends an address: hexadecimal text for exactly 20 bytes.
pub fn encode_packed_address(data: &str, buf: &mut Vec<u8>) -> (r: Result<(), ABIError>)
    ensures
        appended(r, old(buf)@, final(buf)@, spec_encode_value(ABIField::Address, data.spec_bytes())),
{
    let mut dec = match decode_hex(data) {
        Ok(dec) => dec,
        Err(e) => {
            return Err(ABIError::IOError(hex_error_text(&e)));
        },
    };
    if dec.len() != 20 {
        return Err(ABIError::InvalidValue(String::from_str("invalid address")));
    }
    buf.append(&mut dec);
    Ok(())
}

/// Appends a boolean: one byte, 1 for `true` and 0 for `false`.
pub fn encode_packed_bool(data: &str, buf: &mut Vec<u8>) -> (r: Result<(), ABIError>)
    ensures
        appended(r, old(buf)@, final(buf)@, spec_encode_value(ABIField::Boolean, data.spec_bytes())),
{
    let bytes = data.as_bytes();
    if same_bytes(bytes, "true".as_bytes()) {
        buf.push(0x01);
        assert(buf@ =~= old(buf)@ + seq![1u8]);
    } else if same_bytes(bytes, "false".as_bytes()) {
        buf.push(0x00);
        assert(buf@ =~= old(buf)@ + seq![0u8]);
    } else {
        return Err(ABIError::InvalidValue(String::from_str("invalid boolean value")));
    }
    Ok(())
}

/// Appends text as its bytes, with nothing before or after them.
pub fn encode_packed_string(data: &str, buf: &mut Vec<u8>) -> (r: Result<(), ABIError>)
    ensures
        appended(r, old(buf)@, final(buf)@, spec_encode_value(ABIField::String, data.spec_bytes())),
{
    let mut bytes = data.as_bytes_vec();
    buf.append(&mut bytes);
    Ok(())
}

/// Appends an unsigned integer of `size` bits, given in decimal: big-endian,
/// zero bytes in front up to the width. A number that needs more bytes than
/// the width is refused.
pub fn encode_packed_uintn(data: &str, size: &u16, buf: &mut Vec<u8>) -> (r: Result<(), ABIError>)
    requires
        is_integer_width(*size),
    ensures
        appended(
            r,
            old(buf)@,
            final(buf)@,
            spec_encode_value(ABIField::UintN(*size), data.spec_bytes()),
        ),
{
    let mut digits = match unsigned_decimal_bytes(data) {
        Ok(digits) => digits,
        Err(message) => {
            return Err(ABIError::InvalidValue(message));
        },
    };
    let width: usize = (*size / 8) as usize;
    proof {
        lemma_minimal_unsigned_fits(digits@, width as nat);
        lemma_pow256_is_pow2(width as nat);
        assert(8 * (width as nat) == *size as nat);
    }
    if digits.len() > width {
        return Err(ABIError::InvalidValue(String::from_str("value does not fit the type")));
    }
    proof {
        lemma_zero_extend(digits@, width as nat);
    }
    let mut padded = filled(0, width - digits.len());
    padded.append(&mut digits);
    buf.append(&mut padded);
    Ok(())
}

/// Appends a signed integer of `size` bits, given in decimal: two's
/// complement, big-endian, sign bytes in front up to the width. A number
/// that needs more bytes than the width is refused.
pub fn encode_packed_intn(data: &str, size: &u16, buf: &mut Vec<u8>) -> (r: Result<(), ABIError>)
    requires
        is_integer_width(*size),
    ensures
        appended(
            r,
            old(buf)@,
            final(buf)@,
            spec_encode_value(ABIField::IntN(*size), data.spec_bytes()),
        ),
{
    let mut digits = match signed_decimal_bytes(data) {
        Ok(digits) => digits,
        Err(message) => {
            return Err(ABIError::InvalidValue(message));
        },
    };
    let width: usize = (*size / 8) as usize;
    proof {
        lemma_minimal_signed_fits(digits@, width as nat);
        lemma_signed_limit_is_pow2(width as nat);
        assert(8 * (width as nat) - 1 == *size - 1);
    }
    if digits.len() > width {
        return Err(ABIError::InvalidValue(String::from_str("value does not fit the type")));
    }
    proof {
        lemma_sign_extend(digits@, width as nat);
    }
    let fill: u8 = if digits[0] >= 0x80 { 0xff } else { 0x00 };
    let mut padded = filled(fill, width - digits.len());
    padded.append(&mut digits);
    buf.append(&mut padded);
    Ok(())
}

/// Appends the bytes that hexadecimal text spells, however many.
pub fn encode_packed_bytes(data: &str, buf: &mut Vec<u8>) -> (r: Result<(), ABIError>)
    ensures
        appended(r, old(buf)@, final(buf)@, spec_encode_value(ABIField::Bytes, data.spec_bytes())),
{
    let mut data_buf = match decode_hex(data) {
        Ok(dec) => dec,
        Err(e) => {
            return Err(ABIError::IOError(hex_error_text(&e)));
        },
    };
    buf.append(&mut data_buf);
    Ok(())
}

/// Appends the bytes that hexadecimal text spells, which must be exactly
/// `size` in number.
pub fn encode_packed_bytesn(data: &str, size: &u16, buf: &mut Vec<u8>) -> (r: Result<
    (),
    ABIError,
>)
    ensures
        appended(
            r,
            old(buf)@,
            final(buf)@,
            spec_encode_value(ABIField::BytesN(*size), data.spec_bytes()),
        ),
{
    let mut data_buf = match decode_hex(data) {
        Ok(dec) => dec,
        Err(e) => {
            return Err(ABIError::IOError(hex_error_text(&e)));
        },
    };
    if data_buf.len() != *size as usize {
        return Err(ABIError::ByteSizeMismatch);
    }
    buf.append(&mut data_buf);
    Ok(())
}

impl ABIField {
    /// Appends the encoding of `data`, a value of this type, to `buf`.
    pub fn encode_packed(&self, data: &str, buf: &mut Vec<u8>) -> (r: Result<(), ABIError>)
        requires
            self.wf(),
        ensures
            appended(r, old(buf)@, final(buf)@, spec_encode_value(*self, data.spec_bytes())),
    {
        match self {
            ABIField::Address => encode_packed_address(data, buf),
            ABIField::String => encode_packed_string(data, buf),
            ABIField::UintN(size) => encode_packed_uintn(data, size, buf),
            ABIField::IntN(size) => encode_packed_intn(data, size, buf),
            ABIField::Bytes => encode_packed_bytes(data, buf),
            ABIField::BytesN(size) => encode_packed_bytesn(data, size, buf),
            ABIField::Boolean => encode_packed_bool(data, buf),
            _ => Err(ABIError::Unimplemented),
        }
    }
}

/// The bytes that one field, a type name and a value with one colon between
/// them, is encoded as.
pub open spec fn spec_encode_field(field: Seq<u8>) -> Result<Seq<u8>, Fault> {
    match split_once(field, COLON) {
        None => Err(Fault::Malformed),
        Some((name, value)) => match spec_field_type(name) {
            Err(f) => Err(f),
            Ok(t) => spec_encode_value(t, value),
        },
    }
}

/// The bytes that a list of fields with commas between them is encoded as:
/// the fields' bytes in the order of the list, or the first field's fault
/// that stands in the way.
pub open spec fn spec_encode_packed(data: Seq<u8>) -> Result<Seq<u8>, Fault>
    decreases data.len(),
{
    let at = find(data, COMMA) as int;
    if at >= data.len() {
        spec_encode_field(data)
    } else {
        match spec_encode_field(data.take(at)) {
            Err(f) => Err(f),
            Ok(head) => match spec_encode_packed(data.skip(at + 1)) {
                Err(f) => Err(f),
                Ok(tail) => Ok(head + tail),
            },
        }
    }
}

/// Appends the encoding of one field, `type:value`, to `buf`.
pub fn encode_field(field: &str, buf: &mut Vec<u8>) -> (r: Result<(), ABIError>)
    ensures
        appended(r, old(buf)@, final(buf)@, spec_encode_field(field.spec_bytes())),
{
    let (name, value) = match split_text_once(field, COLON) {
        Some(parts) => parts,
        None => {
            return Err(ABIError::InvalidFieldDefinition);
        },
    };
    let t = match ABIField::from_str(name) {
        Ok(t) => t,
        Err(e) => {
            return Err(e);
        },
    };
    t.encode_packed(value, buf)
}

/// Encodes a list of fields, `type:value` with commas between them, into one
/// byte string. The first field that is refused ends the call with its
/// error.
pub fn encode_abi_packed(data: &str) -> (r: Result<Vec<u8>, ABIError>)
    ensures
        match spec_encode_packed(data.spec_bytes()) {
            Ok(bytes) => r is Ok && r->Ok_0@ == bytes,
            Err(f) => r is Err && r->Err_0.reports(f),
        },
{
    let mut buf: Vec<u8> = Vec::new();
    let mut rest: &str = data;
    loop
        invariant
            match spec_encode_packed(rest.spec_bytes()) {
                Ok(tail) => spec_encode_packed(data.spec_bytes()) == Ok::<Seq<u8>, Fault>(
                    buf@ + tail,
                ),
                Err(f) => spec_encode_packed(data.spec_bytes()) == Err::<Seq<u8>, Fault>(f),
            },
        decreases rest.spec_bytes().len(),
    {
        let bytes = rest.as_bytes();
        let at = find_from(bytes, 0, COMMA);
        proof {
            assert(bytes@.skip(0) =~= bytes@);
            lemma_find_bounds(bytes@, COMMA);
        }
        if at == bytes.len() {
            return match encode_field(rest, &mut buf) {
                Ok(()) => Ok(buf),
                Err(e) => Err(e),
            };
        }
        let (head, tail) = split_around(rest, at);
        let ghost before = buf@;
        match encode_field(head, &mut buf) {
            Ok(()) => {},
            Err(e) => {
                return Err(e);
            },
        }
        proof {
            let first = spec_encode_field(head.spec_bytes())->Ok_0;
            match spec_encode_packed(tail.spec_bytes()) {
                Ok(more) => {
                    assert(before + (first + more) =~= (before + first) + more);
                },
                Err(_) => {},
            }
        }
        rest = tail;
    }
}

/// Encodes a list of fields and shows the bytes as hexadecimal text with
/// `0x` in front.
pub fn execute_encode_packed_cmd(input: &str) -> (r: Result<String, ABIError>)
    ensures
        match spec_encode_packed(input.spec_bytes()) {
            Ok(bytes) => r is Ok && r->Ok_0@ == "0x"@ + hex_text(bytes),
            Err(f) => r is Err && r->Err_0.reports(f),
        },
{
    match encode_abi_packed(input) {
        Ok(bytes) => Ok(encode_hex(&bytes)),
        Err(e) => Err(e),
    }
}

} // verus!
