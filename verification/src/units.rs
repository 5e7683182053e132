//! The names of Ether's units and the powers of ten behind them.

use crate::text::same_bytes;
use rust_decimal::Decimal;
use vstd::prelude::*;
use vstd::string::StringSliceAdditionalSpecFns;

verus! {

/// A unit name that is not known.
#[derive(Debug)]
pub enum UnitError {
    /// The name as it was given.
    InvalidUnit(String),
}

impl UnitError {
    /// The message of this error.
    pub open spec fn spec_text(self) -> Seq<char> {
        match self {
            UnitError::InvalidUnit(u) => "invalid unit: "@ + u@,
        }
    }

    /// The message of this error, for display.
    pub fn to_string(&self) -> (r: String)
        ensures
            r@ == self.spec_text(),
    {
        match self {
            UnitError::InvalidUnit(u) => String::from_str("invalid unit: ").concat(u.as_str()),
        }
    }
}

/// A unit of Ether.
#[derive(Debug, Clone, Copy, PartialEq, Eq, Structural)]
pub enum Unit {
    /// The smallest unit.
    Wei,
    /// A thousand wei.
    Kwei,
    /// A million wei.
    Mwei,
    /// 10^9 wei.
    Gwei,
    /// 10^12 wei.
    Microether,
    /// 10^15 wei.
    Milliether,
    /// 10^18 wei.
    Ether,
}

/// The unit that `name` stands for, if any. Every unit but the wei has two
/// names.
pub open spec fn spec_unit(name: Seq<u8>) -> Option<Unit> {
    if name == "wei".spec_bytes() {
        Some(Unit::Wei)
    } else if name == "kwei".spec_bytes() || name == "babbage".spec_bytes() {
        Some(Unit::Kwei)
    } else if name == "mwei".spec_bytes() || name == "lovelace".spec_bytes() {
        Some(Unit::Mwei)
    } else if name == "gwei".spec_bytes() || name == "shannon".spec_bytes() {
        Some(Unit::Gwei)
    } else if name == "microether".spec_bytes() || name == "szabo".spec_bytes() {
        Some(Unit::Microether)
    } else if name == "milliether".spec_bytes() || name == "finney".spec_bytes() {
        Some(Unit::Milliether)
    } else if name == "ether".spec_bytes() || name == "eth".spec_bytes() {
        Some(Unit::Ether)
    } else {
        None
    }
}

/// The names that units go by.
pub open spec fn unit_names() -> Seq<Seq<u8>> {
    seq![
        "wei".spec_bytes(),
        "kwei".spec_bytes(),
        "babbage".spec_bytes(),
        "mwei".spec_bytes(),
        "lovelace".spec_bytes(),
        "gwei".spec_bytes(),
        "shannon".spec_bytes(),
        "microether".spec_bytes(),
        "szabo".spec_bytes(),
        "milliether".spec_bytes(),
        "finney".spec_bytes(),
        "ether".spec_bytes(),
        "eth".spec_bytes(),
    ]
}

/// A name stands for a unit exactly when it is among the names on offer.
pub proof fn lemma_unit_names_are_units(name: Seq<u8>)
    ensures
        spec_unit(name) is Some <==> unit_names().contains(name),
{
    let names = unit_names();
    if spec_unit(name) is Some {
        assert(names[0] == "wei".spec_bytes());
        assert(names[1] == "kwei".spec_bytes());
        assert(names[2] == "babbage".spec_bytes());
        assert(names[3] == "mwei".spec_bytes());
        assert(names[4] == "lovelace".spec_bytes());
        assert(names[5] == "gwei".spec_bytes());
        assert(names[6] == "shannon".spec_bytes());
        assert(names[7] == "microether".spec_bytes());
        assert(names[8] == "szabo".spec_bytes());
        assert(names[9] == "milliether".spec_bytes());
        assert(names[10] == "finney".spec_bytes());
        assert(names[11] == "ether".spec_bytes());
        assert(names[12] == "eth".spec_bytes());
        assert(names.contains(name));
    }
}

/// Ten to the power `n`.
pub open spec fn pow10(n: nat) -> nat
    decreases n,
{
    if n == 0 {
        1
    } else {
        10 * pow10((n - 1) as nat)
    }
}

impl Unit {
    /// How many decimal places lie between this unit and the wei.
    pub open spec fn spec_exponent(self) -> nat {
        match self {
            Unit::Wei => 0,
            Unit::Kwei => 3,
            Unit::Mwei => 6,
            Unit::Gwei => 9,
            Unit::Microether => 12,
            Unit::Milliether => 15,
            Unit::Ether => 18,
        }
    }

    /// How many decimal places lie between this unit and the wei.
    pub fn exponent(&self) -> (e: u32)
        ensures
            e == self.spec_exponent(),
    {
        match self {
            Unit::Wei => 0,
            Unit::Kwei => 3,
            Unit::Mwei => 6,
            Unit::Gwei => 9,
            Unit::Microether => 12,
            Unit::Milliether => 15,
            Unit::Ether => 18,
        }
    }

    /// How many wei make one of this unit.
    pub fn wei_factor(&self) -> (f: i64)
        ensures
            f == pow10(self.spec_exponent()),
    {
        proof {
            reveal_with_fuel(pow10, 19);
        }
        match self {
            Unit::Wei => 1,
            Unit::Kwei => 1_000,
            Unit::Mwei => 1_000_000,
            Unit::Gwei => 1_000_000_000,
            Unit::Microether => 1_000_000_000_000,
            Unit::Milliether => 1_000_000_000_000_000,
            Unit::Ether => 1_000_000_000_000_000_000,
        }
    }

    /// The names that units go by, in the order from the smallest unit to
    /// the largest.
    pub fn possible_values() -> (names: Vec<&'static str>)
        ensures
            names@.len() == unit_names().len(),
            forall|i: int| 0 <= i < names@.len() ==> names@[i].spec_bytes() == unit_names()[i],
    {
        vec![
            "wei",
            "kwei",
            "babbage",
            "mwei",
            "lovelace",
            "gwei",
            "shannon",
            "microether",
            "szabo",
            "milliether",
            "finney",
            "ether",
            "eth",
        ]
    }

    /// The unit that goes by the name `input`.
    pub fn from_str(input: &str) -> (r: Result<Unit, UnitError>)
        ensures
            match spec_unit(input.spec_bytes()) {
                Some(unit) => r == Ok::<Unit, UnitError>(unit),
                None => r matches Err(UnitError::InvalidUnit(name)) && name@ == input@,
            },
    {
        let name = input.as_bytes();
        if same_bytes(name, "wei".as_bytes()) {
            Ok(Unit::Wei)
        } else if same_bytes(name, "kwei".as_bytes()) || same_bytes(name, "babbage".as_bytes()) {
            Ok(Unit::Kwei)
        } else if same_bytes(name, "mwei".as_bytes()) || same_bytes(name, "lovelace".as_bytes()) {
            Ok(Unit::Mwei)
        } else if same_bytes(name, "gwei".as_bytes()) || same_bytes(name, "shannon".as_bytes()) {
            Ok(Unit::Gwei)
        } else if same_bytes(name, "microether".as_bytes()) || same_bytes(
            name,
            "szabo".as_bytes(),
        ) {
            Ok(Unit::Microether)
        } else if same_bytes(name, "milliether".as_bytes()) || same_bytes(
            name,
            "finney".as_bytes(),
        ) {
            Ok(Unit::Milliether)
        } else if same_bytes(name, "ether".as_bytes()) || same_bytes(name, "eth".as_bytes()) {
            Ok(Unit::Ether)
        } else {
            Err(UnitError::InvalidUnit(String::from_str(input)))
        }
    }
}

/// Why an amount is not converted.
#[derive(Debug)]
pub enum ConversionError {
    /// The amount is no decimal number; the payload is the parser's message.
    InvalidAmount(String),
    /// The unit is not known.
    InvalidUnit(UnitError),
    /// The result is more than a decimal number of 96 bits can hold.
    Overflow,
}

impl ConversionError {
    /// The message of this error, for display. That of an amount is the
    /// parser's own.
    pub fn to_string(&self) -> (r: String)
        ensures
            match *self {
                ConversionError::InvalidAmount(m) => r@ == m@,
                ConversionError::InvalidUnit(e) => r@ == e.spec_text(),
                ConversionError::Overflow => r@ == "the amount is too large"@,
            },
    {
        match self {
            ConversionError::InvalidAmount(m) => m.clone(),
            ConversionError::InvalidUnit(e) => e.to_string(),
            ConversionError::Overflow => String::from_str("the amount is too large"),
        }
    }
}

/// An amount as `rust_decimal` shows it after reading it; `None` where it
/// does not read it.
pub uninterp spec fn shown_amount(amount: Seq<u8>) -> Option<Seq<char>>;

/// The message with which `rust_decimal` refuses to read an amount.
pub uninterp spec fn amount_complaint(amount: Seq<u8>) -> Seq<char>;

/// An amount times `factor` at `scale` decimal places, as `rust_decimal`
/// shows it; `None` where it does not read the amount, `Some(None)` where
/// there is no product to show.
pub uninterp spec fn amount_times(amount: Seq<u8>, factor: i64, scale: u32) -> Option<
    Option<Seq<char>>,
>;

/// An amount whose digits are taken with `scale` decimal places, as
/// `rust_decimal` shows it; `None` where it does not read the amount.
pub uninterp spec fn shown_at_scale(amount: Seq<u8>, scale: u32) -> Option<Seq<char>>;

/// An amount whose digits are taken with `scale` decimal places, divided by
/// `factor` at `scale` decimal places, as `rust_decimal` shows it; `None`
/// where it does not read the amount, `Some(None)` where there is no quotient
/// to show.
pub uninterp spec fn divided_at_scale(amount: Seq<u8>, factor: i64, scale: u32) -> Option<
    Option<Seq<char>>,
>;

/// The number of decimal places at which an amount of wei is taken: as many
/// as lie between the wei and the ether.
pub const WEI_PLACES: u32 = 18;

/// The number of decimal places of a unit's factor, a whole number.
pub const FACTOR_PLACES: u32 = 0;

/// `Decimal::from_str` (through `str::parse`), then `to_string` of the number
/// or of the error.
#[verifier::external_body]
fn show_amount(amount: &str) -> (r: Result<String, String>)
    ensures
        match shown_amount(amount.spec_bytes()) {
            Some(text) => r is Ok && r->Ok_0@ == text,
            None => r is Err && r->Err_0@ == amount_complaint(amount.spec_bytes()),
        },
{
    match amount.parse::<Decimal>() {
        Ok(value) => Ok(value.to_string()),
        Err(e) => Err(e.to_string()),
    }
}

/// `Decimal::from_str` (through `str::parse`), then `checked_mul` by
/// `Decimal::new(factor, scale)`, which refuses no scale up to 28, then
/// `to_string`. The amount is read as [`show_amount`] reads it, and refused
/// with the same message.
#[verifier::external_body]
fn multiply_amount(amount: &str, factor: i64, scale: u32) -> (r: Result<Option<String>, String>)
    requires
        scale <= 28,
    ensures
        match amount_times(amount.spec_bytes(), factor, scale) {
            Some(Some(text)) => r matches Ok(Some(s)) && s@ == text,
            Some(None) => r matches Ok(None),
            None => r is Err && r->Err_0@ == amount_complaint(amount.spec_bytes()),
        },
        r is Ok <==> shown_amount(amount.spec_bytes()) is Some,
{
    match amount.parse::<Decimal>() {
        Ok(value) => match value.checked_mul(Decimal::new(factor, scale)) {
            Some(product) => Ok(Some(product.to_string())),
            None => Ok(None),
        },
        Err(e) => Err(e.to_string()),
    }
}

/// `Decimal::from_str` (through `str::parse`), then `set_scale(scale)`, which
/// refuses no scale up to 28, then `to_string`. The amount is read as
/// [`show_amount`] reads it, and refused with the same message.
#[verifier::external_body]
fn show_at_scale(amount: &str, scale: u32) -> (r: Result<String, String>)
    requires
        scale <= 28,
    ensures
        match shown_at_scale(amount.spec_bytes(), scale) {
            Some(text) => r is Ok && r->Ok_0@ == text,
            None => r is Err && r->Err_0@ == amount_complaint(amount.spec_bytes()),
        },
        r is Ok <==> shown_amount(amount.spec_bytes()) is Some,
{
    match amount.parse::<Decimal>() {
        Ok(mut value) => match value.set_scale(scale) {
            Ok(()) => Ok(value.to_string()),
            Err(e) => Err(e.to_string()),
        },
        Err(e) => Err(e.to_string()),
    }
}

/// `Decimal::from_str` (through `str::parse`), then `set_scale(scale)`, then
/// `checked_div` by `Decimal::new(factor, scale)`, then `to_string`. Neither
/// `set_scale` nor `Decimal::new` refuses a scale up to 28. The amount is
/// read as [`show_amount`] reads it, and refused with the same message.
#[verifier::external_body]
fn divide_at_scale(amount: &str, factor: i64, scale: u32) -> (r: Result<Option<String>, String>)
    requires
        scale <= 28,
    ensures
        match divided_at_scale(amount.spec_bytes(), factor, scale) {
            Some(Some(text)) => r matches Ok(Some(s)) && s@ == text,
            Some(None) => r matches Ok(None),
            None => r is Err && r->Err_0@ == amount_complaint(amount.spec_bytes()),
        },
        r is Ok <==> shown_amount(amount.spec_bytes()) is Some,
{
    match amount.parse::<Decimal>() {
        Ok(mut value) => match value.set_scale(scale) {
            Ok(()) => match value.checked_div(Decimal::new(factor, scale)) {
                Some(quotient) => Ok(Some(quotient.to_string())),
                None => Ok(None),
            },
            Err(e) => Err(e.to_string()),
        },
        Err(e) => Err(e.to_string()),
    }
}

/// The reasons for which an amount is not converted, as the contracts tell
/// them apart.
pub enum ConversionFault {
    /// The amount is no decimal number.
    Amount,
    /// The unit is not known.
    Unit,
    /// The result is too large.
    Overflow,
}

/// Whether `r` is the outcome that `expected` describes: the text, or the
/// error, with the parser's message where the amount is at fault and with
/// the unit's name where the unit is.
pub open spec fn converted(
    r: Result<String, ConversionError>,
    amount: Seq<u8>,
    unit_text: Seq<char>,
    expected: Result<Seq<char>, ConversionFault>,
) -> bool {
    match expected {
        Ok(text) => r is Ok && r->Ok_0@ == text,
        Err(ConversionFault::Amount) => r matches Err(ConversionError::InvalidAmount(m)) && m@
            == amount_complaint(amount),
        Err(ConversionFault::Unit) => r matches Err(
            ConversionError::InvalidUnit(UnitError::InvalidUnit(name)),
        ) && name@ == unit_text,
        Err(ConversionFault::Overflow) => r matches Err(ConversionError::Overflow),
    }
}

/// An amount of `unit` in wei. The amount is looked at before the unit; the
/// wei itself is shown as it was read.
pub open spec fn spec_to_wei(amount: Seq<u8>, unit: Seq<u8>) -> Result<Seq<char>, ConversionFault> {
    match (shown_amount(amount), spec_unit(unit)) {
        (None, _) => Err(ConversionFault::Amount),
        (Some(_), None) => Err(ConversionFault::Unit),
        (Some(shown), Some(Unit::Wei)) => Ok(shown),
        (Some(_), Some(other)) => match amount_times(
            amount,
            pow10(other.spec_exponent()) as i64,
            FACTOR_PLACES,
        ) {
            Some(Some(text)) => Ok(text),
            Some(None) => Err(ConversionFault::Overflow),
            None => Err(ConversionFault::Amount),
        },
    }
}

/// An amount of wei in `unit`. The digits of the amount are taken with 18
/// decimal places, and the amount is looked at before the unit. For the wei
/// itself the digits are shown so; for another unit they are divided by its
/// factor at 18 decimal places.
pub open spec fn spec_from_wei(amount: Seq<u8>, unit: Seq<u8>) -> Result<
    Seq<char>,
    ConversionFault,
> {
    match (shown_at_scale(amount, WEI_PLACES), spec_unit(unit)) {
        (None, _) => Err(ConversionFault::Amount),
        (Some(_), None) => Err(ConversionFault::Unit),
        (Some(shown), Some(Unit::Wei)) => Ok(shown),
        (Some(_), Some(other)) => match divided_at_scale(
            amount,
            pow10(other.spec_exponent()) as i64,
            WEI_PLACES,
        ) {
            Some(Some(text)) => Ok(text),
            Some(None) => Err(ConversionFault::Overflow),
            None => Err(ConversionFault::Amount),
        },
    }
}

/// Converts the decimal number `amount` of the unit named `unit_str` into wei.
pub fn execute_to_wei_cmd(amount: &str, unit_str: &str) -> (r: Result<String, ConversionError>)
    ensures
        converted(
            r,
            amount.spec_bytes(),
            unit_str@,
            spec_to_wei(amount.spec_bytes(), unit_str.spec_bytes()),
        ),
{
    let shown = match show_amount(amount) {
        Ok(shown) => shown,
        Err(message) => {
            return Err(ConversionError::InvalidAmount(message));
        },
    };
    let unit = match Unit::from_str(unit_str) {
        Ok(unit) => unit,
        Err(e) => {
            return Err(ConversionError::InvalidUnit(e));
        },
    };
    match unit {
        Unit::Wei => Ok(shown),
        _ => match multiply_amount(amount, unit.wei_factor(), FACTOR_PLACES) {
            Ok(Some(text)) => Ok(text),
            Ok(None) => Err(ConversionError::Overflow),
            Err(message) => Err(ConversionError::InvalidAmount(message)),
        },
    }
}

/// Converts the decimal number `amount` of wei into the unit named
/// `unit_str`.
pub fn execute_from_wei_cmd(amount: &str, unit_str: &str) -> (r: Result<String, ConversionError>)
    ensures
        converted(
            r,
            amount.spec_bytes(),
            unit_str@,
            spec_from_wei(amount.spec_bytes(), unit_str.spec_bytes()),
        ),
{
    let shown = match show_at_scale(amount, WEI_PLACES) {
        Ok(shown) => shown,
        Err(message) => {
            return Err(ConversionError::InvalidAmount(message));
        },
    };
    let unit = match Unit::from_str(unit_str) {
        Ok(unit) => unit,
        Err(e) => {
            return Err(ConversionError::InvalidUnit(e));
        },
    };
    match unit {
        Unit::Wei => Ok(shown),
        _ => match divide_at_scale(amount, unit.wei_factor(), WEI_PLACES) {
            Ok(Some(text)) => Ok(text),
            Ok(None) => Err(ConversionError::Overflow),
            Err(message) => Err(ConversionError::InvalidAmount(message)),
        },
    }
}

} // verus!
