//! Amounts as banks give them: floating-point numbers, carried as their bits.
//!
//! A binary64 number is 64 bits: the sign, and a magnitude that orders numbers
//! without sign as it orders integers. Magnitudes above that of infinity stand
//! for no number.

use crate::text::{replace_char, replaced};
use vstd::prelude::*;

verus! {

/// The bit of the sign.
pub const SIGN: u64 = 0x8000_0000_0000_0000;

/// The magnitude of infinity.
pub const INFINITE: u64 = 0x7FF0_0000_0000_0000;

/// The bits of one.
pub const ONE: u64 = 0x3FF0_0000_0000_0000;

/// A floating-point number, as its bits.
#[derive(Clone, Copy, Debug, PartialEq, Eq, Structural)]
pub struct FloatBits {
    pub bits: u64,
}

impl FloatBits {
    /// The bits without the sign.
    pub open spec fn spec_magnitude(self) -> int {
        if self.bits >= SIGN {
            self.bits - SIGN
        } else {
            self.bits as int
        }
    }

    /// Whether the bits stand for a number at all.
    pub open spec fn is_number(self) -> bool {
        self.spec_magnitude() <= INFINITE
    }

    /// Whether the number is zero, of either sign.
    pub open spec fn spec_is_zero(self) -> bool {
        self.spec_magnitude() == 0
    }

    /// Whether the number is more than zero.
    pub open spec fn spec_is_positive(self) -> bool {
        self.is_number() && !self.spec_is_zero() && self.bits < SIGN
    }

    /// Whether the number is less than zero.
    pub open spec fn spec_is_negative(self) -> bool {
        self.is_number() && !self.spec_is_zero() && self.bits >= SIGN
    }

    /// The number without its sign.
    pub open spec fn spec_abs(self) -> FloatBits {
        FloatBits { bits: self.spec_magnitude() as u64 }
    }

    pub fn is_zero(&self) -> (r: bool)
        ensures
            r == self.spec_is_zero(),
    {
        self.bits == 0 || self.bits == SIGN
    }

    pub fn is_positive(&self) -> (r: bool)
        ensures
            r == self.spec_is_positive(),
    {
        self.bits > 0 && self.bits <= INFINITE
    }

    pub fn is_negative(&self) -> (r: bool)
        ensures
            r == self.spec_is_negative(),
    {
        self.bits > SIGN && self.bits - SIGN <= INFINITE
    }

    pub fn abs(&self) -> (r: FloatBits)
        ensures
            r == self.spec_abs(),
            !r.spec_is_negative(),
            r.spec_is_zero() == self.spec_is_zero(),
            r.is_number() == self.is_number(),
    {
        if self.bits >= SIGN {
            FloatBits { bits: self.bits - SIGN }
        } else {
            FloatBits { bits: self.bits }
        }
    }
}

/// A number is positive or negative by its bits: below the sign's bit or above
/// it, not zero, and not above infinity. Without its sign it has the same bits
/// but for the sign's.
pub proof fn law_sign_stands_in_the_bits(number: FloatBits)
    ensures
        number.spec_is_zero() <==> number.bits == 0 || number.bits == 0x8000_0000_0000_0000,
        number.spec_is_positive() <==> 0 < number.bits <= 0x7FF0_0000_0000_0000,
        number.spec_is_negative() <==> 0x8000_0000_0000_0000 < number.bits
            <= 0xFFF0_0000_0000_0000,
        number.bits < 0x8000_0000_0000_0000 ==> number.spec_abs() == number,
        number.bits >= 0x8000_0000_0000_0000 ==> number.spec_abs().bits == number.bits
            - 0x8000_0000_0000_0000,
{
}

/// An amount, with how it is written without its sign, to two places.
#[derive(Debug)]
pub struct Amount {
    pub value: FloatBits,
    pub two_places: String,
}

/// The price of a unit: what was stated, or what has to be worked out.
#[derive(Clone, Copy, Debug, PartialEq, Eq, Structural)]
pub enum UnitPrice {
    Stated(FloatBits),
    /// An amount, divided by a quantity.
    Quotient { amount: FloatBits, quantity: FloatBits },
}

/// An amount in a bank's answer: a number or a text.
#[derive(Debug)]
pub enum AmountValue {
    Number(FloatBits),
    Text(String),
    Other,
}

/// What there is to know of an amount: its value, or the text in which its
/// value stands, or nothing.
#[derive(Debug)]
pub enum ParsedAmount {
    Value(FloatBits),
    Text(String),
    Missing,
}

/// What there is to know of an amount that may come as a number or as a text.
/// In a text a comma stands for the point.
pub fn parse_amount(value: &AmountValue) -> (parsed: ParsedAmount)
    ensures
        match *value {
            AmountValue::Number(number) => parsed == ParsedAmount::Value(number),
            AmountValue::Text(text) => parsed is Text && parsed->Text_0@ == replaced(
                text@,
                ',',
                '.',
            ),
            AmountValue::Other => parsed is Missing,
        },
        *value is Text ==> parsed is Text && parsed->Text_0@.len() == value->Text_0@.len()
            && forall|i: int|
            0 <= i < value->Text_0@.len() ==> #[trigger] parsed->Text_0@[i] == if value->Text_0@[i]
                == ',' {
                '.'
            } else {
                value->Text_0@[i]
            },
{
    match value {
        AmountValue::Number(number) => ParsedAmount::Value(*number),
        AmountValue::Text(text) => ParsedAmount::Text(replace_char(text.as_str(), ',', '.')),
        AmountValue::Other => ParsedAmount::Missing,
    }
}

} // verus!
