//! Operands: an addressing marker followed by a decimal numeral.

use crate::error::EncodeError;
use crate::text::chars_of;
use vstd::prelude::*;

verus! {

/// The marker of an operand that is a literal value.
pub const IMMEDIATE_MARKER: char = '#';

/// The marker of an operand that is a memory address.
pub const DIRECT_MARKER: char = '$';

/// The operand of an instruction line.
#[derive(Clone, Copy, Debug, PartialEq, Eq, Structural)]
pub enum OperandSpec {
    /// The line has no operand.
    Absent,
    /// A literal value, written after `#`.
    Immediate(u8),
    /// A memory address, written after `$`.
    Direct(u8),
}

impl OperandSpec {
    /// Whether the operand asks for the direct form of its instruction.
    pub open spec fn wants_direct(self) -> bool {
        self is Direct
    }

    /// The operand byte that is emitted: the operand's value, or 0 without an
    /// operand.
    pub open spec fn byte(self) -> u8 {
        match self {
            OperandSpec::Absent => 0,
            OperandSpec::Immediate(value) => value,
            OperandSpec::Direct(value) => value,
        }
    }
}

/// The decimal digits `0` to `9`.
pub open spec fn is_digit(c: char) -> bool {
    '0' <= c <= '9'
}

/// The value of a decimal digit.
pub open spec fn digit_value(c: char) -> nat {
    (c as u32 - '0' as u32) as nat
}

/// The number that a sequence of decimal digits denotes; 0 for none.
pub open spec fn digits_value(digits: Seq<char>) -> nat
    decreases digits.len(),
{
    if digits.len() == 0 {
        0
    } else {
        10 * digits_value(digits.drop_last()) + digit_value(digits.last())
    }
}

/// Whether every character of `text` is a decimal digit.
pub open spec fn all_digits(text: Seq<char>) -> bool {
    forall|i: int| 0 <= i < text.len() ==> is_digit(#[trigger] text[i])
}

/// The digits of a numeral: the text without the `+` it may start with.
pub open spec fn unsigned(text: Seq<char>) -> Seq<char> {
    if text.len() > 0 && text[0] == '+' {
        text.skip(1)
    } else {
        text
    }
}

/// The byte that a numeral denotes. A numeral is one or more decimal digits,
/// with any number of leading zeros, and may start with `+`; its value must be
/// at most 255.
pub open spec fn numeral(text: Seq<char>) -> Result<u8, EncodeError> {
    let digits = unsigned(text);
    if digits.len() == 0 || !all_digits(digits) {
        Err(EncodeError::InvalidNumeral)
    } else if digits_value(digits) > 255 {
        Err(EncodeError::OperandOutOfRange)
    } else {
        Ok(digits_value(digits) as u8)
    }
}

/// What an operand text stands for. An empty text is no operand; any other
/// starts with a marker, `#` or `$`, and goes on with a numeral.
pub open spec fn operand_spec(text: Seq<char>) -> Result<OperandSpec, EncodeError> {
    if text.len() == 0 {
        Ok(OperandSpec::Absent)
    } else if text[0] == IMMEDIATE_MARKER {
        match numeral(text.skip(1)) {
            Ok(value) => Ok(OperandSpec::Immediate(value)),
            Err(error) => Err(error),
        }
    } else if text[0] == DIRECT_MARKER {
        match numeral(text.skip(1)) {
            Ok(value) => Ok(OperandSpec::Direct(value)),
            Err(error) => Err(error),
        }
    } else {
        Err(EncodeError::UnrecognizedMarker)
    }
}

/// The decimal digit that stands for `d`, a number below 10.
pub open spec fn digit_char(d: nat) -> char {
    ('0' as u32 + d) as char
}

/// The decimal text of a number, without leading zeros.
pub open spec fn decimal(n: nat) -> Seq<char>
    decreases n,
{
    if n < 10 {
        seq![digit_char(n)]
    } else {
        decimal(n / 10).push(digit_char(n % 10))
    }
}

/// A numeral with one more digit is worth ten times as much, plus the digit.
pub proof fn lemma_digits_value_push(digits: Seq<char>, digit: char)
    ensures
        digits_value(digits.push(digit)) == 10 * digits_value(digits) + digit_value(digit),
{
    assert(digits.push(digit).drop_last() == digits);
}

/// The decimal text of a number is made of digits and denotes the number.
pub proof fn lemma_decimal_digits(n: nat)
    ensures
        decimal(n).len() > 0,
        all_digits(decimal(n)),
        digits_value(decimal(n)) == n,
    decreases n,
{
    if n < 10 {
        assert(decimal(n) == Seq::<char>::empty().push(digit_char(n)));
        lemma_digits_value_push(Seq::empty(), digit_char(n));
    } else {
        lemma_decimal_digits(n / 10);
        lemma_digits_value_push(decimal(n / 10), digit_char(n % 10));
    }
}

/// Every byte has a numeral: its decimal text is read back as the byte.
pub proof fn lemma_numeral_of_decimal(n: u8)
    ensures
        numeral(decimal(n as nat)) == Ok::<u8, EncodeError>(n),
{
    lemma_decimal_digits(n as nat);
    assert(is_digit(decimal(n as nat)[0]));
}

/// A numeral is read without truncation: the byte is the number that the
/// digits denote, and a text that denotes more than 255 is rejected, as is
/// one that is not made of digits.
pub proof fn lemma_numeral_exact(text: Seq<char>)
    ensures
        match numeral(text) {
            Ok(value) => {
                &&& unsigned(text).len() > 0
                &&& all_digits(unsigned(text))
                &&& digits_value(unsigned(text)) == value as nat
            },
            Err(EncodeError::OperandOutOfRange) => {
                &&& unsigned(text).len() > 0
                &&& all_digits(unsigned(text))
                &&& digits_value(unsigned(text)) > 255
            },
            Err(error) => {
                &&& error == EncodeError::InvalidNumeral
                &&& (unsigned(text).len() == 0 || !all_digits(unsigned(text)))
            },
        },
{
}

/// Reads the numeral that `chars` holds from `start` on.
pub(crate) fn numeral_at(chars: &Vec<char>, start: usize) -> (r: Result<u8, EncodeError>)
    requires
        start <= chars.len(),
    ensures
        r == numeral(chars@.skip(start as int)),
{
    let first: usize = if start < chars.len() && chars[start] == '+' {
        start + 1
    } else {
        start
    };
    let ghost digits = chars@.skip(first as int);
    assert(unsigned(chars@.skip(start as int)) == digits);
    let mut value: u32 = 0;
    let mut too_large = false;
    let mut i: usize = first;
    while i < chars.len()
        invariant
            first <= i <= chars.len(),
            digits == chars@.skip(first as int),
            digits == unsigned(chars@.skip(start as int)),
            all_digits(digits.take(i - first)),
            !too_large ==> value == digits_value(digits.take(i - first)) && value <= 255,
            too_large ==> digits_value(digits.take(i - first)) > 255,
        decreases chars.len() - i,
    {
        let c = chars[i];
        if !(c >= '0' && c <= '9') {
            assert(!is_digit(digits[i - first]));
            return Err(EncodeError::InvalidNumeral);
        }
        let digit: u32 = c as u32 - '0' as u32;
        proof {
            assert(digits.take(i - first + 1) == digits.take(i - first).push(c));
            lemma_digits_value_push(digits.take(i - first), c);
        }
        if !too_large {
            value = value * 10 + digit;
            if value > 255 {
                too_large = true;
            }
        }
        i += 1;
    }
    assert(digits.take(i - first) == digits);
    if i == first {
        Err(EncodeError::InvalidNumeral)
    } else if too_large {
        Err(EncodeError::OperandOutOfRange)
    } else {
        Ok(value as u8)
    }
}

/// Reads a numeral.
pub fn parse_numeral(text: &str) -> (r: Result<u8, EncodeError>)
    ensures
        r == numeral(text@),
{
    let chars = chars_of(text);
    assert(chars@.skip(0) == chars@);
    numeral_at(&chars, 0)
}

/// Reads an operand text: nothing, or a marker and a numeral.
pub fn parse_operand(text: &str) -> (r: Result<OperandSpec, EncodeError>)
    ensures
        r == operand_spec(text@),
{
    let chars = chars_of(text);
    if chars.len() == 0 {
        Ok(OperandSpec::Absent)
    } else if chars[0] == IMMEDIATE_MARKER {
        match numeral_at(&chars, 1) {
            Ok(value) => Ok(OperandSpec::Immediate(value)),
            Err(error) => Err(error),
        }
    } else if chars[0] == DIRECT_MARKER {
        match numeral_at(&chars, 1) {
            Ok(value) => Ok(OperandSpec::Direct(value)),
            Err(error) => Err(error),
        }
    } else {
        Err(EncodeError::UnrecognizedMarker)
    }
}

} // verus!
