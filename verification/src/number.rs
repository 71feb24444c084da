//! Numeric literals: their exact parts, and the conversions from them.
//!
//! A literal is an optional sign, then either a radix prefix (`0b`, `0o`, `0x`,
//! in either case) with digits of that radix, or a decimal number with an
//! optional fraction and exponent. [`ParsedNumber::parse`] takes the longest
//! literal at the start of a text and hands back what follows it.
//!
//! [`grammar`] says what a literal is, [`laws`] what holds of every literal.

use crate::number::ascii::{lemma_ascii_decode, lemma_ascii_prefix_boundary, lemma_literal_ascii};
use crate::number::convert::{float_parts, make_integer, FloatParts};
use crate::number::grammar::{
    decimal_at, digits_end, fraction_len, has_point, integer_at, is_radix_digit, literal,
    mantissa_digits, mantissa_end, point_at, DIGIT_0, MINUS, PLUS, POINT,
};
use crate::number::scan::{
    bias_exponent, is_digit, lemma_digits_end_step, lemma_written_pair_reversed,
    lemma_written_reversed, parse_digit, parse_exponent, radix_of_letter, raise_exponent,
    reverse_digits, starts_with_digit, written_digits,
};
use crate::number::trim::{lemma_low_zeros_is, lemma_significant_len_is};
use crate::sourcepos::Span;
use vstd::prelude::*;
use vstd::string::StringSliceAdditionalSpecFns;
use vstd::utf8::{
    decode_utf8, decode_utf8_split, encode_utf8_decode_utf8, encode_utf8_valid_utf8,
    valid_utf8_split,
};

pub mod ascii;
pub mod convert;
pub mod grammar;
pub mod laws;
pub mod reparse;
pub mod scan;
pub mod text;
pub mod trim;

verus! {

/// Why a text is not a literal, or a literal is not an integer.
#[derive(Debug, Clone, Copy, PartialEq, Eq, Structural)]
pub enum ParseError {
    /// A decimal digit that the radix does not have, such as `2` in binary.
    InvalidDigit(Radix, char),
    /// A second `.` in a decimal number.
    ExtraPoint,
    /// A `.` after the digits of a number that is not decimal.
    UnexpectedPoint(Radix),
    /// A character that cannot stand where it was found.
    UnexpectedChar(char),
    /// No digit where the number should be.
    NoDigits,
    /// An exponent marker without digits after it.
    NoExponentValue,
    /// The integer does not fit in 64 bits.
    IntegerTooLarge,
}

/// The sign of a number.
#[derive(Debug, Clone, Copy, PartialEq, Eq, Structural)]
pub enum Sign {
    Positive,
    Negative,
}

/// The base in which the digits of a number are written.
#[derive(Debug, Clone, Copy, PartialEq, Eq, Structural)]
pub enum Radix {
    Binary,
    Octal,
    Decimal,
    Hexadecimal,
}

impl Radix {
    /// The base as a number: 2, 8, 10 or 16.
    pub open spec fn base(self) -> int {
        match self {
            Radix::Binary => 2,
            Radix::Octal => 8,
            Radix::Decimal => 10,
            Radix::Hexadecimal => 16,
        }
    }

    /// The base as a number: 2, 8, 10 or 16.
    pub fn value(self) -> (r: u8)
        ensures
            r == self.base(),
    {
        match self {
            Radix::Binary => 2,
            Radix::Octal => 8,
            Radix::Decimal => 10,
            Radix::Hexadecimal => 16,
        }
    }
}

/// The parts of a literal as mathematical values: what a [`ParsedNumber`]
/// stands for.
pub ghost struct Literal {
    pub sign: Sign,
    pub radix: Radix,
    /// One value per digit, least significant first. No digits means zero.
    pub digits: Seq<u8>,
    /// The power of ten that scales the digits; `None` is the same as 0.
    pub exponent: Option<i32>,
}

/// A number which has been parsed into its parts.
///
/// The value is meant to be reused: each call of [`ParsedNumber::parse`]
/// clears it and fills it again.
#[derive(Debug, Clone)]
pub struct ParsedNumber {
    pub sign: Sign,
    pub radix: Radix,
    /// One value per digit, least significant first. No digits means zero.
    pub digits: Vec<u8>,
    /// The decimal exponent, with the digits after the point already counted
    /// in: `1.23` has the digits `[3, 2, 1]` and the exponent -2.
    pub exponent: Option<i32>,
}

impl View for ParsedNumber {
    type V = Literal;

    open spec fn view(&self) -> Literal {
        Literal {
            sign: self.sign,
            radix: self.radix,
            digits: self.digits@,
            exponent: self.exponent,
        }
    }
}

/// The number that the digits `digits`, least significant first, denote in
/// base `base`.
pub open spec fn digits_value(digits: Seq<u8>, base: int) -> int
    decreases digits.len(),
{
    if digits.len() == 0 {
        0
    } else {
        digits[0] + base * digits_value(digits.skip(1), base)
    }
}

impl Literal {
    /// Every digit is a digit of the radix, and only a decimal number has an
    /// exponent.
    pub open spec fn wf(self) -> bool {
        &&& forall|i: int| 0 <= i < self.digits.len() ==> self.digits[i] < self.radix.base()
        &&& self.exponent is Some ==> self.radix == Radix::Decimal
    }

    /// The integer that the sign and the digits denote, whatever the exponent.
    pub open spec fn integer_value(self) -> int {
        match self.sign {
            Sign::Positive => digits_value(self.digits, self.radix.base()),
            Sign::Negative => -digits_value(self.digits, self.radix.base()),
        }
    }
}

impl ParsedNumber {
    /// Creates an empty number: positive, decimal, without digits.
    pub fn new() -> (r: Self)
        ensures
            r@ == (Literal {
                sign: Sign::Positive,
                radix: Radix::Decimal,
                digits: Seq::empty(),
                exponent: None,
            }),
    {
        ParsedNumber {
            sign: Sign::Positive,
            radix: Radix::Decimal,
            digits: Vec::new(),
            exponent: None,
        }
    }

    /// Parses the literal at the start of `text`, where `pos` is the span of
    /// `text`, and returns the text that follows the literal.
    ///
    /// The grammar is that of [`literal`], applied to the bytes of the text. A
    /// literal is made of ASCII characters, so it has as many characters as
    /// bytes, and the rest starts at that character.
    pub fn parse<'a>(&mut self, text: &'a str, pos: Span) -> (r: Result<
        &'a str,
        (ParseError, Span),
    >)
        ensures
            match (literal(text.spec_bytes(), pos), r) {
                (Ok(parsed), Ok(rest)) => {
                    &&& final(self)@ == parsed.number
                    &&& 0 < parsed.end <= text@.len()
                    &&& rest@ == text@.skip(parsed.end)
                    &&& rest.spec_bytes() == text.spec_bytes().skip(parsed.end)
                    &&& forall|i: int|
                        0 <= i < parsed.end ==> #[trigger] text@[i] == text.spec_bytes()[i] as char
                },
                (Err(expected), Err(e)) => e == expected,
                _ => false,
            },
            final(self)@.wf(),
    {
        let bytes = text.as_bytes();
        match self.parse_bytes(bytes, pos) {
            Ok(end) => {
                proof {
                    let all = text.spec_bytes();
                    let head = all.subrange(0, end as int);
                    let tail = all.subrange(end as int, all.len() as int);
                    encode_utf8_valid_utf8(text@);
                    encode_utf8_decode_utf8(text@);
                    lemma_literal_ascii(all, pos);
                    lemma_ascii_prefix_boundary(all, end as int);
                    valid_utf8_split(all, end as int);
                    decode_utf8_split(all, end as int);
                    lemma_ascii_decode(head);
                    assert(text@ == decode_utf8(head) + decode_utf8(tail));
                }
                let (_, rest) = text.split_at(end);
                proof {
                    let all = text.spec_bytes();
                    let head = all.subrange(0, end as int);
                    let tail = all.subrange(end as int, all.len() as int);
                    encode_utf8_decode_utf8(rest@);
                    assert(rest@ == decode_utf8(tail));
                    assert forall|i: int| 0 <= i < end implies #[trigger] text@[i] == all[i]
                        as char by {
                        assert(text@[i] == decode_utf8(head)[i]);
                    }
                }
                Ok(rest)
            },
            Err(e) => Err(e),
        }
    }

    /// Takes the longest literal at the start of `text`, where `pos` is the
    /// span of `text`.
    ///
    /// On success the number holds the literal, and the result is the number of
    /// bytes that the literal takes; what follows it is not looked at. On
    /// failure the result is the error and the span of the bytes at fault, and
    /// the number holds no literal.
    pub fn parse_bytes(&mut self, text: &[u8], pos: Span) -> (r: Result<usize, (ParseError, Span)>)
        ensures
            match (literal(text@, pos), r) {
                (Ok(parsed), Ok(end)) => end == parsed.end && final(self)@ == parsed.number && 0
                    < end <= text@.len(),
                (Err(expected), Err(e)) => e == expected,
                _ => false,
            },
            final(self)@.wf(),
    {
        let len = text.len();
        let mut start: usize = 0;
        self.sign = Sign::Positive;
        if len > 0 && (text[0] == PLUS || text[0] == MINUS) {
            if text[0] == MINUS {
                self.sign = Sign::Negative;
            }
            start = 1;
        }
        if len >= 3 && start < len - 2 && text[start] == DIGIT_0 {
            if let Some(radix) = radix_of_letter(text[start + 1]) {
                if starts_with_digit(text, start + 2, radix) {
                    return self.parse_int(radix, text, start + 2, pos);
                }
            }
        }
        self.parse_dec(text, start, pos)
    }

    /// Takes the digits of a number with a radix prefix.
    ///
    /// `from` is the index of the first digit and `pos` the span of `text`.
    /// The sign of the number stays as it is. Returns the index of the first
    /// byte after the digits.
    pub fn parse_int(&mut self, radix: Radix, text: &[u8], from: usize, pos: Span) -> (r: Result<
        usize,
        (ParseError, Span),
    >)
        requires
            from <= text@.len(),
        ensures
            match (integer_at(text@, pos, old(self).sign, radix, from as int), r) {
                (Ok(parsed), Ok(end)) => end == parsed.end && final(self)@ == parsed.number && from
                    < end <= text@.len(),
                (Err(expected), Err(e)) => e == expected,
                _ => false,
            },
            final(self)@.wf(),
    {
        self.radix = radix;
        self.digits.clear();
        self.exponent = None;
        let len = text.len();
        let base = radix.value();
        let mut i: usize = from;
        while i < len && parse_digit(text[i]) < base
            invariant
                from <= i <= len,
                len == text@.len(),
                base == radix.base(),
                digits_end(text@, radix, from as int) == digits_end(text@, radix, i as int),
                self.digits@ == written_digits(text@, from as int, i as int),
                forall|k: int| from <= k < i ==> is_radix_digit(#[trigger] text@[k], radix),
                self.radix == radix,
                self.sign == old(self).sign,
                self.exponent is None,
            decreases len - i,
        {
            proof {
                lemma_digits_end_step(text@, radix, i as int);
            }
            self.digits.push(parse_digit(text[i]));
            i += 1;
        }
        if i < len {
            let c = text[i];
            if parse_digit(c) < 10 {
                return Err((ParseError::InvalidDigit(radix, c as char), pos.sub_span(i, i + 1)));
            }
            if c == POINT {
                return Err((ParseError::UnexpectedPoint(radix), pos.sub_span(i, i + 1)));
            }
        }
        if i == from {
            return Err((ParseError::NoDigits, pos.sub_span_from(from)));
        }
        proof {
            lemma_written_reversed(text@, from as int, i as int);
        }
        reverse_digits(&mut self.digits);
        Ok(i)
    }

    /// Takes a decimal number at `from`: a mantissa and an optional exponent.
    ///
    /// `pos` is the span of `text`. The sign of the number stays as it is.
    /// Returns the index of the first byte after the number.
    pub fn parse_dec(&mut self, text: &[u8], from: usize, pos: Span) -> (r: Result<
        usize,
        (ParseError, Span),
    >)
        requires
            from <= text@.len(),
        ensures
            match (decimal_at(text@, pos, old(self).sign, from as int), r) {
                (Ok(parsed), Ok(end)) => end == parsed.end && final(self)@ == parsed.number && from
                    < end <= text@.len(),
                (Err(expected), Err(e)) => e == expected,
                _ => false,
            },
            final(self)@.wf(),
    {
        self.radix = Radix::Decimal;
        self.digits.clear();
        self.exponent = None;
        let (fraction, end) = match self.parse_mantissa(text, from, pos) {
            Ok(found) => found,
            Err(e) => {
                return Err(e);
            },
        };
        assert(self.digits@.len() == self.digits@.reverse().len());
        if self.digits.len() == 0 {
            return Err((ParseError::NoDigits, pos.sub_span_from(from)));
        }
        reverse_digits(&mut self.digits);
        let (written, end) = match parse_exponent(text, end, pos) {
            Ok(found) => found,
            Err(e) => {
                return Err(e);
            },
        };
        self.exponent = bias_exponent(written, fraction);
        Ok(end)
    }

    /// Takes the mantissa of a decimal number at `from`: digits, and after a
    /// point more digits.
    ///
    /// The digits are pushed in the order in which they are written. Returns
    /// the number of digits after the point, if there is a point, and the
    /// index where the mantissa ends.
    fn parse_mantissa(&mut self, text: &[u8], from: usize, pos: Span) -> (r: Result<
        (Option<usize>, usize),
        (ParseError, Span),
    >)
        requires
            from <= text@.len(),
            old(self).digits@.len() == 0,
        ensures
            final(self).sign == old(self).sign,
            final(self).radix == old(self).radix,
            final(self).exponent == old(self).exponent,
            final(self).digits@.reverse() == mantissa_digits(text@, from as int),
            forall|k: int| 0 <= k < final(self).digits@.len() ==> final(self).digits@[k] < 10,
            from <= mantissa_end(text@, from as int) <= text@.len(),
            final(self).digits@.len() > 0 ==> from < mantissa_end(text@, from as int),
            ({
                let end = mantissa_end(text@, from as int);
                if has_point(text@, from as int) && end < text@.len() && text@[end] == POINT {
                    r == Err::<(Option<usize>, usize), (ParseError, Span)>(
                        (ParseError::ExtraPoint, pos.spec_sub_span(end, end + 1)),
                    )
                } else {
                    &&& r matches Ok((fraction, found))
                    &&& found == end
                    &&& match (fraction, fraction_len(text@, from as int)) {
                        (Some(count), Some(expected)) => count == expected,
                        (None, None) => true,
                        _ => false,
                    }
                }
            }),
    {
        let len = text.len();
        let mut i: usize = from;
        while i < len && is_digit(text[i])
            invariant
                from <= i <= len,
                len == text@.len(),
                digits_end(text@, Radix::Decimal, from as int) == digits_end(
                    text@,
                    Radix::Decimal,
                    i as int,
                ),
                self.digits@ == written_digits(text@, from as int, i as int),
                forall|k: int|
                    from <= k < i ==> is_radix_digit(#[trigger] text@[k], Radix::Decimal),
                self.sign == old(self).sign,
                self.radix == old(self).radix,
                self.exponent == old(self).exponent,
            decreases len - i,
        {
            proof {
                lemma_digits_end_step(text@, Radix::Decimal, i as int);
            }
            self.digits.push(text[i] - DIGIT_0);
            i += 1;
        }
        let point: usize = i;
        if !(i < len && text[i] == POINT) {
            proof {
                lemma_written_reversed(text@, from as int, point as int);
            }
            return Ok((None, i));
        }
        i += 1;
        while i < len && is_digit(text[i])
            invariant
                from <= point < i <= len,
                len == text@.len(),
                digits_end(text@, Radix::Decimal, point + 1) == digits_end(
                    text@,
                    Radix::Decimal,
                    i as int,
                ),
                self.digits@ == written_digits(text@, from as int, point as int) + written_digits(
                    text@,
                    point + 1,
                    i as int,
                ),
                forall|k: int|
                    from <= k < point ==> is_radix_digit(#[trigger] text@[k], Radix::Decimal),
                forall|k: int|
                    point < k < i ==> is_radix_digit(#[trigger] text@[k], Radix::Decimal),
                self.sign == old(self).sign,
                self.radix == old(self).radix,
                self.exponent == old(self).exponent,
            decreases len - i,
        {
            proof {
                lemma_digits_end_step(text@, Radix::Decimal, i as int);
            }
            self.digits.push(text[i] - DIGIT_0);
            i += 1;
        }
        proof {
            lemma_written_pair_reversed(text@, from as int, point as int, point + 1, i as int);
        }
        if i < len && text[i] == POINT {
            return Err((ParseError::ExtraPoint, pos.sub_span(i, i + 1)));
        }
        Ok((Some(i - point - 1), i))
    }

    /// Removes the zeros that the number does not need.
    ///
    /// The zeros at the most significant end always go. Those at the least
    /// significant end go only where there is an exponent to make up for them.
    /// A number that is zero is left without digits.
    pub fn trim(&mut self)
        ensures
            final(self)@ == old(self)@.trimmed(),
    {
        let mut len: usize = self.digits.len();
        while len > 0 && self.digits[len - 1] == 0
            invariant
                len <= self.digits@.len(),
                *self == *old(self),
                forall|k: int| len <= k < self.digits@.len() ==> self.digits@[k] == 0,
            decreases len,
        {
            len -= 1;
        }
        proof {
            lemma_significant_len_is(self.digits@, len as int);
        }
        self.digits.truncate(len);
        if let Some(exponent) = self.exponent {
            let ghost kept = self.digits@;
            let mut zeros: usize = 0;
            while zeros < len && self.digits[zeros] == 0
                invariant
                    zeros <= len,
                    len == self.digits@.len(),
                    self.digits@ == kept,
                    forall|k: int| 0 <= k < zeros ==> kept[k] == 0,
                decreases len - zeros,
            {
                zeros += 1;
            }
            proof {
                lemma_low_zeros_is(kept, zeros as int);
            }
            let left: usize = len - zeros;
            let mut i: usize = 0;
            while i < left
                invariant
                    i <= left,
                    left == len - zeros,
                    len == self.digits@.len(),
                    len == kept.len(),
                    forall|k: int| 0 <= k < i ==> self.digits@[k] == kept[k + zeros],
                    forall|k: int| i <= k < len ==> self.digits@[k] == kept[k],
                    self.sign == old(self).sign,
                    self.radix == old(self).radix,
                decreases left - i,
            {
                let digit = self.digits[i + zeros];
                self.digits[i] = digit;
                i += 1;
            }
            self.digits.truncate(left);
            assert(self.digits@ =~= kept.skip(zeros as int));
            self.exponent = Some(raise_exponent(exponent, zeros));
        }
    }

    /// Converts the number to an integer.
    ///
    /// A number with an exponent or a point has no integer form, and must not
    /// be passed. The result is [`ParseError::IntegerTooLarge`] exactly where
    /// the value does not fit in an `i64`.
    pub fn integer(&self) -> (r: Result<i64, ParseError>)
        requires
            self.exponent is None,
        ensures
            match r {
                Ok(value) => value == self@.integer_value(),
                Err(e) => e == ParseError::IntegerTooLarge && !(i64::MIN <= self@.integer_value()
                    <= i64::MAX),
            },
    {
        match make_integer(self.sign, self.radix, self.digits.as_slice()) {
            Some(x) => Ok(x),
            None => Err(ParseError::IntegerTooLarge),
        }
    }

    /// Prepares a decimal number for the conversion to a floating-point number.
    ///
    /// The conversion is deliberately cheap: it multiplies or divides a
    /// mantissa of at most 19 digits by a power of ten. This function decides
    /// everything about it but the floating-point arithmetic itself. The number
    /// must be decimal.
    pub fn float_parts(&self) -> (r: FloatParts)
        requires
            self.radix == Radix::Decimal,
            self@.wf(),
        ensures
            r == self@.float_parts(),
    {
        float_parts(self.sign, self.digits.as_slice(), self.exponent)
    }
}

} // verus!
