//! The grammar of numeric literals, as functions on the bytes of a text.
//!
//! ```text
//! literal  := sign? ( "0" [bB] bin+ | "0" [oO] oct+ | "0" [xX] hex+ | decimal )
//! decimal  := int? ( "." frac? )? exponent?      with a digit in int or frac
//! exponent := [eE] sign? digit+
//! ```
//!
//! Every function here takes the whole text and indices into it, so that an
//! index is at once the place in the text and the offset within its span.

use crate::number::{digits_value, Literal, ParseError, Radix, Sign};
use crate::sourcepos::Span;
use vstd::prelude::*;

verus! {

/// The digit `0`.
pub const DIGIT_0: u8 = 0x30;

/// The digit `9`.
pub const DIGIT_9: u8 = 0x39;

/// The letter `a`.
pub const LOWER_A: u8 = 0x61;

/// The letter `z`.
pub const LOWER_Z: u8 = 0x7a;

/// The letter `A`.
pub const UPPER_A: u8 = 0x41;

/// The letter `Z`.
pub const UPPER_Z: u8 = 0x5a;

/// The sign `+`.
pub const PLUS: u8 = 0x2b;

/// The sign `-`.
pub const MINUS: u8 = 0x2d;

/// The point `.`.
pub const POINT: u8 = 0x2e;

/// The exponent marker `e`.
pub const LOWER_E: u8 = 0x65;

/// The exponent marker `E`.
pub const UPPER_E: u8 = 0x45;

/// The binary prefix letter `b`.
pub const LOWER_B: u8 = 0x62;

/// The binary prefix letter `B`.
pub const UPPER_B: u8 = 0x42;

/// The octal prefix letter `o`.
pub const LOWER_O: u8 = 0x6f;

/// The octal prefix letter `O`.
pub const UPPER_O: u8 = 0x4f;

/// The hexadecimal prefix letter `x`.
pub const LOWER_X: u8 = 0x78;

/// The hexadecimal prefix letter `X`.
pub const UPPER_X: u8 = 0x58;

/// The value of a byte as a digit: `0`-`9` are 0 to 9, the letters `a`-`z`
/// are 10 to 35 in either case, and every other byte is 255.
pub open spec fn digit_value(b: u8) -> u8 {
    if DIGIT_0 <= b <= DIGIT_9 {
        (b - DIGIT_0) as u8
    } else if LOWER_A <= b <= LOWER_Z {
        (b - LOWER_A + 10) as u8
    } else if UPPER_A <= b <= UPPER_Z {
        (b - UPPER_A + 10) as u8
    } else {
        255
    }
}

/// True if the byte is a digit of the radix.
pub open spec fn is_radix_digit(b: u8, radix: Radix) -> bool {
    digit_value(b) < radix.base()
}

/// The end of the longest run of digits of `radix` that starts at `from`: the
/// index of the first byte at or after `from` that is no such digit, or the
/// length of the text.
pub open spec fn digits_end(text: Seq<u8>, radix: Radix, from: int) -> int
    decreases text.len() - from,
{
    if 0 <= from < text.len() && is_radix_digit(text[from], radix) {
        digits_end(text, radix, from + 1)
    } else {
        from
    }
}

/// The values of the digits written in `text[from..to)`, in storage order:
/// the digit written last comes first.
pub open spec fn stored_digits(text: Seq<u8>, from: int, to: int) -> Seq<u8> {
    Seq::new((to - from) as nat, |k: int| digit_value(text[to - 1 - k]))
}

/// The number of bytes that the sign takes: 1 for a leading `+` or `-`.
pub open spec fn sign_len(text: Seq<u8>) -> int {
    if text.len() > 0 && (text[0] == PLUS || text[0] == MINUS) {
        1
    } else {
        0
    }
}

/// The sign that the text starts with; positive where it has none.
pub open spec fn sign_of(text: Seq<u8>) -> Sign {
    if text.len() > 0 && text[0] == MINUS {
        Sign::Negative
    } else {
        Sign::Positive
    }
}

/// The radix that `letter` announces after a `0`, if any.
pub open spec fn prefix_letter(letter: u8) -> Option<Radix> {
    if letter == LOWER_B || letter == UPPER_B {
        Some(Radix::Binary)
    } else if letter == LOWER_O || letter == UPPER_O {
        Some(Radix::Octal)
    } else if letter == LOWER_X || letter == UPPER_X {
        Some(Radix::Hexadecimal)
    } else {
        None
    }
}

/// The radix of the prefix at `from`: a `0`, a radix letter, and then at least
/// one digit of that radix. Without such a digit there is no prefix, and the
/// `0` starts a decimal number.
pub open spec fn prefix_radix(text: Seq<u8>, from: int) -> Option<Radix> {
    if 0 <= from && from + 2 < text.len() && text[from] == DIGIT_0 {
        match prefix_letter(text[from + 1]) {
            Some(radix) => if is_radix_digit(text[from + 2], radix) {
                Some(radix)
            } else {
                None
            },
            None => None,
        }
    } else {
        None
    }
}

/// A literal that was recognised, and where it ends in the text.
pub ghost struct Parsed {
    pub number: Literal,
    /// The index of the first byte after the literal.
    pub end: int,
}

/// The exponent with magnitude `magnitude`, held within the range of `i32`.
pub open spec fn clamp_exponent(negative: bool, magnitude: int) -> i32 {
    if magnitude > i32::MAX {
        if negative {
            i32::MIN
        } else {
            i32::MAX
        }
    } else if negative {
        (-magnitude) as i32
    } else {
        magnitude as i32
    }
}

/// The exponent written at `from`, with the index where it ends.
///
/// Without `e` or `E` at `from` there is no exponent. After the marker and an
/// optional sign at least one digit must follow; the error covers the marker
/// and the sign.
pub open spec fn exponent_at(text: Seq<u8>, pos: Span, from: int) -> Result<
    (Option<i32>, int),
    (ParseError, Span),
> {
    if 0 <= from < text.len() && (text[from] == LOWER_E || text[from] == UPPER_E) {
        let signed = from + 1 < text.len() && (text[from + 1] == PLUS || text[from + 1] == MINUS);
        let negative = from + 1 < text.len() && text[from + 1] == MINUS;
        let first = if signed {
            from + 2
        } else {
            from + 1
        };
        let end = digits_end(text, Radix::Decimal, first);
        if end == first {
            Err((ParseError::NoExponentValue, pos.spec_sub_span(from, first)))
        } else {
            let magnitude = digits_value(stored_digits(text, first, end), 10);
            Ok((Some(clamp_exponent(negative, magnitude)), end))
        }
    } else {
        Ok((None, from))
    }
}

/// The sum of `a` and `b`, held within the range of `i32`.
pub open spec fn saturating_sum(a: int, b: int) -> i32 {
    if a + b > i32::MAX {
        i32::MAX
    } else if a + b < i32::MIN {
        i32::MIN
    } else {
        (a + b) as i32
    }
}

/// The exponent to store for a written exponent and a count of digits after
/// the point.
///
/// Each digit after the point lowers the exponent by one. A value that is
/// already at an end of the range of `i32` stays there.
pub open spec fn biased_exponent(written: Option<i32>, fraction: Option<int>) -> Option<i32> {
    match fraction {
        None => written,
        Some(count) => {
            let bias = if count > i32::MAX {
                i32::MIN as int
            } else {
                -count
            };
            match written {
                None => Some(bias as i32),
                Some(value) => if value == i32::MIN || value == i32::MAX {
                    Some(value)
                } else if bias == i32::MIN {
                    Some(i32::MIN)
                } else {
                    Some(saturating_sum(value as int, bias))
                },
            }
        },
    }
}

/// The number with a radix prefix whose digits start at `from`.
///
/// The digits end at the first byte that is no digit of the radix. A decimal
/// digit there is an error, and so is a `.`; anything else is left to the
/// caller. A number without any digit is an error too.
pub open spec fn integer_at(
    text: Seq<u8>,
    pos: Span,
    sign: Sign,
    radix: Radix,
    from: int,
) -> Result<Parsed, (ParseError, Span)> {
    let end = digits_end(text, radix, from);
    if end < text.len() && digit_value(text[end]) < 10 {
        Err((ParseError::InvalidDigit(radix, text[end] as char), pos.spec_sub_span(end, end + 1)))
    } else if end < text.len() && text[end] == POINT {
        Err((ParseError::UnexpectedPoint(radix), pos.spec_sub_span(end, end + 1)))
    } else if end == from {
        Err((ParseError::NoDigits, pos.spec_sub_span_from(from)))
    } else {
        Ok(
            Parsed {
                number: Literal {
                    sign,
                    radix,
                    digits: stored_digits(text, from, end),
                    exponent: None,
                },
                end,
            },
        )
    }
}

/// Where the digits before the point end, for a decimal number at `from`.
pub open spec fn point_at(text: Seq<u8>, from: int) -> int {
    digits_end(text, Radix::Decimal, from)
}

/// True if the decimal number at `from` has a point.
pub open spec fn has_point(text: Seq<u8>, from: int) -> bool {
    let point = point_at(text, from);
    point < text.len() && text[point] == POINT
}

/// Where the mantissa of the decimal number at `from` ends: after the digits
/// that follow the point, or before the point's place where there is none.
pub open spec fn mantissa_end(text: Seq<u8>, from: int) -> int {
    if has_point(text, from) {
        digits_end(text, Radix::Decimal, point_at(text, from) + 1)
    } else {
        point_at(text, from)
    }
}

/// The digits of the mantissa at `from`, in storage order: those after the
/// point are the less significant ones and come first.
pub open spec fn mantissa_digits(text: Seq<u8>, from: int) -> Seq<u8> {
    let point = point_at(text, from);
    if has_point(text, from) {
        stored_digits(text, point + 1, mantissa_end(text, from)) + stored_digits(text, from, point)
    } else {
        stored_digits(text, from, point)
    }
}

/// The number of digits after the point, if the mantissa at `from` has one.
pub open spec fn fraction_len(text: Seq<u8>, from: int) -> Option<int> {
    if has_point(text, from) {
        Some(mantissa_end(text, from) - point_at(text, from) - 1)
    } else {
        None
    }
}

/// The decimal number at `from`: digits, an optional point with more digits,
/// and an optional exponent.
///
/// A second point directly after the mantissa is an error, then a mantissa
/// without any digit, then an exponent without a value.
pub open spec fn decimal_at(text: Seq<u8>, pos: Span, sign: Sign, from: int) -> Result<
    Parsed,
    (ParseError, Span),
> {
    let end = mantissa_end(text, from);
    if has_point(text, from) && end < text.len() && text[end] == POINT {
        Err((ParseError::ExtraPoint, pos.spec_sub_span(end, end + 1)))
    } else if mantissa_digits(text, from).len() == 0 {
        Err((ParseError::NoDigits, pos.spec_sub_span_from(from)))
    } else {
        match exponent_at(text, pos, end) {
            Err(e) => Err(e),
            Ok((written, end)) => Ok(
                Parsed {
                    number: Literal {
                        sign,
                        radix: Radix::Decimal,
                        digits: mantissa_digits(text, from),
                        exponent: biased_exponent(written, fraction_len(text, from)),
                    },
                    end,
                },
            ),
        }
    }
}

/// The literal at the start of `text`, where `pos` is the span of the text.
///
/// This is the whole grammar: a sign, then a number with a radix prefix or a
/// decimal number. The result is either the literal with the index where it
/// ends, or the error with the span of the bytes at fault.
pub open spec fn literal(text: Seq<u8>, pos: Span) -> Result<Parsed, (ParseError, Span)> {
    let start = sign_len(text);
    match prefix_radix(text, start) {
        Some(radix) => integer_at(text, pos, sign_of(text), radix, start + 2),
        None => decimal_at(text, pos, sign_of(text), start),
    }
}

} // verus!
