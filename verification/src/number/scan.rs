//! Scanning the bytes of a literal.

use crate::number::grammar::{
    biased_exponent, digit_value, digits_end, exponent_at, is_radix_digit, prefix_letter,
    saturating_sum, stored_digits, DIGIT_0, DIGIT_9, LOWER_A, LOWER_B, LOWER_E, LOWER_O, LOWER_X,
    LOWER_Z, MINUS, PLUS, UPPER_A, UPPER_B, UPPER_E, UPPER_O, UPPER_X, UPPER_Z,
};
use crate::number::{digits_value, ParseError, Radix};
use crate::sourcepos::Span;
use vstd::prelude::*;

verus! {

/// True if the byte is one of `0` to `9`.
pub fn is_digit(c: u8) -> (r: bool)
    ensures
        r == is_radix_digit(c, Radix::Decimal),
{
    DIGIT_0 <= c && c <= DIGIT_9
}

/// The value of a byte as a digit, 255 where it is none.
pub fn parse_digit(c: u8) -> (r: u8)
    ensures
        r == digit_value(c),
{
    if DIGIT_0 <= c && c <= DIGIT_9 {
        c - DIGIT_0
    } else if LOWER_A <= c && c <= LOWER_Z {
        c - LOWER_A + 10
    } else if UPPER_A <= c && c <= UPPER_Z {
        c - UPPER_A + 10
    } else {
        255
    }
}

/// The radix that `letter` announces after a `0`, if any.
pub fn radix_of_letter(letter: u8) -> (r: Option<Radix>)
    ensures
        r == prefix_letter(letter),
{
    if letter == LOWER_B || letter == UPPER_B {
        Some(Radix::Binary)
    } else if letter == LOWER_O || letter == UPPER_O {
        Some(Radix::Octal)
    } else if letter == LOWER_X || letter == UPPER_X {
        Some(Radix::Hexadecimal)
    } else {
        None
    }
}

/// True if the text has a digit of `radix` at `from`.
pub fn starts_with_digit(text: &[u8], from: usize, radix: Radix) -> (r: bool)
    ensures
        r == (from < text@.len() && is_radix_digit(text@[from as int], radix)),
{
    from < text.len() && parse_digit(text[from]) < radix.value()
}

/// One more digit at the end of a run becomes the least significant digit.
pub proof fn lemma_stored_digits_step(text: Seq<u8>, from: int, to: int, base: int)
    requires
        0 <= from <= to < text.len(),
    ensures
        stored_digits(text, from, to + 1) == seq![digit_value(text[to])] + stored_digits(
            text,
            from,
            to,
        ),
        digits_value(stored_digits(text, from, to + 1), base) == digit_value(text[to]) + base
            * digits_value(stored_digits(text, from, to), base),
{
    let longer = stored_digits(text, from, to + 1);
    assert(longer.skip(1) =~= stored_digits(text, from, to));
}

/// A run of digits goes on from any index inside it.
pub proof fn lemma_digits_end_step(text: Seq<u8>, radix: Radix, from: int)
    requires
        0 <= from < text.len(),
        is_radix_digit(text[from], radix),
    ensures
        digits_end(text, radix, from) == digits_end(text, radix, from + 1),
{
}

/// The values of the digits written in `text[from..to)`, in the order in which
/// they are written.
pub open spec fn written_digits(text: Seq<u8>, from: int, to: int) -> Seq<u8> {
    Seq::new((to - from) as nat, |k: int| digit_value(text[from + k]))
}

/// Storage order is the reverse of the order of writing.
pub proof fn lemma_written_reversed(text: Seq<u8>, from: int, to: int)
    requires
        from <= to,
    ensures
        written_digits(text, from, to).reverse() == stored_digits(text, from, to),
{
}

/// Puts the digits in the opposite order.
pub fn reverse_digits(digits: &mut Vec<u8>)
    ensures
        final(digits)@ == old(digits)@.reverse(),
{
    let n = digits.len();
    let mut i: usize = 0;
    while i < n / 2
        invariant
            n == digits@.len(),
            n == old(digits)@.len(),
            i <= n / 2,
            forall|k: int| 0 <= k < i ==> digits@[k] == old(digits)@[n - 1 - k],
            forall|k: int| n - i <= k < n ==> digits@[k] == old(digits)@[n - 1 - k],
            forall|k: int| i <= k < n - i ==> digits@[k] == old(digits)@[k],
        decreases n / 2 - i,
    {
        let low = digits[i];
        let high = digits[n - 1 - i];
        digits[i] = high;
        digits[n - 1 - i] = low;
        i += 1;
    }
}

/// Reversing two runs of digits written one after the other puts the second
/// run first.
pub proof fn lemma_written_pair_reversed(text: Seq<u8>, a: int, b: int, c: int, d: int)
    requires
        a <= b,
        c <= d,
    ensures
        (written_digits(text, a, b) + written_digits(text, c, d)).reverse() == stored_digits(
            text,
            c,
            d,
        ) + stored_digits(text, a, b),
{
}

/// The exponent to store for a written exponent and a count of digits after
/// the point.
pub fn bias_exponent(written: Option<i32>, fraction: Option<usize>) -> (r: Option<i32>)
    ensures
        r == biased_exponent(
            written,
            match fraction {
                Some(count) => Some(count as int),
                None => None,
            },
        ),
{
    match fraction {
        None => written,
        Some(count) => {
            let bias: i32 = if count > i32::MAX as usize {
                i32::MIN
            } else {
                -(count as i32)
            };
            match written {
                None => Some(bias),
                Some(value) => {
                    if value == i32::MIN || value == i32::MAX || bias == i32::MIN {
                        if value == i32::MIN || value == i32::MAX {
                            Some(value)
                        } else {
                            Some(i32::MIN)
                        }
                    } else {
                        match value.checked_add(bias) {
                            Some(sum) => Some(sum),
                            None => Some(i32::MIN),
                        }
                    }
                },
            }
        },
    }
}

/// The exponent raised by `count`, at most `i32::MAX`.
pub fn raise_exponent(exponent: i32, count: usize) -> (r: i32)
    ensures
        r == saturating_sum(exponent as int, count as int),
{
    if count > u32::MAX as usize {
        i32::MAX
    } else {
        let sum: i64 = exponent as i64 + count as i64;
        if sum > i32::MAX as i64 {
            i32::MAX
        } else {
            sum as i32
        }
    }
}

/// Takes the exponent of a decimal number at `from`.
///
/// Returns the exponent, held within the range of `i32`, and the index where
/// it ends. Without an exponent marker at `from` the result is `None` and
/// `from`.
pub fn parse_exponent(text: &[u8], from: usize, pos: Span) -> (r: Result<
    (Option<i32>, usize),
    (ParseError, Span),
>)
    requires
        from <= text@.len(),
    ensures
        match (exponent_at(text@, pos, from as int), r) {
            (Ok((expected, expected_end)), Ok((value, end))) => value == expected && end
                == expected_end && from <= end <= text@.len(),
            (Err(expected), Err(e)) => e == expected,
            _ => false,
        },
{
    let len = text.len();
    if from >= len || !(text[from] == LOWER_E || text[from] == UPPER_E) {
        return Ok((None, from));
    }
    let mut i: usize = from + 1;
    let mut negative = false;
    if i < len && (text[i] == PLUS || text[i] == MINUS) {
        negative = text[i] == MINUS;
        i += 1;
    }
    let first: usize = i;
    let mut value: u32 = 0;
    while i < len && is_digit(text[i])
        invariant
            first <= i <= len,
            len == text@.len(),
            digits_end(text@, Radix::Decimal, first as int) == digits_end(
                text@,
                Radix::Decimal,
                i as int,
            ),
            value == if digits_value(stored_digits(text@, first as int, i as int), 10) > u32::MAX {
                u32::MAX as int
            } else {
                digits_value(stored_digits(text@, first as int, i as int), 10)
            },
            0 <= digits_value(stored_digits(text@, first as int, i as int), 10),
        decreases len - i,
    {
        proof {
            lemma_stored_digits_step(text@, first as int, i as int, 10);
        }
        let scaled: u32 = match value.checked_mul(10) {
            Some(scaled) => scaled,
            None => u32::MAX,
        };
        value = scaled.saturating_add((text[i] - DIGIT_0) as u32);
        i += 1;
    }
    if i == first {
        return Err((ParseError::NoExponentValue, pos.sub_span(from, first)));
    }
    let exponent: i32 = if value > i32::MAX as u32 {
        if negative {
            i32::MIN
        } else {
            i32::MAX
        }
    } else if negative {
        -(value as i32)
    } else {
        value as i32
    };
    Ok((Some(exponent), i))
}

} // verus!
