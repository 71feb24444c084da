//! What holds of every literal.

use crate::number::ascii::{lemma_digits_end_bounds, lemma_literal_ascii};
use crate::number::grammar::{
    biased_exponent, digit_value, digits_end, exponent_at, fraction_len, has_point,
    is_radix_digit, literal, mantissa_digits, mantissa_end, point_at, prefix_radix, sign_len,
    sign_of, stored_digits, LOWER_E, MINUS, PLUS, UPPER_A, UPPER_E, UPPER_Z,
};
use crate::number::scan::lemma_stored_digits_step;
use crate::number::{digits_value, Radix, Sign};
use crate::sourcepos::Span;
use vstd::prelude::*;

verus! {

/// The byte with an upper-case letter made lower-case.
pub open spec fn lower(b: u8) -> u8 {
    if UPPER_A <= b <= UPPER_Z {
        (b + 32) as u8
    } else {
        b
    }
}

/// True if the two texts differ at most in the case of their letters.
pub open spec fn same_but_case(a: Seq<u8>, b: Seq<u8>) -> bool {
    &&& a.len() == b.len()
    &&& forall|i: int| 0 <= i < a.len() ==> lower(#[trigger] a[i]) == lower(b[i])
}

/// Runs of digits end at the same place in texts that differ only in case.
proof fn lemma_digits_end_case(a: Seq<u8>, b: Seq<u8>, radix: Radix, from: int)
    requires
        same_but_case(a, b),
        0 <= from <= a.len(),
    ensures
        digits_end(a, radix, from) == digits_end(b, radix, from),
    decreases a.len() - from,
{
    if from < a.len() && is_radix_digit(a[from], radix) {
        lemma_digits_end_case(a, b, radix, from + 1);
    }
}

/// Digits have the same values in texts that differ only in case.
proof fn lemma_stored_digits_case(a: Seq<u8>, b: Seq<u8>, from: int, to: int)
    requires
        same_but_case(a, b),
        0 <= from <= to <= a.len(),
    ensures
        stored_digits(a, from, to) == stored_digits(b, from, to),
{
    assert forall|k: int| 0 <= k < to - from implies #[trigger] stored_digits(a, from, to)[k]
        == stored_digits(b, from, to)[k] by {
        assert(lower(a[to - 1 - k]) == lower(b[to - 1 - k]));
    }
}

/// The case of letters does not matter: two texts that differ only in the
/// case of their letters hold the same literal, or fail with the same error at
/// the same place. This covers the radix letter, the hexadecimal digits and
/// the exponent marker.
pub proof fn lemma_case_insensitive(a: Seq<u8>, b: Seq<u8>, pos: Span)
    requires
        same_but_case(a, b),
    ensures
        literal(a, pos) == literal(b, pos),
{
    let n = a.len() as int;
    assert forall|i: int| 0 <= i < n implies (a[i] == b[i] || (digit_value(a[i]) == digit_value(
        b[i],
    ) && 10 <= digit_value(a[i]) < 36 && lower(a[i]) == lower(b[i]))) by {
        assert(lower(a[i]) == lower(b[i]));
    }
    let start = sign_len(a);
    match prefix_radix(a, start) {
        Some(radix) => {
            lemma_digits_end_case(a, b, radix, start + 2);
            lemma_digits_end_bounds(a, radix, start + 2);
            let end = digits_end(a, radix, start + 2);
            lemma_stored_digits_case(a, b, start + 2, end);
        },
        None => {
            lemma_digits_end_case(a, b, Radix::Decimal, start);
            lemma_digits_end_bounds(a, Radix::Decimal, start);
            let point = point_at(a, start);
            lemma_stored_digits_case(a, b, start, point);
            if has_point(a, start) {
                lemma_digits_end_case(a, b, Radix::Decimal, point + 1);
                lemma_digits_end_bounds(a, Radix::Decimal, point + 1);
                lemma_stored_digits_case(a, b, point + 1, mantissa_end(a, start));
            }
            let end = mantissa_end(a, start);
            if end < n {
                lemma_digits_end_case(a, b, Radix::Decimal, end + 1);
                lemma_digits_end_bounds(a, Radix::Decimal, end + 1);
                lemma_stored_digits_case(
                    a,
                    b,
                    end + 1,
                    digits_end(a, Radix::Decimal, end + 1),
                );
                if end + 1 < n {
                    lemma_digits_end_case(a, b, Radix::Decimal, end + 2);
                    lemma_digits_end_bounds(a, Radix::Decimal, end + 2);
                    lemma_stored_digits_case(
                        a,
                        b,
                        end + 2,
                        digits_end(a, Radix::Decimal, end + 2),
                    );
                }
            }
        },
    }
}

/// The number that the digits in `text[from..to)` denote in base `base` when
/// they are read as they are written, the most significant first.
pub open spec fn written_value(text: Seq<u8>, from: int, to: int, base: int) -> int
    decreases to - from,
{
    if to <= from {
        0
    } else {
        written_value(text, from, to - 1, base) * base + digit_value(text[to - 1])
    }
}

/// The digits as they are stored denote what the digits as they are written
/// denote.
pub proof fn lemma_stored_is_written(text: Seq<u8>, from: int, to: int, base: int)
    requires
        0 <= from <= to <= text.len(),
    ensures
        digits_value(stored_digits(text, from, to), base) == written_value(text, from, to, base),
    decreases to - from,
{
    if from < to {
        lemma_stored_is_written(text, from, to - 1, base);
        lemma_stored_digits_step(text, from, to - 1, base);
        assert(base * digits_value(stored_digits(text, from, to - 1), base) == digits_value(
            stored_digits(text, from, to - 1),
            base,
        ) * base) by (nonlinear_arith);
    }
}

/// The index of the first digit of the literal at the start of `text`: after
/// the sign, and after the radix prefix where there is one.
pub open spec fn digits_start(text: Seq<u8>) -> int {
    if prefix_radix(text, sign_len(text)) is Some {
        sign_len(text) + 2
    } else {
        sign_len(text)
    }
}

/// A literal without point and exponent is the integer that its digits denote
/// when they are read as they are written, in the radix that its prefix
/// announces, negated after a `-`.
pub proof fn lemma_integer_of_literal(text: Seq<u8>, pos: Span)
    requires
        literal(text, pos) is Ok,
        literal(text, pos)->Ok_0.number.exponent is None,
    ensures
        ({
            let parsed = literal(text, pos)->Ok_0;
            let value = written_value(
                text,
                digits_start(text),
                parsed.end,
                parsed.number.radix.base(),
            );
            parsed.number.integer_value() == match sign_of(text) {
                Sign::Positive => value,
                Sign::Negative => -value,
            }
        }),
{
    let start = sign_len(text);
    match prefix_radix(text, start) {
        Some(radix) => {
            lemma_digits_end_bounds(text, radix, start + 2);
            lemma_stored_is_written(
                text,
                start + 2,
                digits_end(text, radix, start + 2),
                radix.base(),
            );
        },
        None => {
            lemma_digits_end_bounds(text, Radix::Decimal, start);
            lemma_stored_is_written(text, start, point_at(text, start), 10);
        },
    }
}

/// A run of digits in the first `n` bytes of a text ends where it ends in the
/// whole text, or at `n` if that comes first.
proof fn lemma_digits_end_take(text: Seq<u8>, radix: Radix, from: int, n: int)
    requires
        0 <= from <= n <= text.len(),
    ensures
        digits_end(text.take(n), radix, from) == if digits_end(text, radix, from) < n {
            digits_end(text, radix, from)
        } else {
            n
        },
    decreases n - from,
{
    lemma_digits_end_bounds(text, radix, from);
    if from < n && is_radix_digit(text[from], radix) {
        lemma_digits_end_take(text, radix, from + 1, n);
    }
}

/// The digits in the first `n` bytes of a text are those of the whole text.
proof fn lemma_stored_digits_take(text: Seq<u8>, from: int, to: int, n: int)
    requires
        0 <= from <= to <= n <= text.len(),
    ensures
        stored_digits(text.take(n), from, to) == stored_digits(text, from, to),
{
}

/// An exponent that ends within the first `n` bytes of a text is the same in
/// those bytes alone.
proof fn lemma_exponent_take(text: Seq<u8>, pos: Span, from: int, n: int)
    requires
        0 <= from <= n <= text.len(),
        exponent_at(text, pos, from) matches Ok((_, end)) && end <= n,
    ensures
        exponent_at(text.take(n), pos, from) == exponent_at(text, pos, from),
{
    if from < text.len() && (text[from] == LOWER_E || text[from] == UPPER_E) {
        let signed = from + 1 < text.len() && (text[from + 1] == PLUS || text[from + 1] == MINUS);
        let first = if signed {
            from + 2
        } else {
            from + 1
        };
        lemma_digits_end_bounds(text, Radix::Decimal, first);
        let end = digits_end(text, Radix::Decimal, first);
        lemma_digits_end_take(text, Radix::Decimal, first, n);
        lemma_stored_digits_take(text, first, end, n);
    }
}

/// A mantissa that ends within the first `n` bytes of a text is the same in
/// those bytes alone.
proof fn lemma_mantissa_take(text: Seq<u8>, from: int, n: int)
    requires
        0 <= from <= n <= text.len(),
        mantissa_end(text, from) <= n,
    ensures
        point_at(text.take(n), from) == point_at(text, from),
        has_point(text.take(n), from) == has_point(text, from),
        mantissa_end(text.take(n), from) == mantissa_end(text, from),
        mantissa_digits(text.take(n), from) == mantissa_digits(text, from),
        fraction_len(text.take(n), from) == fraction_len(text, from),
        from <= point_at(text, from) <= mantissa_end(text, from),
{
    let point = point_at(text, from);
    lemma_digits_end_bounds(text, Radix::Decimal, from);
    lemma_digits_end_take(text, Radix::Decimal, from, n);
    if has_point(text, from) {
        lemma_digits_end_bounds(text, Radix::Decimal, point + 1);
        lemma_digits_end_take(text, Radix::Decimal, point + 1, n);
        lemma_stored_digits_take(text, point + 1, mantissa_end(text, from), n);
    }
    lemma_stored_digits_take(text, from, point, n);
}

/// A literal is made of the bytes that it takes and of nothing else: a text
/// that is cut anywhere after the literal still starts with the same literal.
///
/// Cut at the end of the literal, this says that what `parse` takes is a
/// literal by itself. Cut further on, it says that `parse` takes the longest
/// literal: a longer piece of the text is never a literal from end to end.
pub proof fn lemma_literal_take(text: Seq<u8>, pos: Span, n: int)
    requires
        literal(text, pos) is Ok,
        literal(text, pos)->Ok_0.end <= n <= text.len(),
    ensures
        literal(text.take(n), pos) == literal(text, pos),
{
    lemma_literal_ascii(text, pos);
    let start = sign_len(text);
    match prefix_radix(text, start) {
        Some(radix) => {
            lemma_digits_end_bounds(text, radix, start + 2);
            lemma_digits_end_take(text, radix, start + 2, n);
            lemma_stored_digits_take(text, start + 2, digits_end(text, radix, start + 2), n);
        },
        None => {
            let end = mantissa_end(text, start);
            lemma_digits_end_bounds(text, Radix::Decimal, start);
            if has_point(text, start) {
                lemma_digits_end_bounds(text, Radix::Decimal, point_at(text, start) + 1);
            }
            lemma_exponent_bounds(text, pos, end);
            lemma_mantissa_take(text, start, n);
            lemma_exponent_take(text, pos, end, n);
        },
    }
}

/// `parse` takes the longest literal at the start of a text: no longer piece
/// of the text is a literal from end to end.
pub proof fn lemma_literal_longest(text: Seq<u8>, pos: Span, n: int)
    requires
        literal(text, pos) is Ok,
        literal(text, pos)->Ok_0.end < n <= text.len(),
    ensures
        !(literal(text.take(n), pos) matches Ok(longer) && longer.end == n),
{
    lemma_literal_take(text, pos, n);
}

/// The span of an error lies within the span of the text, where that span has
/// the length of the text: the error points at bytes of the text, counted from
/// the start of its span.
pub proof fn lemma_error_within_span(text: Seq<u8>, pos: Span)
    requires
        pos.covers(text.len() as int),
        literal(text, pos) is Err,
    ensures
        ({
            let at = literal(text, pos)->Err_0.1;
            pos.start.0 <= at.start.0 <= at.end.0 <= pos.end.0
        }),
{
    let start = sign_len(text);
    match prefix_radix(text, start) {
        Some(radix) => {
            lemma_digits_end_bounds(text, radix, start + 2);
        },
        None => {
            lemma_digits_end_bounds(text, Radix::Decimal, start);
            if has_point(text, start) {
                lemma_digits_end_bounds(text, Radix::Decimal, point_at(text, start) + 1);
            }
        },
    }
}

/// Away from the ends of the range of `i32`, the exponent that is stored is
/// the exponent that is written less the number of digits after the point.
pub proof fn lemma_exponent_composition(written: Option<i32>, fraction: int)
    requires
        0 <= fraction <= i32::MAX,
        written matches Some(value) ==> i32::MIN < value < i32::MAX && i32::MIN <= value
            - fraction,
    ensures
        biased_exponent(written, Some(fraction)) == Some(
            (match written {
                Some(value) => value - fraction,
                None => -fraction,
            }) as i32,
        ),
        biased_exponent(written, None) == written,
{
}

/// An exponent ends at or after the place where it starts, within the text.
proof fn lemma_exponent_bounds(text: Seq<u8>, pos: Span, from: int)
    requires
        0 <= from <= text.len(),
    ensures
        exponent_at(text, pos, from) matches Ok((_, end)) ==> from <= end <= text.len(),
{
    if from < text.len() {
        lemma_digits_end_bounds(text, Radix::Decimal, from + 1);
        if from + 1 < text.len() {
            lemma_digits_end_bounds(text, Radix::Decimal, from + 2);
        }
    }
}

} // verus!
