//! What `to_string` writes, `parse` reads back.

use crate::number::grammar::{
    digit_value, digits_end, is_radix_digit, literal, prefix_letter, stored_digits, Parsed,
    DIGIT_0, LOWER_E, MINUS, PLUS,
};
use crate::number::laws::{lemma_stored_is_written, written_value};
use crate::number::text::{
    decimal_text, digit_char, exponent_text, prefix_text, rendered, sign_text,
};
use crate::number::{Literal, ParseError, Radix, Sign};
use crate::sourcepos::Span;
use vstd::prelude::*;
use vstd::utf8::{encode_utf8, is_ascii_chars, is_ascii_chars_encode_utf8};

verus! {

/// The character of a digit is an ASCII character with the value of the
/// digit. It is no sign, and a decimal digit is no radix letter.
proof fn lemma_digit_char(digit: u8)
    requires
        digit < 16,
    ensures
        digit_value(digit_char(digit) as u8) == digit,
        digit_char(digit) <= '\u{7f}',
        digit_char(digit) as u8 != PLUS,
        digit_char(digit) as u8 != MINUS,
        digit < 10 ==> prefix_letter(digit_char(digit) as u8) is None,
{
}

/// A run of digits from `from` ends at `to` if every byte between them is a
/// digit and the byte at `to`, if there is one, is not.
proof fn lemma_digits_end_is(text: Seq<u8>, radix: Radix, from: int, to: int)
    requires
        0 <= from <= to <= text.len(),
        forall|k: int| from <= k < to ==> is_radix_digit(#[trigger] text[k], radix),
        to < text.len() ==> !is_radix_digit(text[to], radix),
    ensures
        digits_end(text, radix, from) == to,
    decreases to - from,
{
    if from < to {
        lemma_digits_end_is(text, radix, from + 1, to);
    }
}

/// A number in decimal is made of decimal digits, and read as it is written
/// it is the number again.
proof fn lemma_decimal_text_value(text: Seq<u8>, from: int, n: nat)
    requires
        0 <= from,
        from + decimal_text(n).len() <= text.len(),
        forall|j: int|
            0 <= j < decimal_text(n).len() ==> #[trigger] text[from + j] == decimal_text(
                n,
            )[j] as u8,
    ensures
        decimal_text(n).len() >= 1,
        written_value(text, from, from + decimal_text(n).len(), 10) == n,
        forall|j: int|
            0 <= j < decimal_text(n).len() ==> is_radix_digit(
                #[trigger] text[from + j],
                Radix::Decimal,
            ),
    decreases n,
{
    let whole = decimal_text(n);
    if n < 10 {
        lemma_digit_char(n as u8);
        assert(text[from + 0] == whole[0] as u8);
        assert(written_value(text, from, from, 10) == 0);
    } else {
        let front = decimal_text(n / 10);
        let last = (n % 10) as u8;
        lemma_digit_char(last);
        assert forall|j: int| 0 <= j < front.len() implies #[trigger] text[from + j] == front[j]
            as u8 by {
            assert(whole[j] == front[j]);
        }
        lemma_decimal_text_value(text, from, n / 10);
        let to = from + whole.len();
        assert(text[from + (whole.len() - 1)] == whole[whole.len() - 1] as u8);
        assert(written_value(text, from, to, 10) == written_value(text, from, to - 1, 10) * 10
            + digit_value(text[to - 1]));
    }
}

/// No character comes before the first one.
proof fn lemma_char_range(c: char)
    ensures
        '\0' <= c,
{
}

/// A number in decimal is made of ASCII characters.
proof fn lemma_decimal_text_ascii(n: nat)
    ensures
        decimal_text(n).len() >= 1,
        forall|j: int| 0 <= j < decimal_text(n).len() ==> #[trigger] decimal_text(n)[j] <= '\u{7f}',
    decreases n,
{
    let whole = decimal_text(n);
    if n < 10 {
        lemma_digit_char(n as u8);
    } else {
        let front = decimal_text(n / 10);
        lemma_decimal_text_ascii(n / 10);
        lemma_digit_char((n % 10) as u8);
        assert forall|j: int| 0 <= j < whole.len() implies #[trigger] whole[j] <= '\u{7f}' by {
            if j < front.len() {
                assert(whole[j] == front[j]);
            }
        }
    }
}

/// The magnitude of an exponent.
pub open spec fn magnitude(value: i32) -> nat {
    if value < 0 {
        (-value) as nat
    } else {
        value as nat
    }
}

/// The number of bytes before the digits of a number that is written out: one
/// for a `-`, and two for a radix prefix.
pub open spec fn digits_offset(number: Literal) -> int {
    (if number.sign == Sign::Negative {
        1int
    } else {
        0int
    }) + (if number.radix == Radix::Decimal {
        0int
    } else {
        2int
    })
}

/// True if `bytes` are a number written out: sign, prefix, digits and
/// exponent, byte by byte.
pub open spec fn written_out(bytes: Seq<u8>, number: Literal) -> bool {
    let count = number.digits.len() as int;
    let from = digits_offset(number);
    let to = from + count;
    &&& to <= bytes.len()
    &&& number.sign == Sign::Negative ==> bytes[0] == MINUS
    &&& number.radix != Radix::Decimal ==> bytes[from - 2] == DIGIT_0 && prefix_letter(
        bytes[from - 1],
    ) == Some(number.radix)
    &&& forall|k: int|
        0 <= k < count ==> #[trigger] bytes[from + k] == digit_char(number.digits[count - 1 - k])
            as u8
    &&& match number.exponent {
        None => bytes.len() == to,
        Some(value) => {
            let shown = decimal_text(magnitude(value));
            &&& bytes.len() == to + 2 + shown.len()
            &&& bytes[to] == LOWER_E
            &&& bytes[to + 1] == if value < 0 {
                MINUS
            } else {
                PLUS
            }
            &&& forall|j: int|
                0 <= j < shown.len() ==> #[trigger] bytes[to + 2 + j] == shown[j] as u8
        },
    }
}

/// The sign and the prefix of a number, written out.
proof fn lemma_front_text(number: Literal)
    ensures
        sign_text(number.sign).len() == if number.sign == Sign::Negative {
            1int
        } else {
            0int
        },
        prefix_text(number.radix).len() == if number.radix == Radix::Decimal {
            0int
        } else {
            2int
        },
        number.sign == Sign::Negative ==> sign_text(number.sign)[0] == '-',
        number.radix != Radix::Decimal ==> prefix_text(number.radix)[0] == '0' && prefix_letter(
            prefix_text(number.radix)[1] as u8,
        ) == Some(number.radix),
        forall|i: int|
            0 <= i < sign_text(number.sign).len() ==> #[trigger] sign_text(number.sign)[i]
                <= '\u{7f}',
        forall|i: int|
            0 <= i < prefix_text(number.radix).len() ==> #[trigger] prefix_text(number.radix)[i]
                <= '\u{7f}',
{
    reveal_strlit("-");
    reveal_strlit("0b");
    reveal_strlit("0o");
    reveal_strlit("0x");
}

/// The exponent of a number, written out.
proof fn lemma_exponent_text(value: i32)
    ensures
        exponent_text(Some(value)).len() == 2 + decimal_text(magnitude(value)).len(),
        exponent_text(Some(value))[0] == 'e',
        exponent_text(Some(value))[1] == if value < 0 {
            '-'
        } else {
            '+'
        },
        forall|j: int|
            0 <= j < decimal_text(magnitude(value)).len() ==> #[trigger] exponent_text(
                Some(value),
            )[2 + j] == decimal_text(magnitude(value))[j],
        forall|i: int|
            0 <= i < exponent_text(Some(value)).len() ==> #[trigger] exponent_text(Some(value))[i]
                <= '\u{7f}',
{
    reveal_strlit("e");
    reveal_strlit("-");
    reveal_strlit("+");
    let shown = decimal_text(magnitude(value));
    let whole = exponent_text(Some(value));
    lemma_decimal_text_ascii(magnitude(value));
    assert forall|j: int| 0 <= j < shown.len() implies #[trigger] whole[2 + j] == shown[j] by {}
    assert forall|i: int| 0 <= i < whole.len() implies #[trigger] whole[i] <= '\u{7f}' by {
        if i >= 2 {
            assert(whole[2 + (i - 2)] == shown[i - 2]);
        }
    }
}

/// The text of a number with digits is made of ASCII characters, and its
/// bytes are the number written out.
proof fn lemma_text_written_out(number: Literal)
    requires
        number.digits.len() > 0,
        forall|k: int| 0 <= k < number.digits.len() ==> number.digits[k] < 16,
    ensures
        is_ascii_chars(number.text()),
        encode_utf8(number.text()).len() == number.text().len(),
        written_out(encode_utf8(number.text()), number),
{
    let text = number.text();
    let sign = sign_text(number.sign);
    let prefix = prefix_text(number.radix);
    let digits = rendered(number.digits);
    let exponent = exponent_text(number.exponent);
    let count = number.digits.len() as int;
    let from = digits_offset(number);
    let to = from + count;
    lemma_front_text(number);
    if let Some(value) = number.exponent {
        lemma_exponent_text(value);
    }
    assert forall|i: int| 0 <= i < count implies #[trigger] digits[i] <= '\u{7f}' by {
        lemma_digit_char(number.digits[count - 1 - i]);
    }
    assert(text == sign + prefix + digits + exponent);
    assert(text.len() == to + exponent.len());
    assert forall|i: int| 0 <= i < text.len() implies '\0' <= #[trigger] text[i] <= '\u{7f}' by {
        lemma_char_range(text[i]);
        if i < sign.len() {
            assert(text[i] == sign[i]);
        } else if i < from {
            assert(text[i] == prefix[i - sign.len()]);
        } else if i < to {
            assert(text[i] == digits[i - from]);
        } else {
            assert(text[i] == exponent[i - to]);
        }
    }
    is_ascii_chars_encode_utf8(text);
    let bytes = encode_utf8(text);
    assert forall|i: int| 0 <= i < text.len() implies #[trigger] bytes[i] == text[i] as u8 by {}
    if number.sign == Sign::Negative {
        assert(text[0] == sign[0]);
    }
    if number.radix != Radix::Decimal {
        assert(text[from - 2] == prefix[0]);
        assert(text[from - 1] == prefix[1]);
    }
    assert forall|k: int| 0 <= k < count implies #[trigger] bytes[from + k] == digit_char(
        number.digits[count - 1 - k],
    ) as u8 by {
        assert(text[from + k] == digits[k]);
    }
    if let Some(value) = number.exponent {
        let shown = decimal_text(magnitude(value));
        assert(text[to] == exponent[0]);
        assert(text[to + 1] == exponent[1]);
        assert forall|j: int| 0 <= j < shown.len() implies #[trigger] bytes[to + 2 + j]
            == shown[j] as u8 by {
            assert(text[to + 2 + j] == exponent[2 + j]);
        }
    }
}

/// A number written out is read as that number, and all of it is taken.
proof fn lemma_written_out_parses(bytes: Seq<u8>, number: Literal, pos: Span)
    requires
        number.wf(),
        number.digits.len() > 0,
        written_out(bytes, number),
    ensures
        literal(bytes, pos) == Ok::<Parsed, (ParseError, Span)>(
            Parsed { number, end: bytes.len() as int },
        ),
{
    let count = number.digits.len() as int;
    let from = digits_offset(number);
    let to = from + count;
    assert forall|k: int| from <= k < to implies is_radix_digit(
        #[trigger] bytes[k],
        number.radix,
    ) by {
        assert(bytes[from + (k - from)] == digit_char(number.digits[count - 1 - (k - from)]) as u8);
        lemma_digit_char(number.digits[count - 1 - (k - from)]);
    }
    assert forall|k: int| 0 <= k < count implies #[trigger] stored_digits(bytes, from, to)[k]
        == number.digits[k] by {
        assert(bytes[from + (count - 1 - k)] == digit_char(number.digits[k]) as u8);
        lemma_digit_char(number.digits[k]);
    }
    assert(stored_digits(bytes, from, to) =~= number.digits);
    lemma_digit_char(number.digits[count - 1]);
    assert(bytes[from + 0] == digit_char(number.digits[count - 1]) as u8);
    if count > 1 {
        lemma_digit_char(number.digits[count - 2]);
        assert(bytes[from + 1] == digit_char(number.digits[count - 2]) as u8);
    }
    match number.exponent {
        None => {
            lemma_digits_end_is(bytes, number.radix, from, to);
        },
        Some(value) => {
            let shown = decimal_text(magnitude(value));
            lemma_digits_end_is(bytes, Radix::Decimal, from, to);
            lemma_decimal_text_value(bytes, to + 2, magnitude(value));
            let end = to + 2 + shown.len();
            assert forall|k: int| to + 2 <= k < end implies is_radix_digit(
                #[trigger] bytes[k],
                Radix::Decimal,
            ) by {
                assert(is_radix_digit(bytes[to + 2 + (k - to - 2)], Radix::Decimal));
            }
            lemma_digits_end_is(bytes, Radix::Decimal, to + 2, end);
            lemma_stored_is_written(bytes, to + 2, end, 10);
        },
    }
}

/// What `to_string` writes for a number with digits, `parse` reads back as the
/// same number, and takes all of it.
///
/// A number without digits is written as `0`, which has one digit, so it is
/// read back with the digit 0.
pub proof fn lemma_text_parses_back(number: Literal, pos: Span)
    requires
        number.wf(),
        number.digits.len() > 0,
    ensures
        literal(encode_utf8(number.text()), pos) == Ok::<Parsed, (ParseError, Span)>(
            Parsed { number, end: number.text().len() as int },
        ),
{
    lemma_text_written_out(number);
    lemma_written_out_parses(encode_utf8(number.text()), number, pos);
}

} // verus!
