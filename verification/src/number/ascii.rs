//! What ties the bytes of a literal to the characters of a string.
//!
//! A literal is made of ASCII characters only. In a UTF-8 string such a
//! prefix takes one byte per character, so the number of bytes that a literal
//! takes is also the number of its characters, and the text can be cut there.

use crate::number::grammar::{
    digits_end, exponent_at, has_point, is_radix_digit, literal, mantissa_end, point_at,
    prefix_radix, sign_len,
};
use crate::number::Radix;
use crate::sourcepos::Span;
use vstd::prelude::*;
use vstd::utf8::{
    decode_first_scalar, decode_utf8, is_char_boundary, length_of_first_scalar, pop_first_scalar,
    valid_first_scalar, valid_utf8,
};

verus! {

/// True if the first `n` bytes are ASCII.
pub open spec fn ascii_prefix(bytes: Seq<u8>, n: int) -> bool {
    forall|i: int| 0 <= i < n ==> #[trigger] bytes[i] < 0x80
}

/// A run of digits lies within the text, holds digits only, and ends at a
/// byte that is no digit.
pub proof fn lemma_digits_end_bounds(text: Seq<u8>, radix: Radix, from: int)
    requires
        0 <= from <= text.len(),
    ensures
        from <= digits_end(text, radix, from) <= text.len(),
        forall|k: int|
            from <= k < digits_end(text, radix, from) ==> is_radix_digit(#[trigger] text[k], radix),
        digits_end(text, radix, from) < text.len() ==> !is_radix_digit(
            text[digits_end(text, radix, from)],
            radix,
        ),
    decreases text.len() - from,
{
    if from < text.len() && is_radix_digit(text[from], radix) {
        lemma_digits_end_bounds(text, radix, from + 1);
    }
}

/// The bytes of a literal are ASCII.
pub proof fn lemma_literal_ascii(text: Seq<u8>, pos: Span)
    ensures
        literal(text, pos) matches Ok(parsed) ==> 0 < parsed.end <= text.len() && ascii_prefix(
            text,
            parsed.end,
        ),
{
    let start = sign_len(text);
    match prefix_radix(text, start) {
        Some(radix) => {
            lemma_digits_end_bounds(text, radix, start + 2);
        },
        None => {
            let point = point_at(text, start);
            lemma_digits_end_bounds(text, Radix::Decimal, start);
            if has_point(text, start) {
                lemma_digits_end_bounds(text, Radix::Decimal, point + 1);
            }
            let end = mantissa_end(text, start);
            if exponent_at(text, pos, end) matches Ok((Some(_), _)) {
                lemma_digits_end_bounds(text, Radix::Decimal, end + 1);
                if end + 1 < text.len() {
                    lemma_digits_end_bounds(text, Radix::Decimal, end + 2);
                }
            }
        },
    }
}

/// In valid UTF-8, the end of an ASCII prefix is a character boundary.
pub proof fn lemma_ascii_prefix_boundary(bytes: Seq<u8>, n: int)
    requires
        valid_utf8(bytes),
        0 <= n <= bytes.len(),
        ascii_prefix(bytes, n),
    ensures
        is_char_boundary(bytes, n),
    decreases n,
{
    if n > 0 {
        let rest = pop_first_scalar(bytes);
        assert(bytes[0] < 0x80);
        assert forall|i: int| 0 <= i < n - 1 implies #[trigger] rest[i] < 0x80 by {
            assert(rest[i] == bytes[i + 1]);
        }
        lemma_ascii_prefix_boundary(rest, n - 1);
    }
}

/// ASCII bytes are valid UTF-8 and decode to one character each.
pub proof fn lemma_ascii_decode(bytes: Seq<u8>)
    requires
        ascii_prefix(bytes, bytes.len() as int),
    ensures
        valid_utf8(bytes),
        decode_utf8(bytes).len() == bytes.len(),
        forall|i: int|
            0 <= i < bytes.len() ==> #[trigger] decode_utf8(bytes)[i] == bytes[i] as char,
    decreases bytes.len(),
{
    if bytes.len() > 0 {
        let first = bytes[0];
        assert((first & 0x7f) as u32 == first as u32) by (bit_vector)
            requires
                first < 0x80,
        ;
        let rest = pop_first_scalar(bytes);
        assert forall|i: int| 0 <= i < rest.len() implies #[trigger] rest[i] < 0x80 by {
            assert(rest[i] == bytes[i + 1]);
        }
        lemma_ascii_decode(rest);
        assert(decode_first_scalar(bytes) == first as u32);
        assert forall|i: int| 0 <= i < bytes.len() implies #[trigger] decode_utf8(bytes)[i]
            == bytes[i] as char by {
            if i > 0 {
                assert(decode_utf8(bytes)[i] == decode_utf8(rest)[i - 1]);
                assert(rest[i - 1] == bytes[i]);
            }
        }
    }
}

} // verus!
