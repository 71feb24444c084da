//! Numbers and errors as text for the user.

use crate::number::{Literal, ParseError, ParsedNumber, Radix, Sign};
use vstd::prelude::*;
use vstd::string::StringExecFns;

verus! {

/// The character for a digit below 16: `0`-`9`, then `a`-`f`.
pub open spec fn digit_char(digit: u8) -> char {
    if digit < 10 {
        (0x30 + digit) as char
    } else {
        (0x61 + digit - 10) as char
    }
}

/// Digits as text: stored least significant first, written most significant
/// first.
pub open spec fn rendered(digits: Seq<u8>) -> Seq<char> {
    Seq::new(digits.len(), |k: int| digit_char(digits[digits.len() - 1 - k]))
}

/// A natural number in decimal, without leading zeros.
pub open spec fn decimal_text(n: nat) -> Seq<char>
    decreases n,
{
    if n < 10 {
        seq![digit_char(n as u8)]
    } else {
        decimal_text(n / 10).push(digit_char((n % 10) as u8))
    }
}

/// The prefix that announces a radix; decimal has none.
pub open spec fn prefix_text(radix: Radix) -> Seq<char> {
    match radix {
        Radix::Binary => "0b"@,
        Radix::Octal => "0o"@,
        Radix::Decimal => Seq::empty(),
        Radix::Hexadecimal => "0x"@,
    }
}

/// The suffix for an exponent: `e`, a sign that is always written, and the
/// magnitude in decimal.
pub open spec fn exponent_text(exponent: Option<i32>) -> Seq<char> {
    match exponent {
        None => Seq::empty(),
        Some(value) => if value < 0 {
            "e"@ + "-"@ + decimal_text((-value) as nat)
        } else {
            "e"@ + "+"@ + decimal_text(value as nat)
        },
    }
}

/// The sign as it is written: nothing for a positive number.
pub open spec fn sign_text(sign: Sign) -> Seq<char> {
    match sign {
        Sign::Positive => Seq::empty(),
        Sign::Negative => "-"@,
    }
}

/// The digits as they are written, `0` where there are none.
pub open spec fn digits_text(digits: Seq<u8>) -> Seq<char> {
    if digits.len() == 0 {
        "0"@
    } else {
        rendered(digits)
    }
}

impl Literal {
    /// The number written out: a `-` if it is negative, the prefix of its
    /// radix, its digits from the most significant on, or `0` if it has none,
    /// and its exponent, if it has one.
    pub open spec fn text(self) -> Seq<char> {
        sign_text(self.sign) + prefix_text(self.radix) + digits_text(self.digits) + exponent_text(
            self.exponent,
        )
    }
}

/// The text of one digit.
fn digit_str(digit: u8) -> (r: &'static str)
    requires
        digit < 16,
    ensures
        r@ == seq![digit_char(digit)],
{
    proof {
        reveal_strlit("0");
        reveal_strlit("1");
        reveal_strlit("2");
        reveal_strlit("3");
        reveal_strlit("4");
        reveal_strlit("5");
        reveal_strlit("6");
        reveal_strlit("7");
        reveal_strlit("8");
        reveal_strlit("9");
        reveal_strlit("a");
        reveal_strlit("b");
        reveal_strlit("c");
        reveal_strlit("d");
        reveal_strlit("e");
        reveal_strlit("f");
    }
    match digit {
        0 => "0",
        1 => "1",
        2 => "2",
        3 => "3",
        4 => "4",
        5 => "5",
        6 => "6",
        7 => "7",
        8 => "8",
        9 => "9",
        10 => "a",
        11 => "b",
        12 => "c",
        13 => "d",
        14 => "e",
        _ => "f",
    }
}

/// Appends digits to a text, the most significant first.
pub fn push_digits(s: &mut String, digits: &[u8])
    requires
        forall|k: int| 0 <= k < digits@.len() ==> digits@[k] < 16,
    ensures
        final(s)@ == old(s)@ + rendered(digits@),
{
    let len = digits.len();
    let mut i: usize = len;
    while i > 0
        invariant
            i <= len,
            len == digits@.len(),
            forall|k: int| 0 <= k < digits@.len() ==> digits@[k] < 16,
            s@ == old(s)@ + rendered(digits@).take(len - i),
        decreases i,
    {
        i -= 1;
        s.append(digit_str(digits[i]));
    }
}

/// One more digit at the least significant end is one more character in
/// front.
proof fn lemma_rendered_push(digits: Seq<u8>, digit: u8)
    ensures
        rendered(digits.push(digit)) == seq![digit_char(digit)] + rendered(digits),
{
}

/// Appends a number in decimal to a text.
pub fn push_decimal(s: &mut String, n: u32)
    ensures
        final(s)@ == old(s)@ + decimal_text(n as nat),
{
    let mut digits: Vec<u8> = Vec::new();
    let mut left: u32 = n;
    while left >= 10
        invariant
            decimal_text(n as nat) == decimal_text(left as nat) + rendered(digits@),
            forall|k: int| 0 <= k < digits@.len() ==> digits@[k] < 10,
        decreases left,
    {
        let digit = (left % 10) as u8;
        proof {
            lemma_rendered_push(digits@, digit);
        }
        digits.push(digit);
        left = left / 10;
    }
    proof {
        lemma_rendered_push(digits@, left as u8);
    }
    digits.push(left as u8);
    push_digits(s, digits.as_slice());
}

impl ParsedNumber {
    /// Writes the number out as a literal.
    ///
    /// The text is canonical rather than a copy of what was parsed: a `+` sign
    /// is not written, and `1.` comes out as `1e+0`. A digit of 16 or more has
    /// no character, so there must be none.
    pub fn to_string(&self) -> (s: String)
        requires
            forall|k: int| 0 <= k < self.digits@.len() ==> self.digits@[k] < 16,
        ensures
            s@ == self@.text(),
    {
        let mut s = String::new();
        match self.sign {
            Sign::Positive => {},
            Sign::Negative => {
                s.append("-");
            },
        }
        match self.radix {
            Radix::Binary => {
                s.append("0b");
            },
            Radix::Octal => {
                s.append("0o");
            },
            Radix::Decimal => {},
            Radix::Hexadecimal => {
                s.append("0x");
            },
        }
        if self.digits.len() == 0 {
            s.append("0");
        } else {
            push_digits(&mut s, self.digits.as_slice());
        }
        match self.exponent {
            Some(value) => {
                s.append("e");
                if value < 0 {
                    s.append("-");
                    push_decimal(&mut s, (-(value as i64)) as u32);
                } else {
                    s.append("+");
                    push_decimal(&mut s, value as u32);
                }
            },
            None => {},
        }
        s
    }
}

/// How `{:?}` shows a character: in single quotes, with an escape where the
/// character needs one.
pub uninterp spec fn debug_text(c: char) -> Seq<char>;

/// The character as `{:?}` shows it.
///
/// This is the `Debug` formatting of `char` in the standard library. Its
/// rules for escapes are long, so the contract only gives the result a name.
#[verifier::external_body]
fn char_debug(c: char) -> (s: String)
    ensures
        s@ == debug_text(c),
{
    format!("{:?}", c)
}

impl ParseError {
    /// The character that the error carries, if it carries one.
    pub open spec fn character(self) -> Option<char> {
        match self {
            ParseError::InvalidDigit(_, c) => Some(c),
            ParseError::UnexpectedChar(c) => Some(c),
            _ => None,
        }
    }

    /// The message for the error, where `shown` is how its character is to be
    /// shown.
    pub open spec fn message(self, shown: Seq<char>) -> Seq<char> {
        match self {
            ParseError::InvalidDigit(radix, _) => "invalid digit for base "@ + decimal_text(
                radix.base() as nat,
            ) + ": "@ + shown,
            ParseError::ExtraPoint => "unexpected extra '.'"@,
            ParseError::UnexpectedPoint(radix) => "non-integers not supported in base "@
                + decimal_text(radix.base() as nat),
            ParseError::UnexpectedChar(_) => "unexpected character "@ + shown,
            ParseError::NoDigits => "number has no digits"@,
            ParseError::NoExponentValue => "missing exponent value"@,
            ParseError::IntegerTooLarge => "integer is too large for 64 bits"@,
        }
    }

    /// The message for the error, with `shown` in the place of its character.
    /// An error without a character makes no use of `shown`.
    pub fn describe(&self, shown: &str) -> (s: String)
        ensures
            s@ == self.message(shown@),
    {
        let mut s = String::new();
        match self {
            ParseError::InvalidDigit(radix, _) => {
                s.append("invalid digit for base ");
                push_decimal(&mut s, radix.value() as u32);
                s.append(": ");
                s.append(shown);
            },
            ParseError::ExtraPoint => {
                s.append("unexpected extra '.'");
            },
            ParseError::UnexpectedPoint(radix) => {
                s.append("non-integers not supported in base ");
                push_decimal(&mut s, radix.value() as u32);
            },
            ParseError::UnexpectedChar(_) => {
                s.append("unexpected character ");
                s.append(shown);
            },
            ParseError::NoDigits => {
                s.append("number has no digits");
            },
            ParseError::NoExponentValue => {
                s.append("missing exponent value");
            },
            ParseError::IntegerTooLarge => {
                s.append("integer is too large for 64 bits");
            },
        }
        s
    }

    /// The message for the error. A character in it is shown as `{:?}` shows
    /// it.
    pub fn to_string(&self) -> (s: String)
        ensures
            s@ == self.message(
                match self.character() {
                    Some(c) => debug_text(c),
                    None => Seq::empty(),
                },
            ),
    {
        match self {
            ParseError::InvalidDigit(_, c) => {
                let shown = char_debug(*c);
                self.describe(shown.as_str())
            },
            ParseError::UnexpectedChar(c) => {
                let shown = char_debug(*c);
                self.describe(shown.as_str())
            },
            _ => {
                proof {
                    reveal_strlit("");
                }
                let s = self.describe("");
                s
            },
        }
    }
}

} // verus!
