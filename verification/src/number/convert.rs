//! From digits to the numbers of the machine: exact integers, and the parts
//! of a floating-point number.

use crate::number::{digits_value, Literal, Radix, Sign};
use vstd::prelude::*;

verus! {

/// The most digits of a decimal number that always fit in a `u64`.
pub const MANTISSA_DIGITS: usize = 19;

/// The least decimal exponent at which every number is taken as infinite.
pub const INFINITE_EXPONENT: i32 = 308;

/// The greatest decimal exponent at which every number is taken as zero.
pub const ZERO_EXPONENT: i32 = -343;

/// The size of a decimal number, ready to be made a floating-point number.
#[derive(Debug, Clone, Copy, PartialEq, Eq, Structural)]
pub enum Magnitude {
    /// Zero, or too small to tell from zero.
    Zero,
    /// Too large for any finite floating-point number.
    Infinite,
    /// `mantissa` times ten to the power `exponent`, which lies strictly
    /// between [`ZERO_EXPONENT`] and [`INFINITE_EXPONENT`].
    Scaled { mantissa: u64, exponent: i32 },
}

/// A decimal number as a sign and a magnitude. The sign is applied last: a
/// negative zero is a zero with a negative sign.
#[derive(Debug, Clone, Copy, PartialEq, Eq, Structural)]
pub struct FloatParts {
    pub sign: Sign,
    pub magnitude: Magnitude,
}

/// Ten to the power `n`.
pub open spec fn pow10(n: nat) -> nat
    decreases n,
{
    if n == 0 {
        1
    } else {
        10 * pow10((n - 1) as nat)
    }
}

impl Literal {
    /// The number of least significant digits that the conversion to a
    /// floating-point number leaves out: all but the 19 most significant.
    pub open spec fn dropped_digits(self) -> int {
        if self.digits.len() <= MANTISSA_DIGITS {
            0
        } else {
            self.digits.len() - MANTISSA_DIGITS
        }
    }

    /// The exponent that goes with the digits that are kept: the exponent of
    /// the number, 0 where it has none, raised by the count of the digits that
    /// are left out.
    pub open spec fn effective_exponent(self) -> int {
        self.dropped_digits() + match self.exponent {
            Some(exponent) => exponent as int,
            None => 0,
        }
    }

    /// The parts from which the floating-point value of a decimal number is
    /// computed.
    ///
    /// A number without digits is a positive zero. Otherwise the mantissa is
    /// made of the 19 most significant digits, and the number is infinite from
    /// the exponent 308 on and zero down from the exponent -343.
    pub open spec fn float_parts(self) -> FloatParts {
        if self.digits.len() == 0 {
            FloatParts { sign: Sign::Positive, magnitude: Magnitude::Zero }
        } else {
            let exponent = self.effective_exponent();
            FloatParts {
                sign: self.sign,
                magnitude: if exponent >= INFINITE_EXPONENT {
                    Magnitude::Infinite
                } else if exponent <= ZERO_EXPONENT {
                    Magnitude::Zero
                } else {
                    Magnitude::Scaled {
                        mantissa: digits_value(self.digits.skip(self.dropped_digits()), 10) as u64,
                        exponent: exponent as i32,
                    }
                },
            }
        }
    }
}

/// Powers of ten grow with the exponent.
pub proof fn lemma_pow10_increases(a: nat, b: nat)
    requires
        a <= b,
    ensures
        pow10(a) <= pow10(b),
        pow10(a) >= 1,
    decreases b,
{
    if a < b {
        lemma_pow10_increases(a, (b - 1) as nat);
    } else if a > 0 {
        lemma_pow10_increases((a - 1) as nat, (a - 1) as nat);
    }
}

/// Decimal digits denote less than ten to the power of their count.
pub proof fn lemma_decimal_value_bound(digits: Seq<u8>)
    requires
        forall|k: int| 0 <= k < digits.len() ==> digits[k] < 10,
    ensures
        0 <= digits_value(digits, 10) < pow10(digits.len()),
    decreases digits.len(),
{
    if digits.len() > 0 {
        let rest = digits.skip(1);
        assert forall|k: int| 0 <= k < rest.len() implies rest[k] < 10 by {
            assert(rest[k] == digits[k + 1]);
        }
        lemma_decimal_value_bound(rest);
    }
}

/// A number with digits is infinite from the exponent 308 on and zero from
/// the exponent -343 down, whatever its digits are, and keeps its sign. In
/// between it has a mantissa of at most 19 digits.
pub proof fn lemma_float_saturates(number: Literal)
    requires
        number.digits.len() > 0,
        forall|k: int| 0 <= k < number.digits.len() ==> number.digits[k] < 10,
    ensures
        number.float_parts().sign == number.sign,
        number.effective_exponent() >= 308 <==> number.float_parts().magnitude
            == Magnitude::Infinite,
        number.effective_exponent() <= -343 <==> number.float_parts().magnitude == Magnitude::Zero,
        (number.float_parts().magnitude matches Magnitude::Scaled { mantissa, exponent } ==> {
            &&& mantissa == digits_value(number.digits.skip(number.dropped_digits()), 10)
            &&& mantissa < pow10(19)
            &&& exponent == number.effective_exponent()
        }),
{
    let kept = number.digits.skip(number.dropped_digits());
    assert forall|k: int| 0 <= k < kept.len() implies kept[k] < 10 by {
        assert(kept[k] == number.digits[k + number.dropped_digits()]);
    }
    lemma_decimal_value_bound(kept);
    lemma_pow10_increases(kept.len(), 19);
    reveal_with_fuel(pow10, 20);
}

/// Leaving out the `count` least significant digits of a decimal number
/// divides it by ten to the power `count` and drops the remainder, which is
/// what the digits left out denote. This is all that the mantissa of a long
/// number loses.
pub proof fn lemma_dropped_digits(digits: Seq<u8>, count: int)
    requires
        forall|k: int| 0 <= k < digits.len() ==> digits[k] < 10,
        0 <= count <= digits.len(),
    ensures
        digits_value(digits, 10) == digits_value(digits.skip(count), 10) * pow10(count as nat)
            + digits_value(digits.take(count), 10),
        0 <= digits_value(digits.take(count), 10) < pow10(count as nat),
    decreases count,
{
    let low = digits.take(count);
    assert forall|k: int| 0 <= k < low.len() implies low[k] < 10 by {
        assert(low[k] == digits[k]);
    }
    lemma_decimal_value_bound(low);
    if count == 0 {
        assert(digits.skip(0) =~= digits);
        let whole = digits_value(digits, 10);
        let one = pow10(0) as int;
        assert(whole * one == whole) by (nonlinear_arith)
            requires
                one == 1,
        ;
    } else {
        let rest = digits.skip(1);
        assert forall|k: int| 0 <= k < rest.len() implies rest[k] < 10 by {
            assert(rest[k] == digits[k + 1]);
        }
        lemma_dropped_digits(rest, count - 1);
        assert(rest.skip(count - 1) =~= digits.skip(count));
        assert(rest.take(count - 1) =~= low.skip(1));
        let high = digits_value(digits.skip(count), 10);
        let power = pow10((count - 1) as nat) as int;
        let below = digits_value(low.skip(1), 10);
        let scale = pow10(count as nat) as int;
        assert(10 * (high * power + below) == high * scale + 10 * below) by (nonlinear_arith)
            requires
                scale == 10 * power,
        ;
    }
}

/// The integer that a sign and digits, least significant first, denote in
/// base `base`.
pub open spec fn signed_value(sign: Sign, digits: Seq<u8>, base: int) -> int {
    match sign {
        Sign::Positive => digits_value(digits, base),
        Sign::Negative => -digits_value(digits, base),
    }
}

/// The more significant digits of a number alone never denote more than the
/// whole number, and no number is negative.
pub proof fn lemma_digits_value_suffix(digits: Seq<u8>, base: int, from: int)
    requires
        base >= 1,
        0 <= from <= digits.len(),
    ensures
        0 <= digits_value(digits.skip(from), base) <= digits_value(digits, base),
    decreases from,
{
    lemma_digits_value_nonnegative(digits.skip(from), base);
    if from > 0 {
        let rest = digits.skip(1);
        lemma_digits_value_suffix(rest, base, from - 1);
        assert(rest.skip(from - 1) =~= digits.skip(from));
        lemma_digits_value_nonnegative(rest, base);
        assert(base * digits_value(rest, base) >= digits_value(rest, base)) by (nonlinear_arith)
            requires
                base >= 1,
                digits_value(rest, base) >= 0,
        ;
    } else {
        assert(digits.skip(0) =~= digits);
    }
}

/// Digits never denote a negative number.
pub proof fn lemma_digits_value_nonnegative(digits: Seq<u8>, base: int)
    requires
        base >= 1,
    ensures
        0 <= digits_value(digits, base),
    decreases digits.len(),
{
    if digits.len() > 0 {
        lemma_digits_value_nonnegative(digits.skip(1), base);
        assert(base * digits_value(digits.skip(1), base) >= 0) by (nonlinear_arith)
            requires
                base >= 1,
                digits_value(digits.skip(1), base) >= 0,
        ;
    }
}

/// The digit at `at` joins the more significant digits after it.
pub proof fn lemma_digits_value_step(digits: Seq<u8>, base: int, at: int)
    requires
        0 <= at < digits.len(),
    ensures
        digits_value(digits.skip(at), base) == digits[at] + base * digits_value(
            digits.skip(at + 1),
            base,
        ),
{
    assert(digits.skip(at).skip(1) =~= digits.skip(at + 1));
}

/// Makes an integer from a sign and digits, least significant first.
///
/// The result is `None` exactly where the integer does not fit in an `i64`.
/// The most negative `i64` does fit, although its magnitude does not.
pub fn make_integer(sign: Sign, radix: Radix, digits: &[u8]) -> (r: Option<i64>)
    ensures
        match r {
            Some(value) => value == signed_value(sign, digits@, radix.base()),
            None => !(i64::MIN <= signed_value(sign, digits@, radix.base()) <= i64::MAX),
        },
{
    let base: i64 = radix.value() as i64;
    let ghost whole = digits_value(digits@, base as int);
    let mut r: i64 = 0;
    let mut i: usize = digits.len();
    while i > 0
        invariant
            i <= digits@.len(),
            base == radix.base(),
            whole == digits_value(digits@, base as int),
            r == signed_value(sign, digits@.skip(i as int), base as int),
        decreases i,
    {
        i -= 1;
        let digit = digits[i] as i64;
        proof {
            lemma_digits_value_step(digits@, base as int, i as int);
            lemma_digits_value_suffix(digits@, base as int, i as int);
            lemma_digits_value_suffix(digits@, base as int, i + 1);
        }
        let scaled = match r.checked_mul(base) {
            Some(scaled) => scaled,
            None => {
                return None;
            },
        };
        let next = match sign {
            Sign::Positive => scaled.checked_add(digit),
            Sign::Negative => scaled.checked_sub(digit),
        };
        r = match next {
            Some(next) => next,
            None => {
                return None;
            },
        };
    }
    assert(digits@.skip(0) =~= digits@);
    Some(r)
}

/// The parts of a decimal number from which its floating-point value is
/// computed: see [`Literal::float_parts`].
pub fn float_parts(sign: Sign, digits: &[u8], exponent: Option<i32>) -> (r: FloatParts)
    requires
        forall|k: int| 0 <= k < digits@.len() ==> digits@[k] < 10,
    ensures
        r == (Literal { sign, radix: Radix::Decimal, digits: digits@, exponent }).float_parts(),
{
    let len = digits.len();
    if len == 0 {
        return FloatParts { sign: Sign::Positive, magnitude: Magnitude::Zero };
    }
    let dropped: usize = if len <= MANTISSA_DIGITS {
        0
    } else {
        len - MANTISSA_DIGITS
    };
    let written: i32 = match exponent {
        Some(exponent) => exponent,
        None => 0,
    };
    if dropped > u32::MAX as usize {
        return FloatParts { sign, magnitude: Magnitude::Infinite };
    }
    let effective: i64 = written as i64 + dropped as i64;
    if effective >= INFINITE_EXPONENT as i64 {
        return FloatParts { sign, magnitude: Magnitude::Infinite };
    }
    if effective <= ZERO_EXPONENT as i64 {
        return FloatParts { sign, magnitude: Magnitude::Zero };
    }
    let mut mantissa: u64 = 0;
    let mut i: usize = len;
    while i > dropped
        invariant
            dropped <= i <= len,
            len == digits@.len(),
            len - dropped <= MANTISSA_DIGITS,
            forall|k: int| 0 <= k < digits@.len() ==> digits@[k] < 10,
            mantissa == digits_value(digits@.skip(i as int), 10),
        decreases i,
    {
        proof {
            let high = digits@.skip(i as int);
            assert forall|k: int| 0 <= k < high.len() implies high[k] < 10 by {
                assert(high[k] == digits@[k + i]);
            }
            lemma_decimal_value_bound(high);
            lemma_pow10_increases(high.len(), 18);
            lemma_pow10_18();
            lemma_digits_value_step(digits@, 10, i - 1);
        }
        i -= 1;
        mantissa = mantissa * 10 + digits[i] as u64;
    }
    FloatParts { sign, magnitude: Magnitude::Scaled { mantissa, exponent: effective as i32 } }
}

/// Ten to the power 18, written out.
pub proof fn lemma_pow10_18()
    ensures
        pow10(18) == 1_000_000_000_000_000_000,
{
    reveal_with_fuel(pow10, 20);
}

} // verus!
