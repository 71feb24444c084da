//! Dropping the zeros that a number does not need.

use crate::number::grammar::saturating_sum;
use crate::number::{digits_value, Literal};
use vstd::prelude::*;

verus! {

/// The number of digits that are left when the zeros at the most significant
/// end are dropped.
pub open spec fn significant_len(digits: Seq<u8>) -> int
    decreases digits.len(),
{
    if digits.len() > 0 && digits.last() == 0 {
        significant_len(digits.drop_last())
    } else {
        digits.len() as int
    }
}

/// The number of zeros at the least significant end.
pub open spec fn low_zeros(digits: Seq<u8>) -> int
    decreases digits.len(),
{
    if digits.len() > 0 && digits[0] == 0 {
        1 + low_zeros(digits.skip(1))
    } else {
        0
    }
}

impl Literal {
    /// The number without the zeros that it does not need.
    ///
    /// The zeros at the most significant end go first. Then, if the number has
    /// an exponent, the zeros at the least significant end go too, and the
    /// exponent grows by their count, up to `i32::MAX`. A number without an
    /// exponent keeps them: they are part of the integer.
    pub open spec fn trimmed(self) -> Literal {
        let kept = self.digits.take(significant_len(self.digits));
        match self.exponent {
            None => Literal { digits: kept, ..self },
            Some(exponent) => {
                let zeros = low_zeros(kept);
                Literal {
                    digits: kept.skip(zeros),
                    exponent: Some(saturating_sum(exponent as int, zeros)),
                    ..self
                }
            },
        }
    }
}

/// `significant_len` is the place after the most significant digit that is
/// not zero.
pub proof fn lemma_significant_len(digits: Seq<u8>)
    ensures
        0 <= significant_len(digits) <= digits.len(),
        forall|k: int| significant_len(digits) <= k < digits.len() ==> digits[k] == 0,
        significant_len(digits) > 0 ==> digits[significant_len(digits) - 1] != 0,
    decreases digits.len(),
{
    if digits.len() > 0 && digits.last() == 0 {
        let rest = digits.drop_last();
        lemma_significant_len(rest);
        assert forall|k: int| significant_len(digits) <= k < digits.len() implies digits[k]
            == 0 by {
            if k < rest.len() {
                assert(rest[k] == digits[k]);
            }
        }
    }
}

/// The place after the most significant digit that is not zero is
/// `significant_len`.
pub proof fn lemma_significant_len_is(digits: Seq<u8>, n: int)
    requires
        0 <= n <= digits.len(),
        forall|k: int| n <= k < digits.len() ==> digits[k] == 0,
        n > 0 ==> digits[n - 1] != 0,
    ensures
        significant_len(digits) == n,
    decreases digits.len(),
{
    if digits.len() > 0 && digits.last() == 0 {
        lemma_significant_len_is(digits.drop_last(), n);
    }
}

/// `low_zeros` is the place of the least significant digit that is not zero.
pub proof fn lemma_low_zeros(digits: Seq<u8>)
    ensures
        0 <= low_zeros(digits) <= digits.len(),
        forall|k: int| 0 <= k < low_zeros(digits) ==> digits[k] == 0,
        low_zeros(digits) < digits.len() ==> digits[low_zeros(digits)] != 0,
    decreases digits.len(),
{
    if digits.len() > 0 && digits[0] == 0 {
        lemma_low_zeros(digits.skip(1));
        assert forall|k: int| 0 <= k < low_zeros(digits) implies digits[k] == 0 by {
            if k > 0 {
                assert(digits.skip(1)[k - 1] == digits[k]);
            }
        }
    }
}

/// The place of the least significant digit that is not zero is `low_zeros`.
pub proof fn lemma_low_zeros_is(digits: Seq<u8>, n: int)
    requires
        0 <= n <= digits.len(),
        forall|k: int| 0 <= k < n ==> digits[k] == 0,
        n < digits.len() ==> digits[n] != 0,
    ensures
        low_zeros(digits) == n,
    decreases digits.len(),
{
    if digits.len() > 0 && digits[0] == 0 {
        let rest = digits.skip(1);
        assert forall|k: int| 0 <= k < n - 1 implies rest[k] == 0 by {
            assert(rest[k] == digits[k + 1]);
        }
        lemma_low_zeros_is(rest, n - 1);
    }
}

/// Trimming a second time changes nothing.
pub proof fn lemma_trim_idempotent(number: Literal)
    ensures
        number.trimmed().trimmed() == number.trimmed(),
{
    let kept = number.digits.take(significant_len(number.digits));
    lemma_significant_len(number.digits);
    match number.exponent {
        None => {
            lemma_significant_len_is(kept, kept.len() as int);
            assert(kept.take(kept.len() as int) =~= kept);
        },
        Some(exponent) => {
            let zeros = low_zeros(kept);
            lemma_low_zeros(kept);
            let left = kept.skip(zeros);
            lemma_significant_len_is(left, left.len() as int);
            lemma_low_zeros_is(left, 0);
            assert(left.skip(0) =~= left);
        },
    }
}

/// A number whose digits are all zero has no digits once trimmed, and keeps
/// its sign and its radix.
pub proof fn lemma_trim_zero(number: Literal)
    requires
        forall|k: int| 0 <= k < number.digits.len() ==> number.digits[k] == 0,
    ensures
        number.trimmed().digits.len() == 0,
        number.trimmed().sign == number.sign,
        number.trimmed().radix == number.radix,
        number.trimmed().exponent == number.exponent,
{
    lemma_significant_len_is(number.digits, 0);
    let kept = number.digits.take(0);
    lemma_low_zeros_is(kept, 0);
}

/// Zeros at the most significant end add nothing to the value.
pub proof fn lemma_high_zeros_value(digits: Seq<u8>, base: int, n: int)
    requires
        0 <= n <= digits.len(),
        forall|k: int| n <= k < digits.len() ==> digits[k] == 0,
    ensures
        digits_value(digits.take(n), base) == digits_value(digits, base),
    decreases n,
{
    if n == 0 {
        lemma_zeros_value(digits, base);
    } else {
        let rest = digits.skip(1);
        assert forall|k: int| n - 1 <= k < rest.len() implies rest[k] == 0 by {
            assert(rest[k] == digits[k + 1]);
        }
        lemma_high_zeros_value(rest, base, n - 1);
        assert(digits.take(n).skip(1) =~= rest.take(n - 1));
    }
}

/// Digits that are all zero denote zero.
pub proof fn lemma_zeros_value(digits: Seq<u8>, base: int)
    requires
        forall|k: int| 0 <= k < digits.len() ==> digits[k] == 0,
    ensures
        digits_value(digits, base) == 0,
    decreases digits.len(),
{
    if digits.len() > 0 {
        let rest = digits.skip(1);
        assert forall|k: int| 0 <= k < rest.len() implies rest[k] == 0 by {
            assert(rest[k] == digits[k + 1]);
        }
        lemma_zeros_value(rest, base);
    }
}

/// Trimming a number without an exponent keeps its value as an integer, and
/// trimming keeps a well-formed number well-formed.
pub proof fn lemma_trim_keeps_value(number: Literal)
    ensures
        number.exponent is None ==> number.trimmed().integer_value() == number.integer_value(),
        number.wf() ==> number.trimmed().wf(),
{
    lemma_significant_len(number.digits);
    lemma_high_zeros_value(number.digits, number.radix.base(), significant_len(number.digits));
    let kept = number.digits.take(significant_len(number.digits));
    lemma_low_zeros(kept);
}

} // verus!
