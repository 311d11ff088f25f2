//! The arithmetic of the five operators, and the folding of two constants into one.

use crate::node::Operator;
use vstd::arithmetic::power::{lemma0_pow, lemma1_pow, lemma_pow0, pow};
use vstd::prelude::*;

verus! {

/// `value`, if an `i64` can hold it.
pub open spec fn representable(value: int) -> Option<int> {
    if i64::MIN <= value <= i64::MAX {
        Some(value)
    } else {
        None
    }
}

/// The result of an operator on two integers. A division has none where it is by zero or
/// leaves a remainder, a power has none where the exponent is negative.
pub open spec fn apply(op: Operator, a: int, b: int) -> Option<int> {
    match op {
        Operator::Plus => Some(a + b),
        Operator::Minus => Some(a - b),
        Operator::Multiply => Some(a * b),
        Operator::Divide => if b != 0 && a % b == 0 {
            Some(a / b)
        } else {
            None
        },
        Operator::Power => if b >= 0 {
            Some(pow(a, b as nat))
        } else {
            None
        },
    }
}

/// The constant that an operator applied to two constants folds to: the result of the
/// operator, where it has one and an `i64` can hold it.
pub open spec fn fold(op: Operator, a: int, b: int) -> Option<int> {
    match apply(op, a, b) {
        Some(result) => representable(result),
        None => None,
    }
}

/// What a folding result says, with the constant taken as an integer.
pub open spec fn folded_to(folded: Option<i64>) -> Option<int> {
    match folded {
        Some(value) => Some(value as int),
        None => None,
    }
}

/// The powers of minus one alternate between one and minus one.
pub proof fn lemma_pow_minus_one(e: nat)
    ensures
        pow(-1, e) == if e % 2 == 0 {
            1int
        } else {
            -1int
        },
    decreases e,
{
    reveal(pow);
    if e > 0 {
        lemma_pow_minus_one((e - 1) as nat);
    }
}

/// Once a power of a base of magnitude two or more is beyond the range of an `i64`,
/// every higher power is too.
pub proof fn lemma_pow_stays_unrepresentable(base: int, low: nat, high: nat)
    requires
        base >= 2 || base <= -2,
        low <= high,
        representable(pow(base, low)) is None,
    ensures
        representable(pow(base, high)) is None,
    decreases high - low,
{
    if low < high {
        lemma_pow_stays_unrepresentable(base, low, (high - 1) as nat);
        let below = pow(base, (high - 1) as nat);
        assert(pow(base, high) == base * below) by {
            reveal(pow);
        }
        assert(base * below > i64::MAX || base * below < i64::MIN) by (nonlinear_arith)
            requires
                base >= 2 || base <= -2,
                below > i64::MAX || below < i64::MIN,
        ;
    }
}

/// `base` to the power of `exponent`, if the exponent is not negative and an `i64` can
/// hold the result.
pub fn fold_power(base: i64, exponent: i64) -> (folded: Option<i64>)
    ensures
        folded_to(folded) == fold(Operator::Power, base as int, exponent as int),
{
    if exponent < 0 {
        return None;
    }
    proof {
        lemma_pow0(base as int);
    }
    if exponent == 0 {
        return Some(1);
    }
    if base == 0 {
        proof {
            lemma0_pow(exponent as nat);
        }
        return Some(0);
    }
    if base == 1 {
        proof {
            lemma1_pow(exponent as nat);
        }
        return Some(1);
    }
    if base == -1 {
        proof {
            lemma_pow_minus_one(exponent as nat);
        }
        return Some(if exponent % 2 == 0 { 1 } else { -1 });
    }
    let mut value: i64 = 1;
    let mut done: i64 = 0;
    while done < exponent
        invariant
            0 <= done <= exponent,
            base >= 2 || base <= -2,
            value == pow(base as int, done as nat),
        decreases exponent - done,
    {
        proof {
            reveal(pow);
            assert(value * base == base * value) by (nonlinear_arith);
        }
        match value.checked_mul(base) {
            Some(product) => {
                value = product;
                done += 1;
            },
            None => {
                proof {
                    lemma_pow_stays_unrepresentable(
                        base as int,
                        (done + 1) as nat,
                        exponent as nat,
                    );
                }
                return None;
            },
        }
    }
    Some(value)
}

/// The constant that `op` applied to `a` and `b` folds to, if there is one. See [`fold`].
pub fn fold_constants(op: Operator, a: i64, b: i64) -> (folded: Option<i64>)
    ensures
        folded_to(folded) == fold(op, a as int, b as int),
{
    match op {
        Operator::Plus => a.checked_add(b),
        Operator::Minus => a.checked_sub(b),
        Operator::Multiply => a.checked_mul(b),
        Operator::Divide => {
            match a.checked_rem_euclid(b) {
                Some(remainder) => if remainder == 0 {
                    a.checked_div_euclid(b)
                } else {
                    None
                },
                None => {
                    // Either a division by zero, or `i64::MIN / -1`, which is exact and
                    // one more than an `i64` can hold.
                    None
                },
            }
        },
        Operator::Power => fold_power(a, b),
    }
}

} // verus!
