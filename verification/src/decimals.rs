//! Decimal normalisation: moving raw integer amounts between assets that
//! count in different numbers of decimal places.

use vstd::prelude::*;
use vstd::arithmetic::div_mod::{lemma_div_by_multiple, lemma_div_denominator};
use vstd::arithmetic::mul::{lemma_mul_inequality, lemma_mul_is_associative, lemma_mul_is_commutative};

verus! {

/// Ten to the power `n`.
pub open spec fn pow10(n: nat) -> nat
    decreases n,
{
    if n == 0 {
        1
    } else {
        10 * pow10((n - 1) as nat)
    }
}

/// An amount scaled up by `decimals` places: `value * 10^decimals`.
pub open spec fn scaled_up(value: nat, decimals: nat) -> nat {
    value * pow10(decimals)
}

/// An amount scaled down by `decimals` places, the fraction cut off:
/// `value / 10^decimals`.
pub open spec fn scaled_down(value: nat, decimals: nat) -> nat {
    value / pow10(decimals)
}

/// The larger of two numbers of decimal places: the scale on which two
/// assets are compared.
pub open spec fn common_decimals(a: nat, b: nat) -> nat {
    if a >= b {
        a
    } else {
        b
    }
}

/// Powers of ten are positive and grow with the exponent.
pub proof fn lemma_pow10_grows(m: nat, n: nat)
    requires
        m <= n,
    ensures
        1 <= pow10(m) <= pow10(n),
    decreases n,
{
    if n == 0 {
    } else if m == n {
        lemma_pow10_grows(0, (n - 1) as nat);
    } else {
        lemma_pow10_grows(m, (n - 1) as nat);
    }
}

/// One place more is a factor of ten.
pub proof fn lemma_scaled_up_step(value: nat, decimals: nat)
    ensures
        scaled_up(value, decimals + 1) == scaled_up(value, decimals) * 10,
{
    lemma_mul_is_associative(value as int, 10, pow10(decimals) as int);
    lemma_mul_is_commutative(value as int, 10);
    lemma_mul_is_associative(10, value as int, pow10(decimals) as int);
    lemma_mul_is_commutative(10, scaled_up(value, decimals) as int);
}

/// Scaling up is monotone in the number of places.
pub proof fn lemma_scaled_up_grows(value: nat, m: nat, n: nat)
    requires
        m <= n,
    ensures
        scaled_up(value, m) <= scaled_up(value, n),
{
    lemma_pow10_grows(m, n);
    lemma_mul_inequality(pow10(m) as int, pow10(n) as int, value as int);
    lemma_mul_is_commutative(value as int, pow10(m) as int);
    lemma_mul_is_commutative(value as int, pow10(n) as int);
}

/// Scaling an amount up from `from_decimals` to a finer `to_decimals` and
/// back down again gives the amount back: nothing is lost on the way up.
pub proof fn lemma_scale_round_trip(value: nat, from_decimals: nat, to_decimals: nat)
    requires
        from_decimals <= to_decimals,
    ensures
        scaled_down(
            scaled_up(value, (to_decimals - from_decimals) as nat),
            (to_decimals - from_decimals) as nat,
        ) == value,
{
    let places = (to_decimals - from_decimals) as nat;
    lemma_pow10_grows(0, places);
    lemma_div_by_multiple(value as int, pow10(places) as int);
}

/// `value * 10^decimals`, where that fits in 128 bits; `None` where it does
/// not.
pub fn checked_add_decimals(value: u128, decimals: u8) -> (scaled: Option<u128>)
    ensures
        scaled_up(value as nat, decimals as nat) <= u128::MAX ==> scaled == Some(
            scaled_up(value as nat, decimals as nat) as u128,
        ),
        scaled_up(value as nat, decimals as nat) > u128::MAX ==> scaled.is_none(),
{
    let mut acc: u128 = value;
    let mut done: u8 = 0;
    assert(scaled_up(value as nat, 0) == value) by {
        assert(pow10(0) == 1);
        assert(value * 1 == value);
    }
    while done < decimals
        invariant
            done <= decimals,
            acc == scaled_up(value as nat, done as nat),
        decreases decimals - done,
    {
        proof {
            lemma_scaled_up_step(value as nat, done as nat);
            lemma_scaled_up_grows(value as nat, (done + 1) as nat, decimals as nat);
        }
        match acc.checked_mul(10) {
            Some(next) => {
                acc = next;
            },
            None => {
                return None;
            },
        }
        done = done + 1;
    }
    Some(acc)
}

/// Scales `value` up by `decimals` places.
///
/// The product has to fit in 128 bits; [`checked_add_decimals`] is the
/// variant for callers that cannot know that beforehand.
pub fn add_decimals(value: u128, decimals: u8) -> (scaled: u128)
    requires
        scaled_up(value as nat, decimals as nat) <= u128::MAX,
    ensures
        scaled == scaled_up(value as nat, decimals as nat),
{
    let mut acc: u128 = value;
    let mut done: u8 = 0;
    assert(scaled_up(value as nat, 0) == value) by {
        assert(pow10(0) == 1);
        assert(value * 1 == value);
    }
    while done < decimals
        invariant
            done <= decimals,
            acc == scaled_up(value as nat, done as nat),
            scaled_up(value as nat, decimals as nat) <= u128::MAX,
        decreases decimals - done,
    {
        proof {
            lemma_scaled_up_step(value as nat, done as nat);
            lemma_scaled_up_grows(value as nat, (done + 1) as nat, decimals as nat);
        }
        acc = acc * 10;
        done = done + 1;
    }
    acc
}

/// Scales `value` down by `decimals` places. What is left of the division is
/// dropped, never rounded up.
pub fn remove_decimals(value: u128, decimals: u8) -> (scaled: u128)
    ensures
        scaled == scaled_down(value as nat, decimals as nat),
{
    let mut acc: u128 = value;
    let mut done: u8 = 0;
    assert(scaled_down(value as nat, 0) == value) by {
        assert(pow10(0) == 1);
        assert(value / 1 == value);
    }
    while done < decimals
        invariant
            done <= decimals,
            acc == scaled_down(value as nat, done as nat),
        decreases decimals - done,
    {
        proof {
            lemma_pow10_grows(0, done as nat);
            lemma_div_denominator(value as int, pow10(done as nat) as int, 10);
            lemma_mul_is_commutative(pow10(done as nat) as int, 10);
        }
        acc = acc / 10;
        done = done + 1;
    }
    acc
}

/// Brings `amount` from `from_decimals` places to the finer `to_decimals`
/// places: `amount * 10^(to_decimals - from_decimals)`, or `None` where that
/// does not fit in 128 bits.
pub fn scale_up(amount: u128, from_decimals: u8, to_decimals: u8) -> (scaled: Option<u128>)
    requires
        from_decimals <= to_decimals,
    ensures
        scaled_up(amount as nat, (to_decimals - from_decimals) as nat) <= u128::MAX ==> scaled
            == Some(scaled_up(amount as nat, (to_decimals - from_decimals) as nat) as u128),
        scaled_up(amount as nat, (to_decimals - from_decimals) as nat) > u128::MAX
            ==> scaled.is_none(),
{
    checked_add_decimals(amount, to_decimals - from_decimals)
}

/// Brings `amount` from `from_decimals` places to the coarser `to_decimals`
/// places: `amount / 10^(from_decimals - to_decimals)`. What the coarser
/// scale cannot show is dropped.
pub fn scale_down(amount: u128, from_decimals: u8, to_decimals: u8) -> (scaled: u128)
    requires
        to_decimals <= from_decimals,
    ensures
        scaled == scaled_down(amount as nat, (from_decimals - to_decimals) as nat),
{
    remove_decimals(amount, from_decimals - to_decimals)
}

/// The larger of two numbers of decimal places.
pub fn max_decimals(a: u8, b: u8) -> (top: u8)
    ensures
        top == common_decimals(a as nat, b as nat),
{
    if a >= b {
        a
    } else {
        b
    }
}

} // verus!
