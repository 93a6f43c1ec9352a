//! Constant-product pricing: how much of one reserve a trade takes out for
//! what it puts into the other.

use vstd::prelude::*;
use vstd::arithmetic::div_mod::{
    lemma_basic_div, lemma_div_by_multiple, lemma_div_is_ordered,
    lemma_div_is_ordered_by_denominator, lemma_div_pos_is_pos, lemma_fundamental_div_mod,
    lemma_mod_bound,
};
use vstd::arithmetic::mul::{lemma_mul_is_commutative, lemma_mul_nonnegative};
use crate::decimals::{
    common_decimals, lemma_pow10_grows, lemma_scale_round_trip, max_decimals, pow10, scale_down,
    scale_up, scaled_down, scaled_up,
};
use crate::errors::AmmError;
use crate::wide::{div_wide, lemma_quotient_too_wide, mul_wide};

verus! {

/// The amount bought for `dx` sold, at reserves `x` of the asset sold and `y`
/// of the asset bought, all on one decimal scale. The product of the
/// reserves stays where it was: `dy = y - (x * y) / (x + dx)`, the division
/// rounded down.
pub open spec fn dy_of(x: nat, y: nat, dx: nat) -> int {
    y - (x * y) / (x + dx)
}

/// Whether [`calc_dy`] can compute `dy_of(x, y, dx)`: the divisor `x + dx`
/// is positive and fits in 128 bits. The product `x * y` need not.
pub open spec fn dy_computable(x: nat, y: nat, dx: nat) -> bool {
    0 < x + dx <= u128::MAX
}

/// What [`checked_calc_dy`] returns.
pub open spec fn checked_dy_of(x: nat, y: nat, dx: nat) -> Result<nat, AmmError> {
    if x + dx == 0 {
        Err(AmmError::DivisionByZero)
    } else if x + dx > u128::MAX {
        Err(AmmError::ArithmeticOverflow)
    } else {
        Ok(dy_of(x, y, dx) as nat)
    }
}

/// A trade never takes out more than the reserve holds, and nothing for
/// nothing.
pub proof fn lemma_dy_bounds(x: nat, y: nat, dx: nat)
    requires
        x + dx > 0,
    ensures
        0 <= dy_of(x, y, dx) <= y,
        x > 0 ==> dy_of(x, y, 0) == 0,
{
    let d = (x + dx) as int;
    lemma_mul_nonnegative(x as int, y as int);
    lemma_div_pos_is_pos((x * y) as int, d);
    if x > 0 {
        lemma_div_is_ordered_by_denominator((x * y) as int, x as int, d);
        lemma_mul_is_commutative(x as int, y as int);
        lemma_div_by_multiple(y as int, x as int);
    } else {
        assert(x * y == 0) by (nonlinear_arith)
            requires
                x == 0,
        ;
    }
}

/// A trade leaves some of the bought reserve behind exactly when the product
/// of the reserves is at least the sold reserve after the trade. With both
/// reserves positive that covers every trade but the tiny ones, where
/// `x * y < x + dx` and the whole of `y` goes out.
pub proof fn lemma_dy_below_reserve(x: nat, y: nat, dx: nat)
    requires
        x > 0,
        y > 0,
    ensures
        dy_of(x, y, dx) < y <==> x * y >= x + dx,
{
    let d = (x + dx) as int;
    let p = (x * y) as int;
    lemma_mul_nonnegative(x as int, y as int);
    lemma_fundamental_div_mod(p, d);
    lemma_div_pos_is_pos(p, d);
    if p >= d {
        lemma_div_is_ordered(d, p, d);
        assert(d / d == 1) by {
            lemma_div_by_multiple(1, d);
        }
    } else {
        assert(p / d == 0) by {
            lemma_basic_div(p, d);
        }
    }
}

/// A trade keeps the product of the reserves, up to the rounding of the
/// division: the product after it, `(x + dx) * (y - dy)`, is at most `x * y`
/// and falls short of it by less than `x + dx`.
pub proof fn lemma_trade_keeps_product(x: nat, y: nat, dx: nat)
    requires
        x + dx > 0,
    ensures
        (x + dx) * (y - dy_of(x, y, dx)) <= x * y < (x + dx) * (y - dy_of(x, y, dx)) + (x + dx),
{
    let d = (x + dx) as int;
    let p = (x * y) as int;
    lemma_mul_nonnegative(x as int, y as int);
    lemma_fundamental_div_mod(p, d);
    lemma_mod_bound(p, d);
    assert(y - dy_of(x, y, dx) == p / d);
}

/// Selling more never buys less.
pub proof fn lemma_dy_monotonic(x: nat, y: nat, dx1: nat, dx2: nat)
    requires
        x + dx1 > 0,
        dx1 <= dx2,
    ensures
        dy_of(x, y, dx1) <= dy_of(x, y, dx2),
{
    lemma_mul_nonnegative(x as int, y as int);
    lemma_div_is_ordered_by_denominator((x * y) as int, (x + dx1) as int, (x + dx2) as int);
}

/// The amount bought for `dx` sold at reserves `x` and `y`.
///
/// The divisor `x + dx` must be positive and fit in 128 bits;
/// [`checked_calc_dy`] tests both. The product `x * y` is taken whole, in
/// 256 bits.
pub fn calc_dy(x: u128, y: u128, dx: u128) -> (dy: u128)
    requires
        dy_computable(x as nat, y as nat, dx as nat),
    ensures
        dy == dy_of(x as nat, y as nat, dx as nat),
        dy <= y,
        dx == 0 ==> dy == 0,
        x > 0 && y > 0 ==> (dy < y <==> x * y >= x + dx),
{
    let (hi, lo) = mul_wide(x, y);
    proof {
        lemma_dy_bounds(x as nat, y as nat, dx as nat);
        if x > 0 && y > 0 {
            lemma_dy_below_reserve(x as nat, y as nat, dx as nat);
        }
        if hi >= x + dx {
            lemma_quotient_too_wide(hi as nat, lo as nat, (x + dx) as nat);
        }
    }
    y - div_wide(hi, lo, x + dx)
}

/// The amount bought for `dx` sold at reserves `x` and `y`, or the reason
/// why it cannot be computed: `DivisionByZero` where `x + dx` is zero,
/// `ArithmeticOverflow` where `x + dx` does not fit in 128 bits.
pub fn checked_calc_dy(x: u128, y: u128, dx: u128) -> (r: Result<u128, AmmError>)
    ensures
        match r {
            Ok(dy) => checked_dy_of(x as nat, y as nat, dx as nat) == Ok::<nat, AmmError>(
                dy as nat,
            ),
            Err(e) => checked_dy_of(x as nat, y as nat, dx as nat) == Err::<nat, AmmError>(e),
        },
{
    let sum: u128 = match x.checked_add(dx) {
        Some(sum) => sum,
        None => {
            return Err(AmmError::ArithmeticOverflow);
        },
    };
    if sum == 0 {
        return Err(AmmError::DivisionByZero);
    }
    proof {
        lemma_dy_bounds(x as nat, y as nat, dx as nat);
    }
    Ok(calc_dy(x, y, dx))
}

/// What a trade buys, in the bought asset's own units: reserves and the
/// amount sold are brought to the larger of the two assets' decimal places,
/// priced there, and the result is brought back to the bought asset's places.
///
/// `reserve_sold` and `reserve_bought` are the reserves before the trade.
pub open spec fn quote_of(
    reserve_sold: nat,
    reserve_bought: nat,
    amount_sold: nat,
    decimals_sold: nat,
    decimals_bought: nat,
) -> Result<nat, AmmError> {
    let top = common_decimals(decimals_sold, decimals_bought);
    let x = scaled_up(reserve_sold, (top - decimals_sold) as nat);
    let y = scaled_up(reserve_bought, (top - decimals_bought) as nat);
    let dx = scaled_up(amount_sold, (top - decimals_sold) as nat);
    if x > u128::MAX || y > u128::MAX || dx > u128::MAX {
        Err(AmmError::ArithmeticOverflow)
    } else {
        match checked_dy_of(x, y, dx) {
            Err(e) => Err(e),
            Ok(dy) => Ok(scaled_down(dy, (top - decimals_bought) as nat)),
        }
    }
}

/// The amount of the bought asset that a trade of `amount_sold` gets at the
/// given reserves, the two assets counting in `decimals_sold` and
/// `decimals_bought` places.
///
/// `ArithmeticOverflow` where a scaled amount or the sold reserve after the
/// trade passes 128 bits; `DivisionByZero` where the sold reserve and the
/// amount sold are both zero.
pub fn quote_swap(
    reserve_sold: u128,
    reserve_bought: u128,
    amount_sold: u128,
    decimals_sold: u8,
    decimals_bought: u8,
) -> (r: Result<u128, AmmError>)
    ensures
        match r {
            Ok(bought) => quote_of(
                reserve_sold as nat,
                reserve_bought as nat,
                amount_sold as nat,
                decimals_sold as nat,
                decimals_bought as nat,
            ) == Ok::<nat, AmmError>(bought as nat),
            Err(e) => quote_of(
                reserve_sold as nat,
                reserve_bought as nat,
                amount_sold as nat,
                decimals_sold as nat,
                decimals_bought as nat,
            ) == Err::<nat, AmmError>(e),
        },
{
    let top: u8 = max_decimals(decimals_sold, decimals_bought);
    let x: u128 = match scale_up(reserve_sold, decimals_sold, top) {
        Some(x) => x,
        None => {
            return Err(AmmError::ArithmeticOverflow);
        },
    };
    let y: u128 = match scale_up(reserve_bought, decimals_bought, top) {
        Some(y) => y,
        None => {
            return Err(AmmError::ArithmeticOverflow);
        },
    };
    let dx: u128 = match scale_up(amount_sold, decimals_sold, top) {
        Some(dx) => dx,
        None => {
            return Err(AmmError::ArithmeticOverflow);
        },
    };
    match checked_calc_dy(x, y, dx) {
        Ok(dy) => Ok(scale_down(dy, top, decimals_bought)),
        Err(e) => Err(e),
    }
}

/// A trade is never quoted more than the bought reserve holds.
pub proof fn lemma_quote_within_reserve(
    reserve_sold: nat,
    reserve_bought: nat,
    amount_sold: nat,
    decimals_sold: nat,
    decimals_bought: nat,
)
    ensures
        quote_of(reserve_sold, reserve_bought, amount_sold, decimals_sold, decimals_bought)
            matches Ok(bought) ==> bought <= reserve_bought,
{
    let top = common_decimals(decimals_sold, decimals_bought);
    let places = (top - decimals_bought) as nat;
    let x = scaled_up(reserve_sold, (top - decimals_sold) as nat);
    let y = scaled_up(reserve_bought, places);
    let dx = scaled_up(amount_sold, (top - decimals_sold) as nat);
    if quote_of(reserve_sold, reserve_bought, amount_sold, decimals_sold, decimals_bought) is Ok {
        lemma_dy_bounds(x, y, dx);
        let dy = dy_of(x, y, dx);
        lemma_pow10_grows(0, places);
        lemma_div_is_ordered(dy, y as int, pow10(places) as int);
        lemma_scale_round_trip(reserve_bought, 0, places);
    }
}

} // verus!
