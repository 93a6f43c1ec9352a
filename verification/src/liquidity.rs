//! Liquidity accounting: when a deposit is accepted, what share it mints,
//! and what a withdrawal pays out.

use vstd::prelude::*;
use crate::decimals::{common_decimals, max_decimals, scale_up, scaled_up};
use crate::errors::AmmError;
use crate::wide::{mul_div, products_equal};

verus! {

/// A deposit is in proportion to the reserves when
/// `reserve_a * amount_b == reserve_b * amount_a`, in the assets' own units.
pub open spec fn proportional(reserve_a: nat, reserve_b: nat, amount_a: nat, amount_b: nat) -> bool {
    reserve_a * amount_b == reserve_b * amount_a
}

/// What [`check_proportion`] returns.
pub open spec fn proportion_checked(
    reserve_a: nat,
    reserve_b: nat,
    amount_a: nat,
    amount_b: nat,
) -> Result<(), AmmError> {
    if proportional(reserve_a, reserve_b, amount_a, amount_b) {
        Ok(())
    } else {
        Err(AmmError::ProportionMismatch)
    }
}

/// The share that a deposit mints: the two amounts, each brought to the
/// common scale, added up.
pub open spec fn share_of(amount_a: nat, amount_b: nat, decimals_a: nat, decimals_b: nat) -> nat {
    let top = common_decimals(decimals_a, decimals_b);
    scaled_up(amount_a, (top - decimals_a) as nat) + scaled_up(amount_b, (top - decimals_b) as nat)
}

/// What [`liquidity_share`] returns.
pub open spec fn share_checked(
    amount_a: nat,
    amount_b: nat,
    decimals_a: nat,
    decimals_b: nat,
) -> Result<nat, AmmError> {
    if share_of(amount_a, amount_b, decimals_a, decimals_b) > u128::MAX {
        Err(AmmError::ArithmeticOverflow)
    } else {
        Ok(share_of(amount_a, amount_b, decimals_a, decimals_b))
    }
}

/// What a holder of `held` shares is paid of one reserve on withdrawal:
/// `supply * reserve / held`, rounded down.
pub open spec fn payout_of(supply: nat, reserve: nat, held: nat) -> nat {
    (supply * reserve) / held
}

/// What [`withdrawal_payout`] returns.
pub open spec fn payout_checked(supply: nat, reserve: nat, held: nat) -> Result<nat, AmmError> {
    if held == 0 {
        Err(AmmError::DivisionByZero)
    } else if payout_of(supply, reserve, held) > u128::MAX {
        Err(AmmError::ArithmeticOverflow)
    } else {
        Ok(payout_of(supply, reserve, held))
    }
}

/// Accepts a deposit of `amount_a` and `amount_b` at reserves `reserve_a`
/// and `reserve_b` where it is exactly in proportion, and refuses it with
/// `ProportionMismatch` where it is not. The two products are compared
/// whole, so no pair of amounts is too large to be judged.
pub fn check_proportion(reserve_a: u128, reserve_b: u128, amount_a: u128, amount_b: u128) -> (r:
    Result<(), AmmError>)
    ensures
        r == proportion_checked(
            reserve_a as nat,
            reserve_b as nat,
            amount_a as nat,
            amount_b as nat,
        ),
{
    if products_equal(reserve_a, amount_b, reserve_b, amount_a) {
        Ok(())
    } else {
        Err(AmmError::ProportionMismatch)
    }
}

/// The share minted for a deposit of `amount_a` and `amount_b` of assets
/// with `decimals_a` and `decimals_b` places, or `ArithmeticOverflow` where
/// it does not fit in 128 bits.
pub fn liquidity_share(amount_a: u128, amount_b: u128, decimals_a: u8, decimals_b: u8) -> (r:
    Result<u128, AmmError>)
    ensures
        match r {
            Ok(share) => share_checked(
                amount_a as nat,
                amount_b as nat,
                decimals_a as nat,
                decimals_b as nat,
            ) == Ok::<nat, AmmError>(share as nat),
            Err(e) => share_checked(
                amount_a as nat,
                amount_b as nat,
                decimals_a as nat,
                decimals_b as nat,
            ) == Err::<nat, AmmError>(e),
        },
{
    let top: u8 = max_decimals(decimals_a, decimals_b);
    let scaled_a: u128 = match scale_up(amount_a, decimals_a, top) {
        Some(scaled) => scaled,
        None => {
            return Err(AmmError::ArithmeticOverflow);
        },
    };
    let scaled_b: u128 = match scale_up(amount_b, decimals_b, top) {
        Some(scaled) => scaled,
        None => {
            return Err(AmmError::ArithmeticOverflow);
        },
    };
    match scaled_a.checked_add(scaled_b) {
        Some(share) => Ok(share),
        None => Err(AmmError::ArithmeticOverflow),
    }
}

/// What a holder of `held` shares is paid of a reserve of `reserve` at a
/// total supply of `supply`: `DivisionByZero` where it holds none,
/// `ArithmeticOverflow` where the payout does not fit in 128 bits. The
/// product `supply * reserve` is taken whole.
pub fn withdrawal_payout(supply: u128, reserve: u128, held: u128) -> (r: Result<u128, AmmError>)
    ensures
        match r {
            Ok(paid) => payout_checked(supply as nat, reserve as nat, held as nat) == Ok::<
                nat,
                AmmError,
            >(paid as nat),
            Err(e) => payout_checked(supply as nat, reserve as nat, held as nat) == Err::<
                nat,
                AmmError,
            >(e),
        },
{
    if held == 0 {
        return Err(AmmError::DivisionByZero);
    }
    match mul_div(supply, reserve, held) {
        Some(paid) => Ok(paid),
        None => Err(AmmError::ArithmeticOverflow),
    }
}

} // verus!
