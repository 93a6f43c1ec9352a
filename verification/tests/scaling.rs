use amm::{
    add_decimals, calc_dy, check_proportion, checked_add_decimals, checked_calc_dy, div_wide,
    liquidity_share, max_decimals, mul_div, mul_wide, products_equal, quote_swap,
    remove_decimals, scale_down, scale_up, withdrawal_payout, AmmError,
};

#[test]
fn test_add_decimals() {
    let decimals = add_decimals(50, 3);
    assert_eq!(decimals, 50_000);
}

#[test]
fn test_remove_decimals() {
    let decimals = remove_decimals(50000, 3);
    assert_eq!(decimals, 50);
}

#[test]
fn check_calculator() {
    let x = 1_000_000; // 3 numbers float
    let y = 40_000; // 1 number float
    let max_decimals = 3;
    let y = add_decimals(y, max_decimals - 1);
    let dy = calc_dy(x, y, 1_000_000);
    let dy = remove_decimals(dy, max_decimals - 1);
    assert_eq!(dy, 20_000);
}

#[test]
fn add_decimals_by_zero_places_is_identity() {
    assert_eq!(add_decimals(12_345, 0), 12_345);
    assert_eq!(add_decimals(0, 200), 0);
}

#[test]
fn checked_add_decimals_reports_overflow() {
    assert_eq!(checked_add_decimals(1, 38), Some(100_000_000_000_000_000_000_000_000_000_000_000_000));
    assert_eq!(checked_add_decimals(1, 39), None);
    assert_eq!(checked_add_decimals(u128::MAX, 1), None);
    assert_eq!(checked_add_decimals(u128::MAX, 0), Some(u128::MAX));
    assert_eq!(checked_add_decimals(0, 255), Some(0));
    assert_eq!(checked_add_decimals(34, 37), Some(340_000_000_000_000_000_000_000_000_000_000_000_000));
    assert_eq!(checked_add_decimals(35, 37), None);
}

#[test]
fn remove_decimals_truncates() {
    assert_eq!(remove_decimals(12_345, 2), 123);
    assert_eq!(remove_decimals(99, 2), 0);
    assert_eq!(remove_decimals(u128::MAX, 38), 3);
    assert_eq!(remove_decimals(u128::MAX, 39), 0);
    assert_eq!(remove_decimals(5, 255), 0);
    assert_eq!(remove_decimals(7, 0), 7);
}

#[test]
fn scaling_up_then_down_gives_the_amount_back() {
    for (value, from, to) in [(0u128, 0u8, 0u8), (1, 0, 18), (987_654_321, 6, 24), (50, 3, 6)] {
        let places = to - from;
        assert_eq!(remove_decimals(add_decimals(value, places), places), value);
    }
}

#[test]
fn calc_dy_of_nothing_sold_is_nothing() {
    assert_eq!(calc_dy(1_000, 5_000, 0), 0);
    assert_eq!(calc_dy(1, 1, 0), 0);
    assert_eq!(calc_dy(7, 0, 0), 0);
}

#[test]
fn calc_dy_exact_values() {
    // 4_000_000 - 4_000_000_000_000 / 2_000_000
    assert_eq!(calc_dy(1_000_000, 4_000_000, 1_000_000), 2_000_000);
    // 100 - 1000 / 13 = 100 - 76
    assert_eq!(calc_dy(10, 100, 3), 24);
    // an empty sold reserve hands over the whole bought reserve
    assert_eq!(calc_dy(0, 500, 9), 500);
}

#[test]
fn calc_dy_stays_below_the_reserve_unless_the_pool_is_tiny() {
    assert_eq!(calc_dy(1_000, 5_000, 4_999_000), 4_999);
    assert!(calc_dy(1_000, 5_000, 1_000_000) < 5_000);
    assert!(calc_dy(2, 3, 4) < 3);
    // x * y < x + dx: the floor is zero and the whole reserve goes out
    assert_eq!(calc_dy(1_000, 5_000, 4_999_001), 5_000);
    assert_eq!(calc_dy(1, 1, 1), 1);
    assert_eq!(calc_dy(2, 3, 5), 3);
}

#[test]
fn calc_dy_grows_with_the_amount_sold() {
    let mut last = 0;
    for dx in [0u128, 1, 2, 10, 999, 1_000, 1_000_000, u64::MAX as u128] {
        let dy = calc_dy(1_000, 5_000, dx);
        assert!(dy >= last);
        last = dy;
    }
}

#[test]
fn checked_calc_dy_names_the_failure() {
    assert_eq!(checked_calc_dy(0, 5, 0), Err(AmmError::DivisionByZero));
    assert_eq!(checked_calc_dy(u128::MAX, 1, 1), Err(AmmError::ArithmeticOverflow));
    // the product passes 128 bits, the result does not
    assert_eq!(checked_calc_dy(u128::MAX, 2, 0), Ok(0));
    assert_eq!(checked_calc_dy(u128::MAX - 1, u128::MAX, 1), Ok(1));
    assert_eq!(checked_calc_dy(u128::MAX, 1, 0), Ok(0));
    assert_eq!(checked_calc_dy(10, 100, 3), Ok(24));
}

#[test]
fn quote_of_assets_with_different_decimals() {
    assert_eq!(quote_swap(1_000_000, 40_000, 1_000_000, 3, 1), Ok(20_000));
}

#[test]
fn quote_scales_the_amount_sold_too() {
    // sold asset with one place, bought asset with three:
    // x = 4_000_000, y = 1_000_000, dx = 4_000_000
    assert_eq!(quote_swap(40_000, 1_000_000, 40_000, 1, 3), Ok(500_000));
}

#[test]
fn quote_names_the_failure() {
    assert_eq!(quote_swap(0, 10, 0, 2, 2), Err(AmmError::DivisionByZero));
    assert_eq!(quote_swap(u128::MAX, 10, 1, 0, 1), Err(AmmError::ArithmeticOverflow));
    assert_eq!(quote_swap(1, u128::MAX, 1, 0, 0), Ok(u128::MAX - u128::MAX / 2));
    assert_eq!(quote_swap(2, u128::MAX, 1, 0, 0), Ok(u128::MAX / 3));
    assert_eq!(quote_swap(u128::MAX, 10, 1, 0, 0), Err(AmmError::ArithmeticOverflow));
}

#[test]
fn max_decimals_picks_the_larger() {
    assert_eq!(max_decimals(3, 1), 3);
    assert_eq!(max_decimals(1, 3), 3);
    assert_eq!(max_decimals(7, 7), 7);
}

#[test]
fn proportion_is_exact() {
    assert_eq!(check_proportion(100, 200, 10, 20), Ok(()));
    assert_eq!(check_proportion(100, 200, 10, 21), Err(AmmError::ProportionMismatch));
    assert_eq!(check_proportion(100, 200, 11, 20), Err(AmmError::ProportionMismatch));
    assert_eq!(check_proportion(0, 0, 5, 900), Ok(()));
    assert_eq!(check_proportion(3, 0, 0, 0), Ok(()));
    assert_eq!(check_proportion(3, 0, 1, 0), Ok(()));
    assert_eq!(check_proportion(3, 0, 0, 1), Err(AmmError::ProportionMismatch));
    // products beyond 128 bits are compared whole
    assert_eq!(check_proportion(u128::MAX, 1, 1, 2), Err(AmmError::ProportionMismatch));
    assert_eq!(check_proportion(u128::MAX, u128::MAX - 1, u128::MAX, u128::MAX - 1), Ok(()));
    assert_eq!(
        check_proportion(u128::MAX, u128::MAX - 1, u128::MAX - 1, u128::MAX),
        Err(AmmError::ProportionMismatch)
    );
    // 2^64 * 2^64 == 2^127 * 2
    assert_eq!(check_proportion(1 << 64, 1 << 127, 2, 1 << 64), Ok(()));
    // 2^64 * 2^64 and 2^127 * 4 are equal in their lower 128 bits only
    assert_eq!(check_proportion(1 << 64, 1 << 127, 4, 1 << 64), Err(AmmError::ProportionMismatch));
}

#[test]
fn share_is_the_sum_on_the_common_scale() {
    assert_eq!(liquidity_share(1_000_000, 40_000, 3, 1), Ok(5_000_000));
    assert_eq!(liquidity_share(40_000, 1_000_000, 1, 3), Ok(5_000_000));
    assert_eq!(liquidity_share(50, 7, 2, 2), Ok(57));
    assert_eq!(liquidity_share(u128::MAX, 1, 0, 0), Err(AmmError::ArithmeticOverflow));
    assert_eq!(liquidity_share(1, 1, 0, 40), Err(AmmError::ArithmeticOverflow));
}

#[test]
fn payout_divides_by_the_share_held() {
    assert_eq!(withdrawal_payout(100, 30, 100), Ok(30));
    assert_eq!(withdrawal_payout(100, 30, 50), Ok(60));
    assert_eq!(withdrawal_payout(100, 30, 7), Ok(428));
    assert_eq!(withdrawal_payout(100, 30, 0), Err(AmmError::DivisionByZero));
    assert_eq!(withdrawal_payout(u128::MAX, 2, 1), Err(AmmError::ArithmeticOverflow));
    assert_eq!(withdrawal_payout(u128::MAX, 2, 2), Ok(u128::MAX));
    assert_eq!(withdrawal_payout(u128::MAX, u128::MAX, u128::MAX), Ok(u128::MAX));
    assert_eq!(withdrawal_payout(u128::MAX, u128::MAX, u128::MAX - 1), Err(AmmError::ArithmeticOverflow));
    assert_eq!(withdrawal_payout(u128::MAX, 2, 0), Err(AmmError::DivisionByZero));
}

#[test]
fn calc_dy_of_reserves_whose_product_passes_128_bits() {
    let unit: u128 = 1_000_000_000_000_000_000_000_000_000_000;
    assert_eq!(calc_dy(unit, unit, unit), unit / 2);
    assert_eq!(calc_dy(unit, 3 * unit, 2 * unit), 2 * unit);
    assert_eq!(calc_dy(u128::MAX, u128::MAX, 0), 0);
    assert_eq!(calc_dy(u128::MAX - 1, u128::MAX, 1), 1);
    // 2^127 * (2^128 - 1) / (2^127 + 2^126) is two thirds of 2^128 - 1
    assert_eq!(calc_dy(1 << 127, u128::MAX, 1 << 126), u128::MAX / 3);
}

#[test]
fn whole_product() {
    assert_eq!(mul_wide(0, u128::MAX), (0, 0));
    assert_eq!(mul_wide(7, 6), (0, 42));
    assert_eq!(mul_wide(1 << 64, 1 << 64), (1, 0));
    assert_eq!(mul_wide(1 << 127, 2), (1, 0));
    assert_eq!(mul_wide(1 << 127, 6), (3, 0));
    assert_eq!(mul_wide(u128::MAX, 2), (1, u128::MAX - 1));
    // (2^128 - 1)^2 = (2^128 - 2) * 2^128 + 1
    assert_eq!(mul_wide(u128::MAX, u128::MAX), (u128::MAX - 1, 1));
    // (2^64 + 3) * (2^64 + 5) = 2^128 + 8 * 2^64 + 15
    assert_eq!(mul_wide((1 << 64) + 3, (1 << 64) + 5), (1, (8 << 64) + 15));
}

#[test]
fn whole_quotient() {
    assert_eq!(div_wide(0, 42, 5), 8);
    assert_eq!(div_wide(0, u128::MAX, u128::MAX), 1);
    // 2^128 / 2
    assert_eq!(div_wide(1, 0, 2), 1 << 127);
    // (2^128 + 1) / 3
    assert_eq!(div_wide(1, 1, 3), u128::MAX / 3);
    // ((2^128 - 2) * 2^128 + 1) / (2^128 - 1) = 2^128 - 1
    assert_eq!(div_wide(u128::MAX - 1, 1, u128::MAX), u128::MAX);
    assert_eq!(div_wide(u128::MAX - 1, 0, u128::MAX), u128::MAX - 1);
    assert_eq!(div_wide((1 << 127) - 1, u128::MAX, 1 << 127), u128::MAX);
}

#[test]
fn product_over_divisor() {
    assert_eq!(mul_div(7, 6, 5), Some(8));
    assert_eq!(mul_div(u128::MAX, u128::MAX, u128::MAX), Some(u128::MAX));
    assert_eq!(mul_div(u128::MAX, 2, 1), None);
    assert_eq!(mul_div(u128::MAX, 2, 2), Some(u128::MAX));
    assert_eq!(mul_div(1 << 127, 2, 1), None);
    assert_eq!(mul_div(1 << 127, 2, 2), Some(1 << 127));
    assert_eq!(mul_div(0, u128::MAX, 1), Some(0));
    let unit: u128 = 1_000_000_000_000_000_000_000_000_000_000;
    assert_eq!(mul_div(unit, 3 * unit, 2 * unit), Some(unit + unit / 2));
}

#[test]
fn products_compared_whole() {
    assert!(products_equal(6, 7, 21, 2));
    assert!(!products_equal(6, 7, 21, 3));
    assert!(!products_equal(u128::MAX, 4, 2, u128::MAX));
    assert!(!products_equal(u128::MAX, 4, 2, u128::MAX - 1));
    // (2^128 - 2) * 2 == 4 * (2^127 - 1)
    assert!(products_equal(u128::MAX - 1, 2, 4, u128::MAX / 2));
    assert!(products_equal(1 << 100, 1 << 100, 1 << 73, 1 << 127));
    // equal lower halves, different upper halves
    assert!(!products_equal(1 << 64, 1 << 64, 1 << 127, 4));
    assert!(products_equal(0, u128::MAX, u128::MAX, 0));
}

#[test]
fn scaling_between_decimal_places() {
    assert_eq!(scale_up(50, 3, 6), Some(50_000));
    assert_eq!(scale_up(50, 6, 6), Some(50));
    assert_eq!(scale_up(40_000, 1, 3), Some(4_000_000));
    assert_eq!(scale_up(u128::MAX, 0, 1), None);
    assert_eq!(scale_up(1, 0, 39), None);
    assert_eq!(scale_down(50_000, 6, 3), 50);
    assert_eq!(scale_down(50_999, 6, 3), 50);
    assert_eq!(scale_down(2_000_000, 3, 1), 20_000);
    assert_eq!(scale_down(7, 255, 0), 0);
    for (value, from, to) in [(0u128, 0u8, 9u8), (1, 2, 2), (123_456_789, 6, 24), (u128::MAX, 7, 7)] {
        assert_eq!(scale_down(scale_up(value, from, to).unwrap(), to, from), value);
    }
}
