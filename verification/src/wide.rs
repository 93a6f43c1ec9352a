//! Products of two 128-bit numbers, kept whole in 256 bits, and their division
//! by a 128-bit number.
//!
//! Reserves of assets with many decimal places are large, and the product of
//! two of them passes 128 bits long before either does. The arithmetic here
//! never drops a bit of it.

use vstd::prelude::*;
use vstd::arithmetic::div_mod::{
    lemma_div_by_multiple, lemma_div_is_ordered, lemma_fundamental_div_mod_converse,
};
use vstd::arithmetic::mul::{lemma_mul_inequality, lemma_mul_is_commutative};
use vstd::arithmetic::power2::{
    lemma2_to64, lemma_pow2_adds, lemma_pow2_strictly_increases, lemma_pow2_unfold, pow2,
};

verus! {

/// Two to the power 64.
pub open spec fn two_64() -> nat {
    0x1_0000_0000_0000_0000
}

/// Two to the power 128.
pub open spec fn two_128() -> nat {
    0x1_0000_0000_0000_0000_0000_0000_0000_0000nat
}

/// The number of which `hi` is the upper and `lo` the lower 128 bits.
pub open spec fn wide(hi: nat, lo: nat) -> nat {
    hi * two_128() + lo
}

/// `pow2(128)` is the constant it should be, and `pow2(127)` half of it.
proof fn lemma_pow2_128()
    ensures
        pow2(0) == 1,
        pow2(127) == 0x8000_0000_0000_0000_0000_0000_0000_0000,
        pow2(128) == two_128(),
{
    lemma2_to64();
    lemma_pow2_adds(64, 64);
    assert(pow2(64) * pow2(64) == two_128()) by (nonlinear_arith)
        requires
            pow2(64) == 0x1_0000_0000_0000_0000,
    ;
    lemma_pow2_unfold(128);
}

/// The product of four halves, put together: with `a = a1 * 2^64 + a0` and
/// `b = b1 * 2^64 + b0`, `a * b` is
/// `a1 * b1 * 2^128 + (a0 * b1 + a1 * b0) * 2^64 + a0 * b0`.
proof fn lemma_product_of_halves(a0: nat, a1: nat, b0: nat, b1: nat)
    ensures
        (a1 * two_64() + a0) * (b1 * two_64() + b0) == (a1 * b1) * two_128() + (a0 * b1 + a1 * b0)
            * two_64() + a0 * b0,
{
    let base = two_64() as int;
    let x = a1 * base;
    let y = b1 * base;
    assert((x + a0) * (y + b0) == x * y + x * b0 + a0 * y + a0 * b0) by (nonlinear_arith);
    assert(x * y == (a1 * b1) * (base * base)) by (nonlinear_arith)
        requires
            x == a1 * base,
            y == b1 * base,
    ;
    assert(x * b0 == (a1 * b0) * base) by (nonlinear_arith)
        requires
            x == a1 * base,
    ;
    assert(a0 * y == (a0 * b1) * base) by (nonlinear_arith)
        requires
            y == b1 * base,
    ;
    assert((a0 * b1 + a1 * b0) * base == (a0 * b1) * base + (a1 * b0) * base)
        by (nonlinear_arith);
    assert(base * base == two_128()) by (nonlinear_arith)
        requires
            base == 0x1_0000_0000_0000_0000,
    ;
}

/// The product of two halves fits in 128 bits, with room to spare.
proof fn lemma_half_product_fits(x: nat, y: nat)
    requires
        x < two_64(),
        y < two_64(),
    ensures
        x * y <= 0xffff_ffff_ffff_fffe_0000_0000_0000_0001,
{
    assert(x * y <= 0xffff_ffff_ffff_ffffnat * 0xffff_ffff_ffff_ffffnat) by (nonlinear_arith)
        requires
            x <= 0xffff_ffff_ffff_ffff,
            y <= 0xffff_ffff_ffff_ffff,
    ;
}

/// The whole product `a * b`, as its upper and lower 128 bits.
pub fn mul_wide(a: u128, b: u128) -> (product: (u128, u128))
    ensures
        wide(product.0 as nat, product.1 as nat) == a * b,
{
    let base: u128 = 0x1_0000_0000_0000_0000;
    let a0: u128 = a % base;
    let a1: u128 = a / base;
    let b0: u128 = b % base;
    let b1: u128 = b / base;
    proof {
        lemma_half_product_fits(a0 as nat, b0 as nat);
        lemma_half_product_fits(a0 as nat, b1 as nat);
        lemma_half_product_fits(a1 as nat, b0 as nat);
        lemma_half_product_fits(a1 as nat, b1 as nat);
    }
    let low: u128 = a0 * b0;
    let cross_low: u128 = a0 * b1;
    let cross_high: u128 = a1 * b0;
    let high: u128 = a1 * b1;
    // the middle 128 bits, carried over in two steps so that no sum overflows
    let mid: u128 = cross_low + low / base;
    let mid_carried: u128 = cross_high + mid % base;
    let lo: u128 = (mid_carried % base) * base + low % base;
    let hi: u128 = high + mid / base + mid_carried / base;
    proof {
        lemma_product_of_halves(a0 as nat, a1 as nat, b0 as nat, b1 as nat);
        assert(a == a1 * two_64() + a0);
        assert(b == b1 * two_64() + b0);
        assert((cross_low + cross_high) * two_64() == cross_low * two_64() + cross_high * two_64())
            by (nonlinear_arith);
        assert(hi * two_128() == high * two_128() + (mid / base) * two_128() + (mid_carried / base)
            * two_128()) by (nonlinear_arith)
            requires
                hi == high + mid / base + mid_carried / base,
        ;
    }
    (hi, lo)
}

/// One step of the long division keeps the account: with the number so far
/// `n * scale = (q * d + rem) * 2^128 + rest`, taking the next bit down gives
/// the same with `scale` doubled.
proof fn lemma_division_step(
    n: int,
    scale: int,
    d: int,
    q: int,
    rem: int,
    rest: int,
    bit: int,
    q_next: int,
    rem_next: int,
)
    requires
        n * scale == (q * d + rem) * two_128() + rest,
        q_next * d + rem_next == 2 * (q * d + rem) + bit,
    ensures
        n * (2 * scale) == (q_next * d + rem_next) * two_128() + (2 * rest - bit * two_128()),
{
    let t = two_128() as int;
    let x = q * d + rem;
    assert(n * (2 * scale) == 2 * (n * scale)) by (nonlinear_arith);
    assert((2 * x + bit) * t == 2 * (x * t) + bit * t) by (nonlinear_arith);
}

/// Where a multiple of `2^128` and something less than `2^128` add up to
/// another multiple of `2^128`, the something is nothing.
proof fn lemma_division_done(n: int, x: int, rest: int)
    requires
        n * two_128() == x * two_128() + rest,
        0 <= rest < two_128(),
    ensures
        n == x,
        rest == 0,
{
    let t = two_128() as int;
    assert((n - x) * t == rest) by (nonlinear_arith)
        requires
            n * t == x * t + rest,
    ;
    if n - x >= 1 {
        lemma_mul_inequality(1, n - x, t);
    } else if n - x <= -1 {
        lemma_mul_inequality(n - x, -1, t);
    }
}

/// The quotient of the 256-bit number `hi * 2^128 + lo` by `d`, rounded
/// down. The upper half has to be less than `d`: those are the numbers whose
/// quotient fits in 128 bits.
pub fn div_wide(hi: u128, lo: u128, d: u128) -> (quotient: u128)
    requires
        hi < d,
    ensures
        quotient == wide(hi as nat, lo as nat) / (d as nat),
{
    let half: u128 = 0x8000_0000_0000_0000_0000_0000_0000_0000;
    let ghost n: int = wide(hi as nat, lo as nat) as int;
    let mut q: u128 = 0;
    let mut rem: u128 = hi;
    let mut rest: u128 = lo;
    let mut k: u32 = 0;
    proof {
        lemma_pow2_128();
        assert(0 * d == 0) by (nonlinear_arith);
        assert(n * 1 == n) by (nonlinear_arith);
    }
    while k < 128
        invariant
            k <= 128,
            0 < d,
            rem < d,
            q < pow2(k as nat),
            half == 0x8000_0000_0000_0000_0000_0000_0000_0000,
            n == wide(hi as nat, lo as nat),
            n * pow2(k as nat) == (q * d + rem) * two_128() + rest,
        decreases 128 - k,
    {
        let ghost q_before: int = q as int;
        let ghost rem_before: int = rem as int;
        let ghost rest_before: int = rest as int;
        proof {
            lemma_pow2_128();
            lemma_pow2_unfold((k + 1) as nat);
            if k < 127 {
                lemma_pow2_strictly_increases(k as nat, 127);
            }
        }
        // the next bit of the number, from the top of what is left of it
        let bit: u128 = if rest >= half {
            rest = (rest - half) * 2;
            1
        } else {
            rest = rest * 2;
            0
        };
        // twice the remainder and the bit, less `d` where that can be taken
        let gap: u128 = d - rem - bit;
        if rem >= gap {
            rem = rem - gap;
            q = q * 2 + 1;
            proof {
                assert((2 * q_before + 1) * d == 2 * (q_before * d) + d) by (nonlinear_arith);
            }
        } else {
            rem = rem + rem + bit;
            q = q * 2;
            proof {
                assert((2 * q_before) * d == 2 * (q_before * d)) by (nonlinear_arith);
            }
        }
        proof {
            lemma_division_step(
                n,
                pow2(k as nat) as int,
                d as int,
                q_before,
                rem_before,
                rest_before,
                bit as int,
                q as int,
                rem as int,
            );
        }
        k = k + 1;
    }
    proof {
        lemma_pow2_128();
        lemma_division_done(n, q * d + rem, rest as int);
        lemma_fundamental_div_mod_converse(n, d as int, q as int, rem as int);
    }
    q
}

/// Where the upper half of a 256-bit number is at least `d`, its quotient by
/// `d` does not fit in 128 bits.
pub proof fn lemma_quotient_too_wide(hi: nat, lo: nat, d: nat)
    requires
        0 < d <= hi,
    ensures
        wide(hi, lo) / d >= two_128(),
{
    let t = two_128() as int;
    lemma_mul_inequality(d as int, hi as int, t);
    lemma_mul_is_commutative(d as int, t);
    lemma_div_by_multiple(t, d as int);
    lemma_div_is_ordered(t * d, wide(hi, lo) as int, d as int);
}

/// `a * b / d`, rounded down, the product taken whole; `None` where the
/// quotient does not fit in 128 bits.
pub fn mul_div(a: u128, b: u128, d: u128) -> (quotient: Option<u128>)
    requires
        d > 0,
    ensures
        match quotient {
            Some(q) => q == (a * b) / (d as int),
            None => (a * b) / (d as int) > u128::MAX,
        },
{
    let (hi, lo) = mul_wide(a, b);
    if hi >= d {
        proof {
            lemma_quotient_too_wide(hi as nat, lo as nat, d as nat);
        }
        None
    } else {
        Some(div_wide(hi, lo, d))
    }
}

/// Whether `a * b` and `c * d` are the same number, both products taken
/// whole.
pub fn products_equal(a: u128, b: u128, c: u128, d: u128) -> (equal: bool)
    ensures
        equal == (a * b == c * d),
{
    let (left_hi, left_lo) = mul_wide(a, b);
    let (right_hi, right_lo) = mul_wide(c, d);
    left_hi == right_hi && left_lo == right_lo
}

} // verus!
