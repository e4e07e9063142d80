//! The operations on samples: conversion from an integer, division by a
//! positive integer, and addition. Each gives the exact result rounded to
//! binary32, which is what the same operation on single-precision numbers
//! gives.

use vstd::prelude::*;
use vstd::arithmetic::power2::{
    pow2, lemma_pow2_pos, lemma_pow2_unfold, lemma_pow2_adds, lemma_pow2_strictly_increases,
    lemma2_to64,
};
use vstd::arithmetic::div_mod::lemma_div_is_ordered;
use crate::ieee::{
    SIGN_BIT, INFINITY_BITS, NAN_BITS, ZERO_BITS, magnitude, is_negative, is_nan, is_infinite,
    is_finite, units, signed_units, saturate, with_sign, split, power_of_two, lemma_units_parts,
    lemma_units_monotone,
};
use crate::ieee::rounding::{
    round_half_even, round_magnitude, lemma_round_at, lemma_round_exact, lemma_round_form,
    distance, lemma_round_is_nearest, lemma_pattern_of_product, round_scaled,
};

verus! {

/// The pattern of the binary32 value nearest to the integer `v`: what a
/// conversion of `v` to single precision gives.
pub open spec fn from_int_spec(v: int) -> u32 {
    with_sign(v < 0, saturate(round_magnitude((if v < 0 { -v } else { v }) * pow2(149), 1)))
}

/// Converts an integer to the nearest binary32 value.
pub fn from_int(v: i32) -> (bits: u32)
    ensures
        bits == from_int_spec(v as int),
{
    let a: u64 = if v < 0 {
        (-(v as i64)) as u64
    } else {
        v as u64
    };
    let m = round_scaled(a, 1, 149);
    if v < 0 {
        m + SIGN_BIT
    } else {
        m
    }
}

/// An integer of at most 24 bits is converted without error.
pub proof fn lemma_small_integers_are_exact(v: int)
    requires
        -0x100_0000 < v < 0x100_0000,
    ensures
        is_finite(from_int_spec(v)),
        is_negative(from_int_spec(v)) == (v < 0),
        units(magnitude(from_int_spec(v))) == (if v < 0 {
            -v
        } else {
            v
        }) * pow2(149),
{
    let a = if v < 0 {
        -v
    } else {
        v
    };
    let exact = a * pow2(149);
    let rounded = round_magnitude(exact, 1);
    lemma_pow2_pos(149);
    if a == 0 {
        lemma2_to64();
        assert(0 * pow2(149) == 0);
        assert(rounded == 0);
        assert(units(0) == 0) by (nonlinear_arith)
            requires
                units(0) == 0 * pow2(0),
        ;
    } else {
        let pattern = lemma_pattern_of_product(a, 149);
        assert(exact >= 0) by (nonlinear_arith)
            requires
                exact == a * pow2(149),
                a > 0,
                pow2(149) > 0,
        ;
        lemma_round_is_nearest(exact, 1, pattern);
        assert(distance(pattern, exact, 1) == 0);
        assert(units(rounded) == exact);
        lemma_round_form(exact, 1);
        lemma_div_is_ordered(0, exact, 1);
        assert(rounded >= 0);
        if rounded < pattern {
            lemma_units_monotone(rounded, pattern);
        } else if pattern < rounded {
            lemma_units_monotone(pattern, rounded);
        }
        assert(rounded == pattern);
    }
}

/// The quotient of a binary32 value and a positive integer, rounded to
/// binary32: infinities keep their sign, a NaN gives the quiet NaN.
pub open spec fn divide_spec(bits: u32, divisor: int) -> u32 {
    if is_nan(bits) {
        NAN_BITS
    } else if is_infinite(bits) {
        bits
    } else {
        with_sign(
            is_negative(bits),
            saturate(round_magnitude(units(magnitude(bits)), divisor)),
        )
    }
}

/// Divides a binary32 value by a positive integer.
pub fn divide(bits: u32, divisor: u32) -> (quotient: u32)
    requires
        divisor >= 1,
    ensures
        quotient == divide_spec(bits, divisor as int),
{
    let mag: u32 = bits % SIGN_BIT;
    if mag > INFINITY_BITS {
        NAN_BITS
    } else if mag == INFINITY_BITS {
        bits
    } else {
        let (n, k) = split(mag);
        let m = round_scaled(n, divisor as u64, k);
        if bits >= SIGN_BIT {
            m + SIGN_BIT
        } else {
            m
        }
    }
}

/// The sum of two binary32 values, rounded to binary32.
///
/// A NaN operand, or infinities of opposite sign, give the quiet NaN. An
/// exact zero is positive unless both operands are negative.
pub open spec fn add_spec(a: u32, b: u32) -> u32 {
    if is_nan(a) || is_nan(b) {
        NAN_BITS
    } else if is_infinite(a) {
        if is_infinite(b) && is_negative(a) != is_negative(b) {
            NAN_BITS
        } else {
            a
        }
    } else if is_infinite(b) {
        b
    } else {
        finite_sum(signed_units(a) + signed_units(b), is_negative(a) && is_negative(b))
    }
}

/// The pattern of an exact sum of `total` units; `both_negative` decides the
/// sign of a zero.
pub open spec fn finite_sum(total: int, both_negative: bool) -> u32 {
    if total == 0 {
        if both_negative {
            SIGN_BIT
        } else {
            ZERO_BITS
        }
    } else if total < 0 {
        with_sign(true, saturate(round_magnitude(-total, 1)))
    } else {
        with_sign(false, saturate(round_magnitude(total, 1)))
    }
}

/// Adding to a value another that lies more than 26 binades below it, or
/// taking it away, rounds back to the value itself.
pub proof fn lemma_absorb(m1: int, g: nat, m2: int, k: nat, minus: bool)
    requires
        0x80_0000 <= m1 < 0x100_0000,
        0 <= m2 < 0x100_0000,
        g >= 26,
    ensures
        round_magnitude(
            (if minus {
                m1 * pow2(g) - m2
            } else {
                m1 * pow2(g) + m2
            }) * pow2(k),
            1,
        ) == (k + g) * 0x80_0000 + m1,
{
    lemma2_to64();
    let step = pow2(g) as int;
    let half = pow2((g - 1) as nat) as int;
    lemma_pow2_unfold(g);
    if g - 1 > 25 {
        lemma_pow2_strictly_increases(25, (g - 1) as nat);
    }
    assert(half >= 0x200_0000);
    if !minus || m2 == 0 {
        lemma_round_at(m1 * step + m2, k, g, m1, m2);
    } else if m1 > 0x80_0000 {
        let total = m1 * step - m2;
        assert(total == (m1 - 1) * step + (step - m2)) by (nonlinear_arith)
            requires
                total == m1 * step - m2,
        ;
        lemma_round_at(total, k, g, m1 - 1, step - m2);
    } else {
        let total = m1 * step - m2;
        assert(total == 0xFF_FFFF * half + (half - m2)) by (nonlinear_arith)
            requires
                total == m1 * step - m2,
                m1 == 0x80_0000,
                step == 2 * half,
        ;
        lemma_round_at(total, k, (g - 1) as nat, 0xFF_FFFF, half - m2);
    }
}

/// Adds two finite values, the first of which has the larger magnitude
/// pattern.
fn add_finite(big: u32, big_negative: bool, small: u32, small_negative: bool) -> (sum: u32)
    requires
        small <= big < 0x7F80_0000,
    ensures
        sum == finite_sum(
            (if big_negative {
                -units(big as int)
            } else {
                units(big as int)
            }) + (if small_negative {
                -units(small as int)
            } else {
                units(small as int)
            }),
            big_negative && small_negative,
        ),
{
    let (n1, k1) = split(big);
    let (n2, k2) = split(small);
    let gap: u32 = k1 - k2;
    proof {
        lemma_units_parts(big as int);
        lemma_units_parts(small as int);
        lemma_pow2_adds(gap as nat, k2 as nat);
        lemma_pow2_pos(k2 as nat);
        lemma_pow2_pos(gap as nat);
    }
    let ghost u1 = units(big as int);
    let ghost u2 = units(small as int);
    let ghost low = pow2(k2 as nat) as int;
    let ghost lift = pow2(gap as nat) as int;
    if gap >= 32 {
        proof {
            lemma_absorb(n1 as int, gap as nat, n2 as int, k2 as nat, big_negative != small_negative);
            let total = if big_negative != small_negative {
                n1 * lift - n2
            } else {
                n1 * lift + n2
            };
            assert(total * low == if big_negative != small_negative {
                u1 - u2
            } else {
                u1 + u2
            }) by (nonlinear_arith)
                requires
                    u1 == n1 * (lift * low),
                    u2 == n2 * low,
                    total == if big_negative != small_negative {
                        n1 * lift - n2
                    } else {
                        n1 * lift + n2
                    },
            ;
            assert(total * low > 0) by {
                assert(round_magnitude(total * low, 1) >= 0x80_0000);
                assert(round_magnitude(0, 1) == 0);
                if total * low < 0 {
                    assert((total * low) / 1 < 0x100_0000);
                    assert(round_half_even(total * low, 1) == total * low);
                }
            }
        }
        if big_negative {
            big + SIGN_BIT
        } else {
            big
        }
    } else {
        proof {
            lemma2_to64();
            lemma_pow2_strictly_increases(gap as nat, 32);
            assert(n1 * lift < 0x100_0000 * 0x1_0000_0000) by (nonlinear_arith)
                requires
                    n1 < 0x100_0000,
                    lift < 0x1_0000_0000,
                    lift > 0,
                    n1 >= 0,
            ;
        }
        let lifted: u64 = n1 * power_of_two(gap);
        let negative: bool = if lifted >= n2 {
            big_negative
        } else {
            small_negative
        };
        let total: u64 = if big_negative == small_negative {
            lifted + n2
        } else if lifted >= n2 {
            lifted - n2
        } else {
            n2 - lifted
        };
        proof {
            assert(total * low == if big_negative == small_negative {
                u1 + u2
            } else if lifted >= n2 {
                u1 - u2
            } else {
                u2 - u1
            }) by (nonlinear_arith)
                requires
                    u1 == n1 * (lift * low),
                    u2 == n2 * low,
                    lifted == n1 * lift,
                    total == if big_negative == small_negative {
                        lifted + n2
                    } else if lifted >= n2 {
                        lifted - n2
                    } else {
                        n2 - lifted
                    },
            ;
            assert((total * low == 0) == (total == 0)) by (nonlinear_arith)
                requires
                    low > 0,
                    total >= 0,
            ;
            assert(total * low >= 0) by (nonlinear_arith)
                requires
                    low > 0,
                    total >= 0,
            ;
        }
        if total == 0 {
            if big_negative && small_negative {
                SIGN_BIT
            } else {
                ZERO_BITS
            }
        } else {
            let m = round_scaled(total, 1, k2);
            if negative {
                m + SIGN_BIT
            } else {
                m
            }
        }
    }
}

/// Adds two binary32 values.
pub fn add(a: u32, b: u32) -> (sum: u32)
    ensures
        sum == add_spec(a, b),
{
    let ma: u32 = a % SIGN_BIT;
    let mb: u32 = b % SIGN_BIT;
    let na: bool = a >= SIGN_BIT;
    let nb: bool = b >= SIGN_BIT;
    if ma > INFINITY_BITS || mb > INFINITY_BITS {
        NAN_BITS
    } else if ma == INFINITY_BITS {
        if mb == INFINITY_BITS && na != nb {
            NAN_BITS
        } else {
            a
        }
    } else if mb == INFINITY_BITS {
        b
    } else if ma >= mb {
        add_finite(ma, na, mb, nb)
    } else {
        add_finite(mb, nb, ma, na)
    }
}

/// Adding zero changes nothing, but for the sign of a zero: the sum of a
/// positive and a negative zero is positive.
pub proof fn lemma_add_zero(bits: u32)
    requires
        !is_nan(bits),
    ensures
        add_spec(ZERO_BITS, bits) == (if bits == SIGN_BIT {
            ZERO_BITS
        } else {
            bits
        }),
        add_spec(bits, ZERO_BITS) == add_spec(ZERO_BITS, bits),
{
    lemma2_to64();
    assert(units(0) == 0) by (nonlinear_arith)
        requires
            units(0) == 0 * pow2(0),
    ;
    if is_finite(bits) {
        lemma_units_parts(magnitude(bits));
        lemma_round_exact(magnitude(bits));
    }
}

} // verus!
