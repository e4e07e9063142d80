//! IEEE 754 binary32 values handled through their bit patterns.
//!
//! A sample is carried as the `u32` pattern of a single-precision number.
//! The magnitude of a finite pattern is measured in units of 2^-149, the
//! smallest positive binary32 value, so that every finite value is a whole
//! number of units and exact results can be stated over unbounded integers.
//! Rounding is round-to-nearest, ties to even.
//!
//! This file holds the patterns and their values; `rounding` the rounding
//! of an exact quotient to a pattern; `arithmetic` conversion from integers,
//! division by an integer and addition; `quantize` the way back to 16-bit
//! samples.

use vstd::prelude::*;
use vstd::arithmetic::power2::{
    pow2, lemma_pow2_pos, lemma_pow2_unfold, lemma_pow2_strictly_increases, lemma2_to64,
    lemma2_to64_rest,
};

pub mod arithmetic;
pub mod quantize;
pub mod rounding;

verus! {

/// The sign bit of a pattern.
pub const SIGN_BIT: u32 = 0x8000_0000;

/// The pattern of positive infinity; every larger magnitude is a NaN.
pub const INFINITY_BITS: u32 = 0x7F80_0000;

/// The quiet NaN that every operation of this module returns for a NaN.
pub const NAN_BITS: u32 = 0x7FC0_0000;

/// The pattern of 1.0.
pub const ONE_BITS: u32 = 0x3F80_0000;

/// The pattern of positive zero.
pub const ZERO_BITS: u32 = 0;

/// The pattern with the sign bit cleared.
pub open spec fn magnitude(bits: u32) -> int {
    bits as int % 0x8000_0000
}

pub open spec fn is_negative(bits: u32) -> bool {
    bits >= 0x8000_0000
}

pub open spec fn is_nan(bits: u32) -> bool {
    magnitude(bits) > 0x7F80_0000
}

pub open spec fn is_infinite(bits: u32) -> bool {
    magnitude(bits) == 0x7F80_0000
}

pub open spec fn is_finite(bits: u32) -> bool {
    magnitude(bits) < 0x7F80_0000
}

/// The significand of a magnitude: the fraction field, with the hidden bit
/// unless the pattern is subnormal.
pub open spec fn significand(mag: int) -> int {
    if mag < 0x80_0000 {
        mag
    } else {
        0x80_0000 + mag % 0x80_0000
    }
}

/// The power of two by which the significand is scaled, counted from 2^-149.
pub open spec fn scale(mag: int) -> nat {
    if mag < 0x80_0000 {
        0
    } else {
        (mag / 0x80_0000 - 1) as nat
    }
}

/// The value of a finite magnitude, in units of 2^-149.
pub open spec fn units(mag: int) -> int {
    significand(mag) * pow2(scale(mag))
}

/// The value of a finite pattern in units of 2^-149, with its sign.
pub open spec fn signed_units(bits: u32) -> int {
    if is_negative(bits) {
        -units(magnitude(bits))
    } else {
        units(magnitude(bits))
    }
}

/// A magnitude with overflow turned into infinity.
pub open spec fn saturate(mag: int) -> int {
    if mag >= 0x7F80_0000 {
        0x7F80_0000
    } else {
        mag
    }
}

/// The pattern with the given sign and magnitude.
pub open spec fn with_sign(negative: bool, mag: int) -> u32 {
    if negative {
        (mag + 0x8000_0000) as u32
    } else {
        mag as u32
    }
}

/// Splits a finite magnitude into its significand and its scale.
pub fn split(mag: u32) -> (parts: (u64, u32))
    requires
        mag < 0x7F80_0000,
    ensures
        parts.0 as int == significand(mag as int),
        parts.1 as nat == scale(mag as int),
        parts.0 < 0x100_0000,
        parts.1 <= 253,
        parts.1 > 0 ==> parts.0 >= 0x80_0000,
{
    if mag < 0x80_0000 {
        (mag as u64, 0)
    } else {
        ((0x80_0000 + mag % 0x80_0000) as u64, mag / 0x80_0000 - 1)
    }
}

/// 2^e as a machine integer.
pub fn power_of_two(e: u32) -> (p: u64)
    requires
        e < 64,
    ensures
        p as nat == pow2(e as nat),
        p >= 1,
{
    let mut p: u64 = 1;
    let mut i: u32 = 0;
    proof {
        lemma2_to64();
    }
    while i < e
        invariant
            i <= e,
            e < 64,
            p as nat == pow2(i as nat),
        decreases e - i,
    {
        proof {
            lemma_pow2_unfold((i + 1) as nat);
            lemma2_to64_rest();
            if i + 1 < 63 {
                lemma_pow2_strictly_increases((i + 1) as nat, 63);
            }
            assert(pow2((i + 1) as nat) <= 0x8000_0000_0000_0000);
        }
        p = p * 2;
        i = i + 1;
    }
    proof {
        lemma_pow2_pos(e as nat);
    }
    p
}

/// The value of a finite magnitude taken apart and put together again.
pub proof fn lemma_units_parts(mag: int)
    requires
        0 <= mag < 0x7F80_0000,
    ensures
        units(mag) == significand(mag) * pow2(scale(mag)),
        units(mag) >= 0,
        mag == scale(mag) * 0x80_0000 + significand(mag),
        units(mag) == 0 <==> mag == 0,
{
    lemma_pow2_pos(scale(mag));
    assert(significand(mag) * pow2(scale(mag)) >= 0) by (nonlinear_arith)
        requires
            significand(mag) >= 0,
            pow2(scale(mag)) > 0,
    ;
    assert((significand(mag) * pow2(scale(mag)) == 0) == (significand(mag) == 0))
        by (nonlinear_arith)
        requires
            significand(mag) >= 0,
            pow2(scale(mag)) > 0,
    ;
}

/// The value of the pattern that has exponent `s` and significand `x`; an
/// `x` of 2^24 stands for the first value of the next binade.
pub proof fn lemma_units_of_pattern(s: nat, x: int)
    requires
        0 <= x <= 0x100_0000,
        s > 0 ==> x >= 0x80_0000,
    ensures
        units(s * 0x80_0000 + x) == x * pow2(s),
{
    lemma2_to64();
    let mag = s * 0x80_0000 + x;
    if x == 0x100_0000 {
        assert(mag == (s + 2) * 0x80_0000);
        assert(scale(mag) == s + 1);
        assert(significand(mag) == 0x80_0000);
        lemma_pow2_unfold(s + 1);
        assert(0x80_0000 * pow2(s + 1) == 0x100_0000 * pow2(s)) by (nonlinear_arith)
            requires
                pow2(s + 1) == 2 * pow2(s),
        ;
    } else if s == 0 {
        assert(mag == x);
        assert(scale(mag) == 0);
        assert(significand(mag) == x);
    } else {
        assert(mag == (s + 1) * 0x80_0000 + (x - 0x80_0000));
        assert(mag / 0x80_0000 == s + 1);
        assert(mag % 0x80_0000 == x - 0x80_0000);
    }
}

/// A larger pattern stands for a larger value.
pub proof fn lemma_units_monotone(m1: int, m2: int)
    requires
        0 <= m1 <= m2,
    ensures
        units(m1) <= units(m2),
        m1 < m2 ==> units(m1) < units(m2),
{
    let s1 = scale(m1);
    let s2 = scale(m2);
    let g1 = significand(m1);
    let g2 = significand(m2);
    lemma_pow2_pos(s1);
    lemma_pow2_pos(s2);
    if s1 == s2 {
        assert(g1 <= g2);
        assert(m1 < m2 ==> g1 < g2);
        assert(g1 * pow2(s1) <= g2 * pow2(s2) && (g1 < g2 ==> g1 * pow2(s1) < g2 * pow2(s2)))
            by (nonlinear_arith)
            requires
                g1 <= g2,
                pow2(s1) == pow2(s2),
                pow2(s1) > 0,
        ;
    } else {
        assert(s1 < s2);
        lemma_pow2_unfold(s1 + 1);
        if s1 + 1 < s2 {
            lemma_pow2_strictly_increases(s1 + 1, s2);
        }
        assert(g1 * pow2(s1) < g2 * pow2(s2)) by (nonlinear_arith)
            requires
                0 <= g1 < 0x100_0000,
                g2 >= 0x80_0000,
                2 * pow2(s1) <= pow2(s2),
                pow2(s1) > 0,
        ;
    }
}

} // verus!
