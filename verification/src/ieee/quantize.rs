//! From a binary32 sample back to a 16-bit one.

use vstd::prelude::*;
use vstd::arithmetic::power2::{
    pow2, lemma_pow2_pos, lemma_pow2_adds, lemma_pow2_strictly_increases, lemma2_to64,
};
use vstd::arithmetic::div_mod::{
    lemma_div_multiples_vanish_quotient, lemma_fundamental_div_mod,
    lemma_fundamental_div_mod_converse, lemma_div_is_ordered, lemma_mod_bound, lemma_basic_div,
};
use crate::ieee::{
    SIGN_BIT, INFINITY_BITS, ONE_BITS, magnitude, is_negative, is_nan, units, saturate, split,
    power_of_two, lemma_units_parts, lemma_units_monotone,
};
use crate::ieee::rounding::{
    round_magnitude, lemma_round_at, lemma_round_magnitude_monotone, round_scaled,
};

verus! {

/// The whole number of ones in a finite magnitude: the value with its
/// fraction cut off.
pub open spec fn whole_part_spec(mag: int) -> int {
    units(mag) / (pow2(149) as int)
}

/// Cuts the fraction off a finite magnitude below 2^23.
pub fn whole_part(mag: u32) -> (whole: u32)
    requires
        mag < 0x4B00_0000,
    ensures
        whole as int == whole_part_spec(mag as int),
        whole < 0x100_0000,
{
    let (n, k) = split(mag);
    let shift: u32 = 149 - k;
    proof {
        lemma_units_parts(mag as int);
        lemma_pow2_adds(shift as nat, k as nat);
        lemma_pow2_pos(shift as nat);
        lemma_pow2_pos(k as nat);
        let low = pow2(k as nat) as int;
        let cut = pow2(shift as nat) as int;
        lemma_div_multiples_vanish_quotient(low, n as int, cut);
        assert(n * low == low * n) by (nonlinear_arith);
        assert(low * cut == cut * low) by (nonlinear_arith);
        assert(whole_part_spec(mag as int) == n as int / cut);
        lemma_div_is_ordered(0, n as int, cut);
        lemma_fundamental_div_mod(n as int, cut);
        lemma_mod_bound(n as int, cut);
        assert(n as int / cut <= n) by (nonlinear_arith)
            requires
                n as int == cut * (n as int / cut) + (n as int % cut),
                n as int % cut >= 0,
                cut >= 1,
                n as int / cut >= 0,
        ;
    }
    if shift >= 24 {
        proof {
            lemma2_to64();
            if shift > 24 {
                lemma_pow2_strictly_increases(24, shift as nat);
            }
            lemma_basic_div(n as int, pow2(shift as nat) as int);
        }
        0
    } else {
        (n / power_of_two(shift)) as u32
    }
}

/// The pattern of 32767.0, the largest 16-bit sample.
pub const FULL_SCALE_BITS: u32 = 0x46FF_FE00;

/// The 16-bit sample of a binary32 value: the value is held to the range
/// from -1 to 1, multiplied by 32767 in binary32 arithmetic, and its fraction
/// is cut off. A NaN gives 0.
pub open spec fn quantize_spec(bits: u32) -> int {
    if is_nan(bits) {
        0
    } else {
        let held = if magnitude(bits) > 0x3F80_0000 {
            0x3F80_0000
        } else {
            magnitude(bits)
        };
        let product = saturate(round_magnitude(units(held) * 32767, 1));
        if is_negative(bits) {
            -whole_part_spec(product)
        } else {
            whole_part_spec(product)
        }
    }
}

/// No value at most 1 has a product with 32767 that rounds above 32767.
pub proof fn lemma_product_bounded(held: int)
    requires
        0 <= held <= 0x3F80_0000,
    ensures
        0 <= round_magnitude(units(held) * 32767, 1) <= 0x46FF_FE00,
        whole_part_spec(round_magnitude(units(held) * 32767, 1)) <= 32767,
        whole_part_spec(round_magnitude(units(held) * 32767, 1)) >= 0,
{
    lemma2_to64();
    let one = pow2(149) as int;
    lemma_pow2_pos(149);
    lemma_units_monotone(held, 0x3F80_0000);
    lemma_units_parts(held);
    lemma_pow2_adds(23, 126);
    assert(units(0x3F80_0000) == 0x80_0000 * pow2(126));
    assert(units(0x3F80_0000) == one);
    let product = units(held) * 32767;
    assert(0 <= product <= one * 32767) by (nonlinear_arith)
        requires
            0 <= units(held) <= one,
            product == units(held) * 32767,
    ;
    lemma_round_magnitude_monotone(product, one * 32767, 1);
    lemma_round_magnitude_monotone(0, product, 1);
    assert(round_magnitude(0, 1) == 0);
    lemma_pow2_adds(9, 140);
    assert(one * 32767 == 0xFF_FE00 * pow2(140)) by (nonlinear_arith)
        requires
            one == 0x200 * pow2(140),
    ;
    assert(0xFF_FE00 == 0xFF_FE00 * pow2(0) + 0);
    lemma_round_at(0xFF_FE00, 140, 0, 0xFF_FE00, 0);
    assert(round_magnitude(one * 32767, 1) == 0x46FF_FE00);
    let rounded = round_magnitude(product, 1);
    lemma_units_monotone(rounded, 0x46FF_FE00);
    lemma_units_parts(rounded);
    assert(units(0x46FF_FE00) == 0xFF_FE00 * pow2(140));
    lemma_div_is_ordered(units(rounded), one * 32767, one);
    lemma_div_is_ordered(0, units(rounded), one);
    lemma_fundamental_div_mod_converse(one * 32767, one, 32767, 0);
    assert(0int / one == 0);
}

/// Turns a binary32 sample into a 16-bit one.
pub fn quantize(bits: u32) -> (sample: i16)
    ensures
        sample as int == quantize_spec(bits),
        -32767 <= sample <= 32767,
{
    let mag: u32 = bits % SIGN_BIT;
    if mag > INFINITY_BITS {
        return 0;
    }
    let held: u32 = if mag > ONE_BITS {
        ONE_BITS
    } else {
        mag
    };
    let (n, k) = split(held);
    proof {
        lemma_product_bounded(held as int);
        lemma_units_parts(held as int);
        assert((n * 32767) * pow2(k as nat) == units(held as int) * 32767) by (nonlinear_arith)
            requires
                units(held as int) == n * pow2(k as nat),
        ;
    }
    let product = round_scaled(n * 32767, 1, k);
    let whole = whole_part(product);
    if bits >= SIGN_BIT {
        -(whole as i16)
    } else {
        whole as i16
    }
}

/// One and everything beyond it, infinity too, gives the largest sample;
/// zero gives zero; and changing the sign of the value changes the sign of
/// the sample.
pub proof fn lemma_quantize_ends(bits: u32)
    requires
        !is_nan(bits),
    ensures
        magnitude(bits) >= 0x3F80_0000 ==> quantize_spec(bits) == (if is_negative(bits) {
            -32767int
        } else {
            32767int
        }),
        magnitude(bits) == 0 ==> quantize_spec(bits) == 0,
        -32767 <= quantize_spec(bits) <= 32767,
        !is_negative(bits) ==> quantize_spec((bits + 0x8000_0000) as u32) == -quantize_spec(bits),
{
    lemma2_to64();
    let one = pow2(149) as int;
    lemma_pow2_pos(149);
    let held = if magnitude(bits) > 0x3F80_0000 {
        0x3F80_0000
    } else {
        magnitude(bits)
    };
    lemma_product_bounded(held);
    if magnitude(bits) >= 0x3F80_0000 {
        lemma_pow2_adds(23, 126);
        assert(units(0x3F80_0000) == 0x80_0000 * pow2(126));
        lemma_pow2_adds(9, 140);
        assert(one * 32767 == 0xFF_FE00 * pow2(140)) by (nonlinear_arith)
            requires
                one == 0x200 * pow2(140),
        ;
        assert(0xFF_FE00 == 0xFF_FE00 * pow2(0) + 0);
        lemma_round_at(0xFF_FE00, 140, 0, 0xFF_FE00, 0);
        assert(units(0x46FF_FE00) == 0xFF_FE00 * pow2(140));
        lemma_fundamental_div_mod_converse(one * 32767, one, 32767, 0);
    }
    if magnitude(bits) == 0 {
        assert(units(0) == 0) by (nonlinear_arith)
            requires
                units(0) == 0 * pow2(0),
        ;
        assert(round_magnitude(0, 1) == 0);
        assert(0int / one == 0);
    }
}

} // verus!
