//! Rounding an exact quotient to the nearest binary32 value, ties to even.

use vstd::prelude::*;
use vstd::arithmetic::power2::{
    pow2, lemma_pow2_pos, lemma_pow2_unfold, lemma_pow2_adds, lemma_pow2_strictly_increases,
    lemma2_to64,
};
use vstd::arithmetic::div_mod::{
    lemma_div_denominator, lemma_truncate_middle, lemma_div_multiples_vanish_quotient,
    lemma_fundamental_div_mod, lemma_fundamental_div_mod_converse, lemma_div_is_ordered,
    lemma_mod_bound,
};
use crate::ieee::{
    INFINITY_BITS, significand, scale, units, saturate, lemma_units_of_pattern,
    lemma_units_monotone,
};

verus! {

/// The integer nearest to `n / d`, the even one of two that are equally near.
pub open spec fn round_half_even(n: int, d: int) -> int {
    let q = n / d;
    let r = n % d;
    if 2 * r > d || (2 * r == d && q % 2 == 1) {
        q + 1
    } else {
        q
    }
}

/// The magnitude pattern of the binary32 value nearest to `n / d` units, ties
/// to even, before overflow is turned into infinity.
///
/// While the quotient is below 2^24 the spacing of the values is one unit and
/// the pattern is the rounded quotient itself. Each doubling of the value
/// above that adds one to the exponent field, that is 2^23 to the pattern.
pub open spec fn round_magnitude(n: int, d: int) -> int
    decreases n / d,
    via round_magnitude_decreases
{
    if d <= 0 || n / d < 0x100_0000 {
        round_half_even(n, d)
    } else {
        0x80_0000 + round_magnitude(n, 2 * d)
    }
}

#[via_fn]
proof fn round_magnitude_decreases(n: int, d: int) {
    if d > 0 && n / d >= 0x100_0000 {
        lemma_halving_quotient(n, d);
    }
}

/// How many times the divisor is doubled before the quotient falls below
/// 2^24: the exponent of the rounded value, counted from the first binade.
pub open spec fn binade(n: int, d: int) -> nat
    decreases n / d,
    via binade_decreases
{
    if d <= 0 || n / d < 0x100_0000 {
        0
    } else {
        1 + binade(n, 2 * d)
    }
}

#[via_fn]
proof fn binade_decreases(n: int, d: int) {
    if d > 0 && n / d >= 0x100_0000 {
        lemma_halving_quotient(n, d);
    }
}

/// Doubling the divisor halves a positive quotient.
pub proof fn lemma_halving_quotient(n: int, d: int)
    requires
        d > 0,
        n / d >= 1,
    ensures
        n >= d,
        n / (2 * d) == (n / d) / 2,
        0 <= n / (2 * d) < n / d,
{
    lemma_fundamental_div_mod(n, d);
    lemma_mod_bound(n, d);
    assert(d * (n / d) >= d) by (nonlinear_arith)
        requires
            d > 0,
            n / d >= 1,
    ;
    lemma_div_denominator(n, d, 2);
    assert(d * 2 == 2 * d);
}

/// Doubling the dividend at least doubles the quotient.
pub proof fn lemma_quotient_doubles(n: int, d: int)
    requires
        n >= 0,
        d > 0,
    ensures
        (n * 2) / d >= 2 * (n / d),
{
    lemma_fundamental_div_mod(n, d);
    lemma_mod_bound(n, d);
    let q = n / d;
    assert(n * 2 >= d * (2 * q)) by (nonlinear_arith)
        requires
            n == d * q + n % d,
            n % d >= 0,
    ;
    lemma_div_is_ordered(d * (2 * q), n * 2, d);
    lemma_fundamental_div_mod_converse(d * (2 * q), d, 2 * q, 0);
}

/// Rounding looks only at the ratio: a common factor changes nothing.
pub proof fn lemma_round_half_even_scales(n: int, d: int, c: int)
    requires
        n >= 0,
        d > 0,
        c > 0,
    ensures
        round_half_even(n * c, d * c) == round_half_even(n, d),
{
    lemma_div_multiples_vanish_quotient(c, n, d);
    lemma_truncate_middle(n, c, d);
    assert(n * c == c * n) by (nonlinear_arith);
    assert(d * c == c * d) by (nonlinear_arith);
    let r = n % d;
    assert((2 * (c * r) > c * d) == (2 * r > d)) by (nonlinear_arith)
        requires
            c > 0,
    ;
    assert((2 * (c * r) == c * d) == (2 * r == d)) by (nonlinear_arith)
        requires
            c > 0,
    ;
}

/// The rounded pattern depends only on the ratio `n / d`.
pub proof fn lemma_round_magnitude_scales(n: int, d: int, c: int)
    requires
        n >= 0,
        d > 0,
        c > 0,
    ensures
        round_magnitude(n * c, d * c) == round_magnitude(n, d),
    decreases n / d,
{
    lemma_div_multiples_vanish_quotient(c, n, d);
    assert(n * c == c * n) by (nonlinear_arith);
    assert(d * c == c * d) by (nonlinear_arith);
    assert(d * c > 0) by (nonlinear_arith)
        requires
            d > 0,
            c > 0,
    ;
    if n / d < 0x100_0000 {
        lemma_round_half_even_scales(n, d, c);
    } else {
        lemma_halving_quotient(n, d);
        lemma_round_magnitude_scales(n, 2 * d, c);
        assert(2 * (d * c) == (2 * d) * c) by (nonlinear_arith);
    }
}

/// Above the subnormal range, multiplying the value by 2^k adds `k` to the
/// exponent field and leaves the significand as it is.
pub proof fn lemma_round_magnitude_shift(n: int, d: int, k: nat)
    requires
        n >= 0,
        d > 0,
        n / d >= 0x80_0000,
    ensures
        round_magnitude(n * pow2(k), d) == k * 0x80_0000 + round_magnitude(n, d),
    decreases k,
{
    if k == 0 {
        lemma2_to64();
        assert(n * pow2(0) == n);
    } else {
        let h = n * pow2((k - 1) as nat);
        lemma_pow2_unfold(k);
        lemma_pow2_pos((k - 1) as nat);
        assert(n * pow2(k) == h * 2) by (nonlinear_arith)
            requires
                pow2(k) == 2 * pow2((k - 1) as nat),
                h == n * pow2((k - 1) as nat),
        ;
        assert(h >= n) by (nonlinear_arith)
            requires
                h == n * pow2((k - 1) as nat),
                pow2((k - 1) as nat) >= 1,
                n >= 0,
        ;
        lemma_div_is_ordered(n, h, d);
        lemma_quotient_doubles(h, d);
        lemma_round_magnitude_scales(h, d, 2);
        assert(d * 2 == 2 * d);
        lemma_round_magnitude_shift(n, d, (k - 1) as nat);
    }
}

/// Rounding a value whose leading 24 bits are known: when `total` is
/// `q * 2^g + r` with a full significand `q` and a remainder `r` below 2^g,
/// `total * 2^k` units round to exponent `k + g` and to `q`, or to `q + 1`
/// where the remainder is over half, or is half and `q` is odd.
pub proof fn lemma_round_at(total: int, k: nat, g: nat, q: int, r: int)
    requires
        total == q * pow2(g) + r,
        0 <= r < pow2(g),
        0x80_0000 <= q < 0x100_0000,
    ensures
        round_magnitude(total * pow2(k), 1) == (k + g) * 0x80_0000 + (if 2 * r > pow2(g) || (2 * r
            == pow2(g) && q % 2 == 1) {
            q + 1
        } else {
            q
        }),
{
    let step = pow2(g) as int;
    lemma_pow2_pos(g);
    lemma_pow2_pos(k);
    lemma_fundamental_div_mod_converse(total, step, q, r);
    assert(round_magnitude(total, step) == round_half_even(total, step));
    assert(total >= 0) by (nonlinear_arith)
        requires
            total == q * step + r,
            q >= 0,
            step > 0,
            r >= 0,
    ;
    lemma_round_magnitude_shift(total, step, k + g);
    let scaled = total * pow2(k);
    assert(scaled >= 0) by (nonlinear_arith)
        requires
            scaled == total * pow2(k),
            total >= 0,
            pow2(k) > 0,
    ;
    lemma_round_magnitude_scales(scaled, 1, step);
    lemma_pow2_adds(k, g);
    assert(scaled * step == total * pow2(k + g)) by (nonlinear_arith)
        requires
            scaled == total * pow2(k),
            pow2(k + g) == pow2(k) * pow2(g),
            step == pow2(g),
    ;
    assert(1 * step == step);
}

/// A finite value is the nearest binary32 value to itself.
pub proof fn lemma_round_exact(mag: int)
    requires
        0 <= mag < 0x7F80_0000,
    ensures
        round_magnitude(units(mag), 1) == mag,
{
    lemma2_to64();
    if mag < 0x80_0000 {
        assert(units(mag) == mag) by (nonlinear_arith)
            requires
                units(mag) == mag * pow2(0),
                pow2(0) == 1,
        ;
    } else {
        lemma_round_at(significand(mag), scale(mag), 0, significand(mag), 0);
    }
}

/// A quotient of at least 2^23 rounds to a pattern of at least 2^23: a
/// normal value stays normal.
pub proof fn lemma_round_magnitude_lower(n: int, d: int)
    requires
        n >= 0,
        d > 0,
        n / d >= 0x80_0000,
    ensures
        round_magnitude(n, d) >= 0x80_0000,
    decreases n / d,
{
    if n / d >= 0x100_0000 {
        lemma_halving_quotient(n, d);
        lemma_round_magnitude_lower(n, 2 * d);
    }
}

/// Rounding keeps the order of the values.
pub proof fn lemma_round_magnitude_monotone(n1: int, n2: int, d: int)
    requires
        0 <= n1 <= n2,
        d > 0,
    ensures
        round_magnitude(n1, d) <= round_magnitude(n2, d),
    decreases n2 / d,
{
    lemma_div_is_ordered(n1, n2, d);
    lemma_fundamental_div_mod(n1, d);
    lemma_fundamental_div_mod(n2, d);
    lemma_mod_bound(n1, d);
    lemma_mod_bound(n2, d);
    let q1 = n1 / d;
    let q2 = n2 / d;
    let r1 = n1 % d;
    let r2 = n2 % d;
    if q2 < 0x100_0000 {
        if q1 == q2 {
            assert(r1 <= r2) by (nonlinear_arith)
                requires
                    d * q1 + r1 <= d * q2 + r2,
                    q1 == q2,
            ;
        }
    } else if q1 < 0x100_0000 {
        lemma_halving_quotient(n2, d);
        lemma_round_magnitude_lower(n2, 2 * d);
    } else {
        lemma_halving_quotient(n2, d);
        lemma_round_magnitude_monotone(n1, n2, 2 * d);
    }
}

/// The rounded pattern written out: the binade, and in it the quotient by
/// the spacing of that binade, rounded half to even.
pub proof fn lemma_round_form(n: int, d: int)
    requires
        n >= 0,
        d > 0,
    ensures
        ({
            let s = binade(n, d);
            let spacing = d * pow2(s);
            &&& spacing > 0
            &&& round_magnitude(n, d) == s * 0x80_0000 + round_half_even(n, spacing)
            &&& 0 <= n / spacing < 0x100_0000
            &&& s > 0 ==> n / spacing >= 0x80_0000
        }),
    decreases n / d,
{
    lemma2_to64();
    if n / d < 0x100_0000 {
        assert(d * pow2(0) == d);
        lemma_div_is_ordered(0, n, d);
        assert(0int / d == 0);
    } else {
        lemma_halving_quotient(n, d);
        lemma_round_form(n, 2 * d);
        let inner = binade(n, 2 * d);
        lemma_pow2_unfold(inner + 1);
        assert((2 * d) * pow2(inner) == d * pow2(inner + 1)) by (nonlinear_arith)
            requires
                pow2(inner + 1) == 2 * pow2(inner),
        ;
        if inner == 0 {
            assert((2 * d) * pow2(0) == 2 * d);
        }
    }
}

/// How far the value of a pattern lies from `n / d` units, times `d`.
pub open spec fn distance(pattern: int, n: int, d: int) -> int {
    let gap = units(pattern) * d - n;
    if gap < 0 {
        -gap
    } else {
        gap
    }
}

/// Rounding gives the nearest value: no pattern stands for a value nearer
/// to `n / d` than the rounded one, and where another is just as near, the
/// rounded pattern is the even one.
pub proof fn lemma_round_is_nearest(n: int, d: int, other: int)
    requires
        n >= 0,
        d > 0,
        other >= 0,
    ensures
        distance(round_magnitude(n, d), n, d) <= distance(other, n, d),
        other != round_magnitude(n, d) && distance(other, n, d) == distance(
            round_magnitude(n, d),
            n,
            d,
        ) ==> round_magnitude(n, d) % 2 == 0,
{
    let s = binade(n, d);
    let spacing = d * pow2(s);
    lemma_round_form(n, d);
    let q = n / spacing;
    let r = n % spacing;
    lemma_fundamental_div_mod(n, spacing);
    lemma_mod_bound(n, spacing);
    let lo = s * 0x80_0000 + q;
    let hi = lo + 1;
    let chosen = round_magnitude(n, d);
    let up = 2 * r > spacing || (2 * r == spacing && q % 2 == 1);
    assert(chosen == (if up {
        hi
    } else {
        lo
    }));
    lemma_units_of_pattern(s, q);
    lemma_units_of_pattern(s, q + 1);
    let below = units(lo) * d;
    let above = units(hi) * d;
    let there = units(other) * d;
    assert(below == n - r) by (nonlinear_arith)
        requires
            below == units(lo) * d,
            units(lo) == q * pow2(s),
            spacing == d * pow2(s),
            n == spacing * q + r,
    ;
    assert(above == n - r + spacing) by (nonlinear_arith)
        requires
            above == units(hi) * d,
            units(hi) == (q + 1) * pow2(s),
            spacing == d * pow2(s),
            n == spacing * q + r,
    ;
    assert(lo % 2 == q % 2) by {
        assert(s * 0x80_0000 == 2 * (s * 0x40_0000));
    }
    if other <= lo {
        lemma_units_monotone(other, lo);
        assert(there <= below && (other < lo ==> there < below)) by (nonlinear_arith)
            requires
                there == units(other) * d,
                below == units(lo) * d,
                units(other) <= units(lo),
                other < lo ==> units(other) < units(lo),
                d > 0,
        ;
        assert(distance(other, n, d) == n - there);
    } else {
        lemma_units_monotone(hi, other);
        assert(above <= there && (hi < other ==> above < there)) by (nonlinear_arith)
            requires
                there == units(other) * d,
                above == units(hi) * d,
                units(hi) <= units(other),
                hi < other ==> units(hi) < units(other),
                d > 0,
        ;
        assert(distance(other, n, d) == there - n);
    }
    if up {
        assert(distance(chosen, n, d) == spacing - r);
    } else {
        assert(distance(chosen, n, d) == r);
    }
}

/// A pattern for `a * 2^k` units, where `a` has at most 24 bits: every such
/// value is a binary32 value.
pub proof fn lemma_pattern_of_product(a: int, k: nat) -> (pattern: int)
    requires
        0 < a < 0x100_0000,
    ensures
        0 <= pattern < (k + 2) * 0x80_0000,
        units(pattern) == a * pow2(k),
    decreases k,
{
    if a >= 0x80_0000 || k == 0 {
        lemma_units_of_pattern(k, a);
        k * 0x80_0000 + a
    } else {
        let pattern = lemma_pattern_of_product(2 * a, (k - 1) as nat);
        lemma_pow2_unfold(k);
        assert((2 * a) * pow2((k - 1) as nat) == a * pow2(k)) by (nonlinear_arith)
            requires
                pow2(k) == 2 * pow2((k - 1) as nat),
        ;
        pattern
    }
}

/// Rounds `n / d * 2^k` units to the nearest binary32 magnitude, ties to
/// even; a value too large for the format gives infinity.
pub fn round_scaled(n: u64, d: u64, k: u32) -> (mag: u32)
    requires
        1 <= d <= 0xFFFF_FFFF,
        k <= 0xFFFF,
    ensures
        mag as int == saturate(round_magnitude(n as int * pow2(k as nat), d as int)),
        mag <= 0x7F80_0000,
{
    let ghost target = round_magnitude(n as int * pow2(k as nat), d as int);
    let mut n1: u64 = n;
    let mut k1: u32 = k;
    while k1 > 0 && n1 / d < 0x80_0000
        invariant
            1 <= d <= 0xFFFF_FFFF,
            k1 <= k,
            n1 as int * pow2(k1 as nat) == n as int * pow2(k as nat),
        decreases k1,
    {
        proof {
            lemma_fundamental_div_mod(n1 as int, d as int);
            lemma_mod_bound(n1 as int, d as int);
            let q = n1 as int / d as int;
            let r = n1 as int % d as int;
            assert(d * q + r <= d * 0x80_0000) by (nonlinear_arith)
                requires
                    q < 0x80_0000,
                    r < d,
                    d > 0,
            ;
            lemma_pow2_unfold(k1 as nat);
            assert((n1 * 2) * pow2((k1 - 1) as nat) == n1 * pow2(k1 as nat)) by (nonlinear_arith)
                requires
                    pow2(k1 as nat) == 2 * pow2((k1 - 1) as nat),
            ;
        }
        n1 = n1 * 2;
        k1 = k1 - 1;
    }
    let mut d1: u64 = d;
    let mut k2: u32 = k1;
    proof {
        lemma2_to64();
        assert(d as int * pow2(0) == d);
    }
    while n1 / d1 >= 0x100_0000
        invariant
            d1 >= 1,
            k1 <= k2,
            k1 <= 0xFFFF,
            d1 as int == d as int * pow2((k2 - k1) as nat),
            d >= 1,
            round_magnitude(n1 as int * pow2(k2 as nat), d1 as int) == target,
            k2 == 0 || n1 / d1 >= 0x80_0000,
        decreases n1 / d1,
    {
        proof {
            lemma_halving_quotient(n1 as int, d1 as int);
            lemma_fundamental_div_mod(n1 as int, d1 as int);
            lemma_mod_bound(n1 as int, d1 as int);
            let q = n1 as int / d1 as int;
            assert(d1 * q >= d1 * 2) by (nonlinear_arith)
                requires
                    q >= 2,
                    d1 >= 1,
            ;
            lemma_pow2_unfold((k2 + 1) as nat);
            lemma_round_magnitude_scales(n1 as int * pow2(k2 as nat), d1 as int, 2);
            lemma_pow2_pos(k2 as nat);
            assert(n1 as int * pow2(k2 as nat) >= 0) by (nonlinear_arith)
                requires
                    n1 >= 0,
                    pow2(k2 as nat) > 0,
            ;
            assert(n1 as int * pow2((k2 + 1) as nat) == (n1 as int * pow2(k2 as nat)) * 2)
                by (nonlinear_arith)
                requires
                    pow2((k2 + 1) as nat) == 2 * pow2(k2 as nat),
            ;
            lemma_pow2_unfold((k2 + 1 - k1) as nat);
            assert(d1 * 2 == d * pow2((k2 + 1 - k1) as nat)) by (nonlinear_arith)
                requires
                    d1 as int == d as int * pow2((k2 - k1) as nat),
                    pow2((k2 + 1 - k1) as nat) == 2 * pow2((k2 - k1) as nat),
            ;
            if k2 - k1 >= 64 {
                lemma2_to64();
                if k2 - k1 > 64 {
                    lemma_pow2_strictly_increases(64, (k2 - k1) as nat);
                }
                assert(d * pow2((k2 - k1) as nat) >= pow2(64)) by (nonlinear_arith)
                    requires
                        d >= 1,
                        pow2((k2 - k1) as nat) >= pow2(64),
                ;
                assert(false);
            }
        }
        d1 = d1 * 2;
        k2 = k2 + 1;
    }
    let q: u64 = n1 / d1;
    let r: u64 = n1 % d1;
    let rest: u64 = d1 - r;
    let m: u64 = if r > rest || (r == rest && q % 2 == 1) {
        q + 1
    } else {
        q
    };
    proof {
        assert(m == round_half_even(n1 as int, d1 as int));
        assert(round_magnitude(n1 as int, d1 as int) == m);
        if k2 > 0 {
            lemma_round_magnitude_shift(n1 as int, d1 as int, k2 as nat);
        } else {
            lemma2_to64();
            assert(n1 as int * pow2(0) == n1);
        }
        assert(target == k2 * 0x80_0000 + m);
    }
    if k2 >= 255 {
        INFINITY_BITS
    } else {
        let b: u64 = (k2 as u64) * 0x80_0000 + m;
        if b >= 0x7F80_0000 {
            INFINITY_BITS
        } else {
            b as u32
        }
    }
}

} // verus!
