//! Normalized bar heights.
//!
//! A height reaches the library as the 32-bit pattern of an IEEE 754
//! single-precision number: one sign bit, eight exponent bits, 23 fraction
//! bits. Every finite pattern denotes a whole multiple of 2^-149, so the
//! number it stands for, and the length of the bar it asks for, are stated
//! here over the integers, with nothing rounded but the bar length itself.

use vstd::arithmetic::div_mod::*;
use vstd::arithmetic::power2::*;
use vstd::prelude::*;

verus! {

/// The sign bit of the pattern is set.
pub open spec fn negative(h: u32) -> bool {
    h >= 0x8000_0000
}

/// The eight exponent bits of the pattern.
pub open spec fn exponent_field(h: u32) -> nat {
    ((h / 0x80_0000) % 0x100) as nat
}

/// The 23 fraction bits of the pattern.
pub open spec fn fraction_field(h: u32) -> nat {
    (h % 0x80_0000) as nat
}

/// The pattern denotes a number: it is neither an infinity nor a NaN.
pub open spec fn finite(h: u32) -> bool {
    exponent_field(h) != 0xff
}

/// The significand of the pattern: the fraction bits, with the implicit
/// leading bit of a normal number in front.
pub open spec fn significand(h: u32) -> nat {
    if exponent_field(h) == 0 {
        fraction_field(h)
    } else {
        0x80_0000 + fraction_field(h)
    }
}

/// The absolute value of the number that a finite pattern denotes, counted
/// in units of 2^-149.
pub open spec fn magnitude(h: u32) -> nat {
    if exponent_field(h) == 0 {
        significand(h)
    } else {
        significand(h) * pow2((exponent_field(h) - 1) as nat)
    }
}

/// The number one, counted in units of 2^-149.
pub open spec fn one() -> nat {
    pow2(149)
}

/// The pattern denotes a number between zero and one, both included.
/// Negative zero is zero; an infinity or a NaN is no number.
pub open spec fn in_unit_range(h: u32) -> bool {
    &&& finite(h)
    &&& negative(h) ==> magnitude(h) == 0
    &&& magnitude(h) <= one()
}

/// The quotient `num / den` rounded to the nearest whole number, a half
/// rounded up.
pub open spec fn round_half_up(num: nat, den: nat) -> nat
    recommends
        den > 0,
{
    (2 * num + den) / (2 * den)
}

/// The number of lit rows that the height `h` asks for in a column of
/// `rows` rows: `h` times `rows`, rounded to the nearest whole number, a
/// half rounded up.
pub open spec fn bar_len(h: u32, rows: nat) -> nat
    recommends
        in_unit_range(h),
{
    round_half_up(magnitude(h) * rows, one())
}

/// The magnitude of a normal number with exponent field `e` lies between
/// `2^(e + 22)` and `2^(e + 23)`.
proof fn lemma_magnitude_normal(h: u32)
    requires
        exponent_field(h) >= 1,
    ensures
        pow2(exponent_field(h) + 22) <= magnitude(h) < pow2(exponent_field(h) + 23),
        magnitude(h) == pow2(exponent_field(h) + 22) <==> fraction_field(h) == 0,
{
    let e = exponent_field(h);
    let k = (e - 1) as nat;
    let sig = significand(h) as int;
    let unit = pow2(k) as int;
    lemma2_to64();
    lemma_pow2_pos(k);
    lemma_pow2_adds(23, k);
    lemma_pow2_adds(24, k);
    assert(0x80_0000 * unit <= sig * unit) by (nonlinear_arith)
        requires
            0x80_0000 <= sig,
            unit > 0,
    ;
    assert(sig * unit < 0x100_0000 * unit) by (nonlinear_arith)
        requires
            sig < 0x100_0000,
            unit > 0,
    ;
    assert(sig * unit == 0x80_0000 * unit <==> sig == 0x80_0000) by (nonlinear_arith)
        requires
            unit > 0,
    ;
}

/// Among the 32-bit patterns, those of the numbers from zero to one are
/// positive zero up to one in the order of the patterns, and negative zero.
pub proof fn lemma_unit_range_patterns(h: u32)
    ensures
        in_unit_range(h) <==> (h <= 0x3f80_0000 || h == 0x8000_0000),
{
    let e = exponent_field(h);
    lemma2_to64();
    if e == 0 {
        lemma_pow2_strictly_increases(23, 149);
    } else {
        lemma_magnitude_normal(h);
        lemma_pow2_pos(e + 22);
        if e < 127 {
            if e + 23 < 149 {
                lemma_pow2_strictly_increases(e + 23, 149);
            }
        } else if e > 127 {
            lemma_pow2_strictly_increases(149, e + 22);
        }
    }
}

/// A bar is never longer than its column.
pub proof fn lemma_bar_len_bounded(h: u32, rows: nat)
    requires
        in_unit_range(h),
    ensures
        bar_len(h, rows) <= rows,
{
    let unit = one() as int;
    let mag = magnitude(h) as int;
    let r = rows as int;
    lemma_pow2_pos(149);
    assert(mag * r <= unit * r) by (nonlinear_arith)
        requires
            0 <= mag <= unit,
            0 <= r,
    ;
    assert(2 * (unit * r) + unit == r * (2 * unit) + unit) by (nonlinear_arith);
    lemma_fundamental_div_mod_converse(2 * (unit * r) + unit, 2 * unit, r, unit);
    lemma_div_is_ordered(2 * (mag * r) + unit, 2 * (unit * r) + unit, 2 * unit);
}

/// Scaling numerator and denominator alike leaves the rounded quotient as it
/// is.
proof fn lemma_round_half_up_scaled(num: nat, den: nat, k: nat)
    requires
        den > 0,
        k > 0,
    ensures
        round_half_up(num * k, den * k) == round_half_up(num, den),
{
    let n = num as int;
    let d = den as int;
    let f = k as int;
    assert(2 * (n * f) + d * f == f * (2 * n + d)) by (nonlinear_arith);
    assert(2 * (d * f) == f * (2 * d)) by (nonlinear_arith);
    lemma_div_multiples_vanish_quotient(f, 2 * n + d, 2 * d);
}

/// A normal number up to one is its significand over two to the power
/// `150 - exponent_field`, and its bar length is that quotient times `rows`,
/// rounded.
pub proof fn lemma_bar_len_normal(h: u32, rows: nat)
    requires
        1 <= exponent_field(h) <= 127,
    ensures
        bar_len(h, rows) == round_half_up(
            significand(h) * rows,
            pow2((150 - exponent_field(h)) as nat),
        ),
{
    let e = exponent_field(h);
    let k = pow2((e - 1) as nat);
    let den = pow2((150 - e) as nat);
    let m = significand(h) as int;
    lemma_pow2_pos((e - 1) as nat);
    lemma_pow2_pos((150 - e) as nat);
    lemma_pow2_adds((150 - e) as nat, (e - 1) as nat);
    assert(one() == den * k);
    assert((m * k) * rows == (m * rows) * k) by (nonlinear_arith);
    lemma_round_half_up_scaled(significand(h) * rows, den, k);
}

/// A quotient under one half rounds to zero.
proof fn lemma_round_half_up_zero(num: nat, den: nat)
    requires
        2 * num < den,
    ensures
        round_half_up(num, den) == 0,
{
    lemma_basic_div((2 * num + den) as int, (2 * den) as int);
}

/// Shifting one to the left by `e` places gives two to the power `e`.
proof fn lemma_shl_pow2(e: u32)
    requires
        e < 127,
    ensures
        (1u128 << e) == pow2(e as nat),
    decreases e,
{
    if e == 0 {
        assert((1u128 << 0u32) == 1) by (bit_vector);
        lemma2_to64();
    } else {
        let d = (e - 1) as u32;
        lemma_shl_pow2(d);
        assert((1u128 << e) == 2 * (1u128 << d)) by (bit_vector)
            requires
                0 < e < 127,
                d == e - 1,
        ;
        lemma_pow2_unfold(e as nat);
    }
}

/// The length of the bar that the height `h` asks for in a column of `rows`
/// rows, or `None` where `h` is no number from zero to one.
pub fn bar_rows(h: u32, rows: usize) -> (len: Option<usize>)
    ensures
        match len {
            Some(n) => in_unit_range(h) && n == bar_len(h, rows as nat) && n <= rows,
            None => !in_unit_range(h),
        },
{
    proof {
        lemma_unit_range_patterns(h);
    }
    if !(h <= 0x3f80_0000 || h == 0x8000_0000) {
        return None;
    }
    proof {
        lemma_bar_len_bounded(h, rows as nat);
        lemma2_to64();
        lemma_pow2_adds(64, 24);
    }
    let exponent: u32 = (h / 0x80_0000) % 0x100;
    let fraction: u32 = h % 0x80_0000;
    if exponent == 0 {
        proof {
            assert(fraction * rows < pow2(88)) by (nonlinear_arith)
                requires
                    fraction < 0x80_0000,
                    rows < 0x1_0000_0000_0000_0000,
                    pow2(88) == 0x1_0000_0000_0000_0000 * 0x100_0000,
            ;
            lemma_pow2_unfold(89);
            lemma_pow2_strictly_increases(89, 149);
            lemma_round_half_up_zero(magnitude(h) * rows as nat, one());
        }
        return Some(0);
    }
    let places: u32 = 150 - exponent;
    let m: u128 = (0x80_0000 + fraction) as u128;
    proof {
        lemma_bar_len_normal(h, rows as nat);
        assert(m * rows < pow2(88)) by (nonlinear_arith)
            requires
                m < 0x100_0000,
                rows < 0x1_0000_0000_0000_0000,
                pow2(88) == 0x1_0000_0000_0000_0000 * 0x100_0000,
        ;
        lemma_pow2_unfold(89);
    }
    let product: u128 = m * (rows as u128);
    if places > 88 {
        proof {
            if places > 89 {
                lemma_pow2_strictly_increases(89, places as nat);
            }
            lemma_round_half_up_zero(significand(h) * rows as nat, pow2(places as nat));
        }
        return Some(0);
    }
    proof {
        lemma_shl_pow2(places);
        lemma_pow2_pos(places as nat);
        if places < 88 {
            lemma_pow2_strictly_increases(places as nat, 88);
        }
    }
    let den: u128 = 1u128 << places;
    let n: u128 = (2 * product + den) / (2 * den);
    Some(n as usize)
}

} // verus!
