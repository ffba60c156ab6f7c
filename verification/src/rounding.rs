use vstd::prelude::*;
use vstd::arithmetic::div_mod::lemma_fundamental_div_mod_converse;
use crate::format::RoundingMode;

verus! {

/// The largest magnitude of a numerator, and the largest denominator, that
/// `round_div` accepts: two to the power 126.
pub const MAX_RATIO_PART: u128 = 0x4000_0000_0000_0000_0000_0000_0000_0000u128;

/// The integer that `mode` picks for the rational number `num / den`.
///
/// `Floor` and `Ceiling` take the nearest integer below and above.
/// `TowardZero` and `AwayFromZero` take the nearest integer and differ only
/// on a tie, where the value lies halfway between two integers.
pub open spec fn round_ratio(mode: RoundingMode, num: int, den: int) -> int
    recommends
        den > 0,
{
    match mode {
        RoundingMode::Floor => num / den,
        RoundingMode::Ceiling => -((-num) / den),
        RoundingMode::TowardZero => if num >= 0 {
            (2 * num + den - 1) / (2 * den)
        } else {
            -((2 * (-num) + den - 1) / (2 * den))
        },
        RoundingMode::AwayFromZero => if num >= 0 {
            (2 * num + den) / (2 * den)
        } else {
            -((2 * (-num) + den) / (2 * den))
        },
    }
}

/// The rounded magnitude, given the quotient `q` and the remainder `rem` of
/// the magnitude of the numerator by the denominator.
pub open spec fn round_parts(mode: RoundingMode, negative: bool, q: int, rem: int, den: int) -> int {
    match mode {
        RoundingMode::Floor => if negative && rem > 0 { q + 1 } else { q },
        RoundingMode::Ceiling => if !negative && rem > 0 { q + 1 } else { q },
        RoundingMode::TowardZero => if 2 * rem > den { q + 1 } else { q },
        RoundingMode::AwayFromZero => if 2 * rem >= den { q + 1 } else { q },
    }
}

proof fn lemma_div_parts(x: int, d: int, q: int, r: int)
    requires
        d > 0,
        0 <= r < d,
        x == q * d + r,
    ensures
        x / d == q,
{
    lemma_fundamental_div_mod_converse(x, d, q, r);
}

proof fn lemma_neg_div_parts(a: int, d: int, q: int, r: int)
    requires
        d > 0,
        0 <= r < d,
        a == q * d + r,
    ensures
        (-a) / d == if r > 0 { -q - 1 } else { -q },
{
    if r > 0 {
        assert(-a == (-q - 1) * d + (d - r)) by (nonlinear_arith)
            requires a == q * d + r;
        lemma_fundamental_div_mod_converse(-a, d, -q - 1, d - r);
    } else {
        assert(-a == (-q) * d + 0) by (nonlinear_arith)
            requires a == q * d + r, r == 0;
        lemma_fundamental_div_mod_converse(-a, d, -q, 0);
    }
}

proof fn lemma_half_parts(a: int, d: int, q: int, r: int, bias: int)
    requires
        d > 0,
        0 <= r < d,
        a == q * d + r,
        bias == d - 1 || bias == d,
    ensures
        (2 * a + bias) / (2 * d) == if 2 * r + bias >= 2 * d { q + 1 } else { q },
{
    if 2 * r + bias >= 2 * d {
        assert(2 * a + bias == (q + 1) * (2 * d) + (2 * r + bias - 2 * d)) by (nonlinear_arith)
            requires a == q * d + r;
        lemma_fundamental_div_mod_converse(2 * a + bias, 2 * d, q + 1, 2 * r + bias - 2 * d);
    } else {
        assert(2 * a + bias == q * (2 * d) + (2 * r + bias)) by (nonlinear_arith)
            requires a == q * d + r;
        lemma_fundamental_div_mod_converse(2 * a + bias, 2 * d, q, 2 * r + bias);
    }
}

/// Rounding a ratio amounts to rounding the magnitude of its numerator,
/// split into quotient and remainder, and putting the sign back.
pub proof fn lemma_round_from_parts(mode: RoundingMode, num: int, den: int, q: int, rem: int)
    requires
        den > 0,
        0 <= rem < den,
        (if num < 0 { -num } else { num }) == q * den + rem,
    ensures
        round_ratio(mode, num, den) == if num < 0 {
            -round_parts(mode, true, q, rem, den)
        } else {
            round_parts(mode, false, q, rem, den)
        },
{
    let a = if num < 0 { -num } else { num };
    match mode {
        RoundingMode::Floor => {
            if num < 0 {
                lemma_neg_div_parts(a, den, q, rem);
            } else {
                lemma_div_parts(a, den, q, rem);
            }
        },
        RoundingMode::Ceiling => {
            if num < 0 {
                lemma_div_parts(a, den, q, rem);
            } else {
                lemma_neg_div_parts(a, den, q, rem);
            }
        },
        RoundingMode::TowardZero => {
            lemma_half_parts(a, den, q, rem, den - 1);
        },
        RoundingMode::AwayFromZero => {
            lemma_half_parts(a, den, q, rem, den);
        },
    }
}

/// A ratio whose numerator is a multiple of its denominator is an integer,
/// and every mode leaves it as it is.
pub proof fn lemma_round_exact(mode: RoundingMode, m: int, den: int)
    requires
        den > 0,
    ensures
        round_ratio(mode, m * den, den) == m,
{
    let num = m * den;
    let q = if m < 0 { -m } else { m };
    assert(num < 0 <==> m < 0) by (nonlinear_arith)
        requires num == m * den, den > 0;
    assert((if num < 0 { -num } else { num }) == q * den + 0) by (nonlinear_arith)
        requires num == m * den, q == (if m < 0 { -m } else { m }), num < 0 <==> m < 0;
    lemma_round_from_parts(mode, num, den, q, 0);
}

/// Scaling numerator and denominator by one positive factor changes no
/// rounded result.
pub proof fn lemma_round_cancel(mode: RoundingMode, num: int, den: int, c: int)
    requires
        den > 0,
        c > 0,
    ensures
        round_ratio(mode, num * c, den * c) == round_ratio(mode, num, den),
{
    let a = if num < 0 { -num } else { num };
    let q = a / den;
    let rem = a % den;
    vstd::arithmetic::div_mod::lemma_fundamental_div_mod(a, den);
    vstd::arithmetic::div_mod::lemma_mod_bound(a, den);
    vstd::arithmetic::mul::lemma_mul_is_commutative(q, den);
    lemma_round_from_parts(mode, num, den, q, rem);
    let num2 = num * c;
    let den2 = den * c;
    let rem2 = rem * c;
    assert(num2 < 0 <==> num < 0) by (nonlinear_arith)
        requires num2 == num * c, c > 0;
    assert(den2 > 0) by (nonlinear_arith)
        requires den2 == den * c, c > 0, den > 0;
    assert((if num2 < 0 { -num2 } else { num2 }) == q * den2 + rem2) by (nonlinear_arith)
        requires
            num2 == num * c,
            den2 == den * c,
            rem2 == rem * c,
            a == q * den + rem,
            a == (if num < 0 { -num } else { num }),
            num2 < 0 <==> num < 0;
    assert(0 <= rem2 < den2 && (rem2 > 0 <==> rem > 0) && (2 * rem2 > den2 <==> 2 * rem > den)
        && (2 * rem2 >= den2 <==> 2 * rem >= den)) by (nonlinear_arith)
        requires den2 == den * c, rem2 == rem * c, c > 0, 0 <= rem < den;
    lemma_round_from_parts(mode, num2, den2, q, rem2);
}

/// A ratio of magnitude below one half rounds to zero, but for `Floor` on a
/// negative and `Ceiling` on a positive ratio.
pub proof fn lemma_round_small(mode: RoundingMode, num: int, den: int)
    requires
        den > 0,
        -den < 2 * num < den,
    ensures
        round_ratio(mode, num, den) == match mode {
            RoundingMode::Floor => if num < 0 { -1int } else { 0 },
            RoundingMode::Ceiling => if num > 0 { 1int } else { 0 },
            RoundingMode::TowardZero => 0,
            RoundingMode::AwayFromZero => 0,
        },
{
    let a = if num < 0 { -num } else { num };
    assert(a == 0 * den + a) by (nonlinear_arith);
    lemma_round_from_parts(mode, num, den, 0, a);
}

/// The rounded value lies less than one unit from the ratio; for
/// `TowardZero` and `AwayFromZero` it lies at most half a unit from it.
/// `Floor` never exceeds the ratio and `Ceiling` never falls below it. On a
/// tie `TowardZero` takes the integer of smaller magnitude and `AwayFromZero`
/// the one of larger magnitude.
pub proof fn lemma_round_error(mode: RoundingMode, num: int, den: int)
    requires
        den > 0,
    ensures
        ({
            let r = round_ratio(mode, num, den);
            let err = r * den - num;
            &&& -den < err < den
            &&& mode == RoundingMode::Floor ==> err <= 0
            &&& mode == RoundingMode::Ceiling ==> err >= 0
            &&& mode == RoundingMode::TowardZero ==> -den <= 2 * err <= den && (num >= 0 ==> 2 * err
                != den) && (num < 0 ==> 2 * err != -den)
            &&& mode == RoundingMode::AwayFromZero ==> -den <= 2 * err <= den && (num >= 0 ==> 2
                * err != -den) && (num < 0 ==> 2 * err != den)
        }),
{
    let a = if num < 0 { -num } else { num };
    let q = a / den;
    let rem = a % den;
    vstd::arithmetic::div_mod::lemma_fundamental_div_mod(a, den);
    vstd::arithmetic::div_mod::lemma_mod_bound(a, den);
    vstd::arithmetic::mul::lemma_mul_is_commutative(q, den);
    lemma_round_from_parts(mode, num, den, q, rem);
    let r = round_ratio(mode, num, den);
    let p = round_parts(mode, num < 0, q, rem, den);
    assert(p * den == q * den + (p - q) * den) by (nonlinear_arith);
    assert((p - q) * den == if p == q { 0 } else { den }) by (nonlinear_arith)
        requires p == q || p == q + 1;
    assert((-p) * den == -(p * den)) by (nonlinear_arith);
}

/// Rounding keeps the order of two ratios over one denominator.
pub proof fn lemma_round_monotone(mode: RoundingMode, n1: int, n2: int, den: int)
    requires
        den > 0,
        n1 <= n2,
    ensures
        round_ratio(mode, n1, den) <= round_ratio(mode, n2, den),
{
    let r1 = round_ratio(mode, n1, den);
    let r2 = round_ratio(mode, n2, den);
    lemma_round_error(mode, n1, den);
    lemma_round_error(mode, n2, den);
    if r1 > r2 {
        // the two errors would then lie a whole unit apart
        assert(r1 * den >= r2 * den + den) by (nonlinear_arith)
            requires
                r1 >= r2 + 1,
                den > 0,
        ;
        assert((r1 * den - n1) - (r2 * den - n2) >= den);
    }
}

/// Rounds the rational number `num / den` to an integer as `mode` asks.
pub fn round_div(mode: RoundingMode, num: i128, den: u128) -> (r: i128)
    requires
        0 < den <= MAX_RATIO_PART,
        -(MAX_RATIO_PART as int) <= num <= MAX_RATIO_PART as int,
    ensures
        r == round_ratio(mode, num as int, den as int),
{
    let negative: bool = num < 0;
    let magnitude: u128 = if negative { (-num) as u128 } else { num as u128 };
    let q: u128 = magnitude / den;
    let rem: u128 = magnitude % den;
    proof {
        vstd::arithmetic::div_mod::lemma_fundamental_div_mod(magnitude as int, den as int);
        vstd::arithmetic::div_mod::lemma_div_is_ordered_by_denominator(magnitude as int, 1, den as int);
        vstd::arithmetic::mul::lemma_mul_is_commutative(q as int, den as int);
        lemma_round_from_parts(mode, num as int, den as int, q as int, rem as int);
    }
    let up: bool = match mode {
        RoundingMode::Floor => negative && rem > 0,
        RoundingMode::Ceiling => !negative && rem > 0,
        RoundingMode::TowardZero => 2 * rem > den,
        RoundingMode::AwayFromZero => 2 * rem >= den,
    };
    let rounded: u128 = if up { q + 1 } else { q };
    if negative {
        -(rounded as i128)
    } else {
        rounded as i128
    }
}

} // verus!
