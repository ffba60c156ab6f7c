use vstd::prelude::*;
use vstd::arithmetic::power2::{pow2, lemma2_to64, lemma2_to64_rest, lemma_pow2_adds, lemma_pow2_pos};
use crate::dyadic::Dyadic;
use crate::format::{Format, RoundingMode};
use crate::power::{lemma_pow2_monotone, pow2_u128};
use crate::rounding::{
    round_div, round_ratio, lemma_round_cancel, lemma_round_error, lemma_round_exact,
    lemma_round_monotone, lemma_round_small,
};

verus! {

/// The full-scale magnitude of a format and the grid indices of its upper
/// and lower limits, in this order.
pub fn compute_lims(format: &Format) -> (r: (u64, i64, i64))
    ensures
        r.0 == format.spec_full_scale(),
        r.1 == format.spec_upper_limit(),
        r.2 == format.spec_lower_limit(),
{
    (format.full_scale(), format.upper_limit(), format.lower_limit())
}

/// What a dyadic number scaled by `2^frac_bits` rounds to, before
/// saturation: with `shift = exponent + frac_bits`, the integer
/// `mantissa * 2^shift` where the shift is not negative, else the rounded
/// ratio of the mantissa by `2^-shift`.
pub open spec fn scaled_round(mode: RoundingMode, x: Dyadic, frac_bits: nat) -> int {
    let shift = x.exponent + frac_bits;
    if shift >= 0 {
        x.mantissa * pow2(shift as nat)
    } else {
        round_ratio(mode, x.mantissa as int, pow2((-shift) as nat) as int)
    }
}

/// Scaling a dyadic number by a power of two moves its exponent, so the
/// rounding of the scaled number is `scaled_round`.
pub proof fn lemma_scaled_round(mode: RoundingMode, x: Dyadic, frac_bits: nat)
    ensures
        x.den() > 0,
        round_ratio(mode, x.num() * pow2(frac_bits), x.den()) == scaled_round(mode, x, frac_bits),
{
    let m = x.mantissa as int;
    let shift = x.exponent + frac_bits;
    let scale = pow2(frac_bits) as int;
    lemma_pow2_pos(frac_bits);
    lemma2_to64();
    if x.exponent >= 0 {
        let e = x.exponent as nat;
        lemma_pow2_adds(e, frac_bits);
        let whole = m * pow2(shift as nat);
        assert(x.num() * scale == whole * 1) by (nonlinear_arith)
            requires
                x.num() == m * pow2(e),
                scale == pow2(frac_bits),
                pow2(e) * pow2(frac_bits) == pow2(shift as nat),
                whole == m * pow2(shift as nat),
        ;
        lemma_round_exact(mode, whole, 1);
    } else {
        let down = (-x.exponent) as nat;
        lemma_pow2_pos(down);
        if shift >= 0 {
            lemma_pow2_adds(shift as nat, down);
            let whole = m * pow2(shift as nat);
            assert(x.num() * scale == whole * x.den()) by (nonlinear_arith)
                requires
                    x.num() == m,
                    x.den() == pow2(down),
                    scale == pow2(frac_bits),
                    pow2(shift as nat) * pow2(down) == pow2(frac_bits),
                    whole == m * pow2(shift as nat),
            ;
            lemma_round_exact(mode, whole, x.den());
        } else {
            let rest = (-shift) as nat;
            lemma_pow2_adds(rest, frac_bits);
            lemma_pow2_pos(rest);
            assert(x.den() == pow2(rest) * scale);
            lemma_round_cancel(mode, m, pow2(rest) as int, scale);
        }
    }
}

/// Saturation brings every grid index within the limits, leaves one that
/// is within them as it is, and puts one beyond a limit on that limit.
pub proof fn lemma_saturate(format: Format, k: int)
    requires
        format.wf(),
    ensures
        format.spec_lower_limit() <= format.saturate(k) <= format.spec_upper_limit(),
        format.spec_lower_limit() <= k <= format.spec_upper_limit() ==> format.saturate(k) == k,
        k > format.spec_upper_limit() ==> format.saturate(k) == format.spec_upper_limit(),
        k < format.spec_lower_limit() ==> format.saturate(k) == format.spec_lower_limit(),
{
    format.lemma_limits();
}

/// A quantized value lies within the limits of its format, whatever was
/// quantized.
pub proof fn lemma_quantize_bounded(format: Format, num: int, den: int)
    requires
        format.wf(),
    ensures
        format.spec_lower_limit() <= format.quantize_spec(num, den) <= format.spec_upper_limit(),
{
    format.lemma_limits();
}

/// Quantizing a quantized value changes nothing: the number that the grid
/// index `quantize_spec(num, den)` stands for quantizes to that grid index.
pub proof fn lemma_quantize_idempotent(format: Format, num: int, den: int)
    requires
        format.wf(),
    ensures
        format.quantize_spec(format.quantize_spec(num, den), format.spec_scale())
            == format.quantize_spec(num, den),
{
    format.lemma_limits();
    lemma_round_exact(format.spec_rounding(), format.quantize_spec(num, den), format.spec_scale());
}

/// Quantization keeps the order of two numbers given over one denominator.
pub proof fn lemma_quantize_monotone(format: Format, n1: int, n2: int, den: int)
    requires
        format.wf(),
        den > 0,
        n1 <= n2,
    ensures
        format.quantize_spec(n1, den) <= format.quantize_spec(n2, den),
{
    format.lemma_limits();
    let scale = format.spec_scale();
    assert(n1 * scale <= n2 * scale) by (nonlinear_arith)
        requires
            n1 <= n2,
            scale >= 1,
    ;
    lemma_round_monotone(format.spec_rounding(), n1 * scale, n2 * scale, den);
}

/// Where nothing saturates, the quantized value lies less than one grid
/// step from the number: with `k` the result, `k / scale` differs from
/// `num / den` by less than `1 / scale`.
pub proof fn lemma_quantize_error(format: Format, num: int, den: int)
    requires
        format.wf(),
        den > 0,
        format.spec_lower_limit() <= round_ratio(format.spec_rounding(), num * format.spec_scale(), den)
            <= format.spec_upper_limit(),
    ensures
        -den < format.quantize_spec(num, den) * den - num * format.spec_scale() < den,
{
    lemma_round_error(format.spec_rounding(), num * format.spec_scale(), den);
}

/// A cast from `narrow` to a format that covers it is exact, and the cast
/// back gives the first grid index again, whatever the two rounding modes.
/// The grid index in the wider format is the first one times the ratio of
/// the two resolutions.
///
/// A cast to a format that does not cover `narrow` may round or saturate,
/// and then the way back is lost.
pub proof fn lemma_cast_round_trip(narrow: Format, wide: Format, k: int)
    requires
        narrow.wf(),
        wide.wf(),
        wide.covers(narrow),
        narrow.spec_lower_limit() <= k <= narrow.spec_upper_limit(),
    ensures
        wide.quantize_spec(k, narrow.spec_scale()) == k * pow2(
            (wide.spec_frac_bits() - narrow.spec_frac_bits()) as nat,
        ),
        narrow.quantize_spec(wide.quantize_spec(k, narrow.spec_scale()), wide.spec_scale()) == k,
{
    let extra = (wide.spec_frac_bits() - narrow.spec_frac_bits()) as nat;
    let more = (wide.spec_int_bits() - narrow.spec_int_bits()) as nat;
    let ratio = pow2(extra) as int;
    let ns = narrow.spec_scale();
    let ws = wide.spec_scale();
    let nf = narrow.spec_full_scale();
    let wf = wide.spec_full_scale();
    let room = pow2(more) as int;
    narrow.lemma_limits();
    wide.lemma_limits();
    lemma_pow2_pos(extra);
    lemma_pow2_pos(more);
    lemma_pow2_adds(extra, narrow.spec_frac_bits());
    lemma_pow2_adds(more, narrow.spec_int_bits());
    let widened = k * ratio;
    // the grid index in the wide format is exact
    assert(k * ws == widened * ns) by (nonlinear_arith)
        requires
            ws == ratio * ns,
            widened == k * ratio,
    ;
    lemma_round_exact(wide.spec_rounding(), widened, ns);
    // and lies within the limits of the wide format
    assert(-(wf * ws) <= widened <= wf * ws - 1 && (k >= 0 ==> widened >= 0)) by (nonlinear_arith)
        requires
            widened == k * ratio,
            -(nf * ns) <= k <= nf * ns - 1,
            ws == ratio * ns,
            wf == room * nf,
            ratio >= 1,
            room >= 1,
            nf >= 1,
            ns >= 1,
    ;
    assert(wide.saturate(widened) == widened);
    // the way back is exact too
    assert(widened * ns == k * ws) by (nonlinear_arith)
        requires
            ws == ratio * ns,
            widened == k * ratio,
    ;
    lemma_round_exact(narrow.spec_rounding(), k, ws);
}

/// Quantizes the number `x` in `format`: scales it by the resolution of the
/// format, rounds it as the format asks, and saturates it at the limits.
/// The result is the grid index of the quantized value.
pub fn quantize_fix(x: &Dyadic, format: &Format) -> (k: i64)
    ensures
        k == format.quantize_spec(x.num(), x.den()),
        format.spec_lower_limit() <= k <= format.spec_upper_limit(),
{
    let mode: RoundingMode = format.rounding();
    let frac: u32 = format.frac_bits();
    let mantissa: i64 = x.mantissa;
    let shift: i64 = x.exponent as i64 + frac as i64;
    proof {
        use_type_invariant(format);
        format.lemma_limits();
        lemma_scaled_round(mode, *x, frac as nat);
        lemma2_to64();
        lemma2_to64_rest();
    }
    if shift >= 63 {
        proof {
            lemma_pow2_monotone(63, shift as nat);
            let p = pow2(shift as nat) as int;
            let m = mantissa as int;
            assert(m > 0 ==> m * p >= 0x8000_0000_0000_0000) by (nonlinear_arith)
                requires p >= 0x8000_0000_0000_0000;
            assert(m < 0 ==> m * p <= -0x8000_0000_0000_0000) by (nonlinear_arith)
                requires p >= 0x8000_0000_0000_0000;
            assert(m == 0 ==> m * p == 0) by (nonlinear_arith);
        }
        if mantissa > 0 {
            format.upper_limit()
        } else if mantissa < 0 {
            format.lower_limit()
        } else {
            0
        }
    } else if shift >= 0 {
        let factor: u128 = pow2_u128(shift as u32);
        proof {
            lemma_pow2_monotone(shift as nat, 62);
            assert(-0x8000_0000_0000_0000 * 0x4000_0000_0000_0000 <= mantissa * factor
                <= 0x8000_0000_0000_0000 * 0x4000_0000_0000_0000) by (nonlinear_arith)
                requires
                    -0x8000_0000_0000_0000 <= mantissa <= 0x8000_0000_0000_0000,
                    0 <= factor <= 0x4000_0000_0000_0000,
            ;
        }
        let scaled: i128 = (mantissa as i128) * (factor as i128);
        format.clamp(scaled)
    } else if shift >= -64 {
        let den: u128 = pow2_u128((-shift) as u32);
        proof {
            lemma_pow2_monotone((-shift) as nat, 64);
        }
        let rounded: i128 = round_div(mode, mantissa as i128, den);
        format.clamp(rounded)
    } else {
        proof {
            lemma_pow2_monotone(65, (-shift) as nat);
            lemma_pow2_adds(64, 1);
            lemma_round_small(mode, mantissa as int, pow2((-shift) as nat) as int);
        }
        let rounded: i128 = match mode {
            RoundingMode::Floor => if mantissa < 0 { -1 } else { 0 },
            RoundingMode::Ceiling => if mantissa > 0 { 1 } else { 0 },
            RoundingMode::TowardZero => 0,
            RoundingMode::AwayFromZero => 0,
        };
        format.clamp(rounded)
    }
}

} // verus!
