use vstd::prelude::*;
use vstd::arithmetic::power2::{pow2, lemma2_to64, lemma2_to64_rest, lemma_pow2_pos};
use crate::dyadic::Dyadic;
use crate::error::Error;
use crate::format::{Format, RoundingMode};
use crate::power::lemma_pow2_monotone;
use crate::quantization::quantize_fix;
use crate::range::Range;
use crate::rounding::{round_div, round_ratio, lemma_round_cancel, lemma_round_exact};

verus! {

/// A fixed-point number: a grid index bound to a format, with the range
/// that the values committed to it have covered.
///
/// The number it stands for is `value / 2^frac_bits`. The grid index always
/// lies within the limits of the format, and so do both ends of the range.
#[derive(Clone, Copy, Debug)]
pub struct Ffix {
    value: i64,
    format: Format,
    range: Range,
}

/// The grid index of the product of the values with grid indices `a` and
/// `b`, quantized in `format`.
pub open spec fn product(format: Format, a: int, b: int) -> int {
    format.quantize_spec(a * b, format.spec_scale() * format.spec_scale())
}

/// The grid index of the quotient of the values with grid indices `a` and
/// `b`, quantized in `format`, for a divisor that is not zero.
pub open spec fn quotient(format: Format, a: int, b: int) -> int
    recommends
        b != 0,
{
    if b > 0 {
        format.quantize_spec(a, b)
    } else {
        format.quantize_spec(-a, -b)
    }
}

/// The grid index of the value with grid index `base` raised to the power
/// `n` by repeated quantized multiplication: `n - 1` multiplications, and
/// the base itself where `n` is at most one.
pub open spec fn power(format: Format, base: int, n: int) -> int
    decreases n,
{
    if n <= 1 {
        base
    } else {
        product(format, power(format, base, n - 1), base)
    }
}

impl Ffix {
    #[verifier::type_invariant]
    pub(crate) open spec fn inv(self) -> bool {
        self.wf()
    }

    /// The grid index of the number.
    pub closed spec fn spec_value(self) -> i64 {
        self.value
    }

    /// The format of the number.
    pub closed spec fn spec_format(self) -> Format {
        self.format
    }

    /// The range that the committed values have covered.
    pub closed spec fn spec_range(self) -> Range {
        self.range
    }

    /// The format is valid, and the grid index and both ends of the range
    /// lie within its limits, the ends on either side of zero.
    pub open spec fn wf(self) -> bool {
        let f = self.spec_format();
        &&& f.wf()
        &&& f.spec_lower_limit() <= self.spec_value() <= f.spec_upper_limit()
        &&& f.spec_lower_limit() <= self.spec_range().lower <= 0
        &&& 0 <= self.spec_range().upper <= f.spec_upper_limit()
    }

    /// A value is on the grid of its own format: quantizing the number it
    /// stands for gives it back, and so does saturating its grid index.
    pub proof fn lemma_grid_fixed(format: Format, k: int)
        requires
            format.wf(),
        ensures
            format.quantize_spec(k, format.spec_scale()) == format.saturate(k),
            format.spec_lower_limit() <= k <= format.spec_upper_limit() ==> format.quantize_spec(
                k,
                format.spec_scale(),
            ) == k,
    {
        lemma_pow2_pos(format.spec_frac_bits());
        lemma_round_exact(format.spec_rounding(), k, format.spec_scale());
    }

    /// The product of two grid values, scaled, is the ratio of the product
    /// of the grid indices by the scale.
    pub proof fn lemma_product(format: Format, a: int, b: int)
        requires
            format.wf(),
        ensures
            product(format, a, b) == format.saturate(
                round_ratio(format.spec_rounding(), a * b, format.spec_scale()),
            ),
    {
        lemma_pow2_pos(format.spec_frac_bits());
        lemma_round_cancel(format.spec_rounding(), a * b, format.spec_scale(), format.spec_scale());
    }

    /// This is a well-formed value of `format` with grid index `value` and
    /// a range to which nothing was committed.
    pub open spec fn is_fresh(self, format: Format, value: int) -> bool {
        &&& self.wf()
        &&& self.spec_format() == format
        &&& self.spec_value() == value
        &&& self.spec_range() == (Range { upper: 0, lower: 0 })
    }

    /// Quantizes the number `val` in `format`. The range starts empty at zero.
    pub fn new(val: &Dyadic, format: Format) -> (r: Ffix)
        ensures
            r.is_fresh(format, format.quantize_spec(val.num(), val.den())),
    {
        proof {
            use_type_invariant(&format);
            format.lemma_limits();
        }
        Ffix { value: quantize_fix(val, &format), format, range: Range::new() }
    }

    /// The number as a dyadic rational: `value * 2^-frac_bits`.
    pub fn to_dyadic(&self) -> (r: Dyadic)
        ensures
            r.mantissa == self.spec_value(),
            r.exponent == -self.spec_format().spec_frac_bits(),
            r.num() == self.spec_value(),
            r.den() == self.spec_format().spec_scale(),
    {
        let frac: u32 = self.format.frac_bits();
        proof {
            lemma2_to64();
            assert(self.value * pow2(0) == self.value) by (nonlinear_arith)
                requires
                    pow2(0) == 1,
            ;
        }
        Dyadic { mantissa: self.value, exponent: -(frac as i32) }
    }

    /// The number requantized in `target`, with a fresh range. A cast to
    /// the format that the number has already keeps its grid index.
    pub fn from(other: &Ffix, target: Format) -> (r: Ffix)
        ensures
            r.is_fresh(
                target,
                target.quantize_spec(other.spec_value() as int, other.spec_format().spec_scale()),
            ),
            target == other.spec_format() ==> r.spec_value() == other.spec_value(),
    {
        proof {
            use_type_invariant(other);
            Self::lemma_grid_fixed(other.format, other.value as int);
        }
        let x: Dyadic = other.to_dyadic();
        Ffix::new(&x, target)
    }

    /// The number requantized in `target`, with a fresh range. A cast to
    /// the format that the number has already keeps its grid index.
    pub fn cast(&self, target: Format) -> (r: Ffix)
        ensures
            r.is_fresh(
                target,
                target.quantize_spec(self.spec_value() as int, self.spec_format().spec_scale()),
            ),
            target == self.spec_format() ==> r.spec_value() == self.spec_value(),
    {
        Ffix::from(self, target)
    }

    /// A new value of the same format, quantized from the number `x`.
    pub fn another(&self, x: &Dyadic) -> (r: Ffix)
        ensures
            r.is_fresh(self.spec_format(), self.spec_format().quantize_spec(x.num(), x.den())),
    {
        Ffix::new(x, self.format)
    }

    /// The grid index of the number.
    pub fn value(&self) -> (r: i64)
        ensures
            r == self.spec_value(),
            self.wf(),
    {
        proof {
            use_type_invariant(self);
        }
        self.value
    }

    /// The format of the number.
    pub fn format(&self) -> (r: Format)
        ensures
            r == self.spec_format(),
            r.wf(),
    {
        proof {
            use_type_invariant(self);
        }
        self.format
    }

    /// Whether the format has a sign bit.
    pub fn signed(&self) -> (r: bool)
        ensures
            r == self.spec_format().spec_signed(),
    {
        self.format.signed()
    }

    /// The total width in bits.
    pub fn word_bits(&self) -> (r: u32)
        ensures
            r == self.spec_format().spec_word_bits(),
    {
        self.format.word_bits()
    }

    /// The width of the fraction in bits.
    pub fn frac_bits(&self) -> (r: u32)
        ensures
            r == self.spec_format().spec_frac_bits(),
    {
        self.format.frac_bits()
    }

    /// The rounding mode.
    pub fn rounding(&self) -> (r: RoundingMode)
        ensures
            r == self.spec_format().spec_rounding(),
    {
        self.format.rounding()
    }

    /// The range that the committed values have covered.
    pub fn range(&self) -> (r: Range)
        ensures
            r == self.spec_range(),
    {
        self.range
    }

    /// Commits `new` to this value: the range widens to include the grid
    /// index of `new`, which then replaces the grid index held. Where the
    /// formats differ nothing changes and `FormatMismatch` is reported.
    pub fn upd(&mut self, new: Ffix) -> (r: Result<(), Error>)
        ensures
            final(self).wf(),
            new.spec_format() == old(self).spec_format() <==> r is Ok,
            r is Err ==> r == Err::<(), Error>(Error::FormatMismatch) && *final(self) == *old(self),
            r is Ok ==> final(self).spec_format() == old(self).spec_format()
                && final(self).spec_value() == new.spec_value()
                && final(self).spec_range() == old(self).spec_range().updated(new.spec_value()),
    {
        proof {
            use_type_invariant(&*self);
            use_type_invariant(&new);
        }
        if new.format == self.format {
            let mut range: Range = self.range;
            range.update(new.value);
            *self = Ffix { value: new.value, format: self.format, range };
            Ok(())
        } else {
            Err(Error::FormatMismatch)
        }
    }

    /// The sum, quantized in the format of the operands: the sum of the grid
    /// indices, saturated. Where the formats differ `FormatMismatch` is
    /// reported.
    pub fn add(self, other: Ffix) -> (r: Result<Ffix, Error>)
        ensures
            self.spec_format() == other.spec_format() <==> r is Ok,
            r is Err ==> r->Err_0 == Error::FormatMismatch,
            r is Ok ==> {
                let f = self.spec_format();
                let sum = self.spec_value() + other.spec_value();
                &&& r->Ok_0.is_fresh(f, f.quantize_spec(sum, f.spec_scale()))
                &&& r->Ok_0.spec_value() == f.saturate(sum)
            },
    {
        let format: Format = self.format;
        if !(format == other.format) {
            return Err(Error::FormatMismatch);
        }
        let sum: i128 = self.value as i128 + other.value as i128;
        proof {
            use_type_invariant(&format);
            format.lemma_limits();
            Self::lemma_grid_fixed(format, sum as int);
        }
        Ok(Ffix { value: format.clamp(sum), format, range: Range::new() })
    }

    /// The difference, quantized in the format of the operands: the
    /// difference of the grid indices, saturated. Where the formats differ
    /// `FormatMismatch` is reported.
    pub fn sub(self, other: Ffix) -> (r: Result<Ffix, Error>)
        ensures
            self.spec_format() == other.spec_format() <==> r is Ok,
            r is Err ==> r->Err_0 == Error::FormatMismatch,
            r is Ok ==> {
                let f = self.spec_format();
                let difference = self.spec_value() - other.spec_value();
                &&& r->Ok_0.is_fresh(f, f.quantize_spec(difference, f.spec_scale()))
                &&& r->Ok_0.spec_value() == f.saturate(difference)
            },
    {
        let format: Format = self.format;
        if !(format == other.format) {
            return Err(Error::FormatMismatch);
        }
        let difference: i128 = self.value as i128 - other.value as i128;
        proof {
            use_type_invariant(&format);
            format.lemma_limits();
            Self::lemma_grid_fixed(format, difference as int);
        }
        Ok(Ffix { value: format.clamp(difference), format, range: Range::new() })
    }

    /// The product, quantized in the format of the operands. Where the
    /// formats differ `FormatMismatch` is reported.
    pub fn mul(self, other: Ffix) -> (r: Result<Ffix, Error>)
        ensures
            self.spec_format() == other.spec_format() <==> r is Ok,
            r is Err ==> r->Err_0 == Error::FormatMismatch,
            r is Ok ==> r->Ok_0.is_fresh(
                self.spec_format(),
                product(self.spec_format(), self.spec_value() as int, other.spec_value() as int),
            ),
    {
        let format: Format = self.format;
        if !(format == other.format) {
            return Err(Error::FormatMismatch);
        }
        proof {
            use_type_invariant(&format);
            format.lemma_limits();
        }
        Ok(Ffix { value: mul_raw(&format, self.value, other.value), format, range: Range::new() })
    }

    /// The quotient, quantized in the format of the operands. Where the
    /// formats differ `FormatMismatch` is reported; else, where the divisor
    /// is zero, `DivisionByZero`.
    pub fn div(self, other: Ffix) -> (r: Result<Ffix, Error>)
        ensures
            self.spec_format() == other.spec_format() && other.spec_value() != 0 <==> r is Ok,
            r is Err ==> r->Err_0 == if self.spec_format() != other.spec_format() {
                Error::FormatMismatch
            } else {
                Error::DivisionByZero
            },
            r is Ok ==> r->Ok_0.is_fresh(
                self.spec_format(),
                quotient(self.spec_format(), self.spec_value() as int, other.spec_value() as int),
            ),
    {
        let format: Format = self.format;
        if !(format == other.format) {
            return Err(Error::FormatMismatch);
        }
        if other.value == 0 {
            return Err(Error::DivisionByZero);
        }
        let mode: RoundingMode = format.rounding();
        let scale: u64 = format.scale();
        proof {
            use_type_invariant(&format);
            format.lemma_limits();
            lemma2_to64_rest();
            lemma_pow2_monotone(format.spec_frac_bits(), 62);
            let a = self.value as int;
            assert(-0x8000_0000_0000_0000 * 0x4000_0000_0000_0000 <= a * scale
                <= 0x8000_0000_0000_0000 * 0x4000_0000_0000_0000) by (nonlinear_arith)
                requires
                    -0x8000_0000_0000_0000 <= a <= 0x8000_0000_0000_0000,
                    0 <= scale <= 0x4000_0000_0000_0000,
            ;
            assert((-a) * scale == -(a * scale)) by (nonlinear_arith);
        }
        let scaled: i128 = (self.value as i128) * (scale as i128);
        let rounded: i128 = if other.value > 0 {
            round_div(mode, scaled, other.value as u128)
        } else {
            round_div(mode, -scaled, (-(other.value as i128)) as u128)
        };
        Ok(Ffix { value: format.clamp(rounded), format, range: Range::new() })
    }

    /// The negation, quantized in the format of the operand: the negated
    /// grid index, saturated.
    pub fn neg(self) -> (r: Ffix)
        ensures
            r.is_fresh(
                self.spec_format(),
                self.spec_format().quantize_spec(-self.spec_value(), self.spec_format().spec_scale()),
            ),
            r.spec_value() == self.spec_format().saturate(-self.spec_value()),
    {
        let format: Format = self.format;
        let negated: i128 = -(self.value as i128);
        proof {
            use_type_invariant(&format);
            format.lemma_limits();
            Self::lemma_grid_fixed(format, negated as int);
        }
        Ffix { value: format.clamp(negated), format, range: Range::new() }
    }

    /// The number raised to the power `exponent` by repeated quantized
    /// multiplication. With an exponent of at most one the value comes
    /// back unchanged, range included; else the range is fresh.
    pub fn pow(&self, exponent: i32) -> (r: Ffix)
        ensures
            r.wf(),
            r.spec_format() == self.spec_format(),
            r.spec_value() == power(self.spec_format(), self.spec_value() as int, exponent as int),
            exponent <= 1 ==> r == *self,
            exponent > 1 ==> r.spec_range() == (Range { upper: 0, lower: 0 }),
    {
        proof {
            use_type_invariant(self);
            self.format.lemma_limits();
        }
        if exponent <= 1 {
            return *self;
        }
        let format: Format = self.format;
        let base: i64 = self.value;
        let mut result: i64 = base;
        let mut i: i32 = 1;
        while i < exponent
            invariant
                1 <= i <= exponent,
                format.wf(),
                result == power(format, base as int, i as int),
                format.spec_lower_limit() <= result <= format.spec_upper_limit(),
            decreases exponent - i,
        {
            result = mul_raw(&format, result, base);
            i = i + 1;
        }
        Ffix { value: result, format, range: Range::new() }
    }

    /// The number one in `format`, saturated where the format cannot hold it.
    pub fn one(format: Format) -> (r: Ffix)
        ensures
            r.is_fresh(format, format.quantize_spec(1, 1)),
            r.spec_value() == format.saturate(format.spec_scale()),
    {
        proof {
            use_type_invariant(&format);
            lemma_round_exact(format.spec_rounding(), format.spec_scale(), 1);
            assert(1 * format.spec_scale() == format.spec_scale() * 1);
        }
        let unit: Dyadic = Dyadic::from_int(1);
        Ffix::new(&unit, format)
    }

    /// The number zero in `format`.
    pub fn zero(format: Format) -> (r: Ffix)
        ensures
            r.is_fresh(format, 0),
    {
        proof {
            use_type_invariant(&format);
            format.lemma_limits();
        }
        Ffix { value: 0, format, range: Range::new() }
    }

    /// Whether the number is zero: whether its magnitude is below one grid
    /// step.
    pub fn is_zero(&self) -> (r: bool)
        ensures
            r == (self.spec_value() == 0),
    {
        self.value == 0
    }

    /// The grid indices of this number and of `other`, each scaled by the
    /// resolution of the other's format: two integers that stand in the
    /// same order as the two numbers.
    pub open spec fn spec_common(self, other: Ffix) -> (int, int) {
        (
            self.spec_value() * other.spec_format().spec_scale(),
            other.spec_value() * self.spec_format().spec_scale(),
        )
    }

    /// The two numbers are equal, whatever their formats and ranges.
    pub open spec fn same_number(self, other: Ffix) -> bool {
        self.spec_common(other).0 == self.spec_common(other).1
    }

    /// This number is less than `other`, whatever their formats and ranges.
    pub open spec fn below(self, other: Ffix) -> bool {
        self.spec_common(other).0 < self.spec_common(other).1
    }

    /// The grid indices of this number and of `other`, each scaled by the
    /// resolution of the other's format.
    pub fn common(&self, other: &Ffix) -> (r: (i128, i128))
        ensures
            r.0 == self.spec_common(*other).0,
            r.1 == self.spec_common(*other).1,
    {
        let mine: u64 = self.format.scale();
        let theirs: u64 = other.format.scale();
        proof {
            use_type_invariant(self);
            use_type_invariant(other);
            lemma2_to64_rest();
            lemma_pow2_monotone(self.format.spec_frac_bits(), 62);
            lemma_pow2_monotone(other.format.spec_frac_bits(), 62);
            let a = self.value as int;
            let b = other.value as int;
            assert(-0x8000_0000_0000_0000 * 0x4000_0000_0000_0000 <= a * theirs
                <= 0x8000_0000_0000_0000 * 0x4000_0000_0000_0000) by (nonlinear_arith)
                requires
                    -0x8000_0000_0000_0000 <= a <= 0x8000_0000_0000_0000,
                    0 <= theirs <= 0x4000_0000_0000_0000,
            ;
            assert(-0x8000_0000_0000_0000 * 0x4000_0000_0000_0000 <= b * mine
                <= 0x8000_0000_0000_0000 * 0x4000_0000_0000_0000) by (nonlinear_arith)
                requires
                    -0x8000_0000_0000_0000 <= b <= 0x8000_0000_0000_0000,
                    0 <= mine <= 0x4000_0000_0000_0000,
            ;
        }
        ((self.value as i128) * (theirs as i128), (other.value as i128) * (mine as i128))
    }

    /// Two values of one format are equal exactly where their grid indices
    /// are, and stand in the order of their grid indices.
    pub proof fn lemma_same_format_order(self, other: Ffix)
        requires
            self.spec_format().wf(),
            self.spec_format() == other.spec_format(),
        ensures
            self.same_number(other) <==> self.spec_value() == other.spec_value(),
            self.below(other) <==> self.spec_value() < other.spec_value(),
    {
        let scale = self.spec_format().spec_scale();
        let a = self.spec_value() as int;
        let b = other.spec_value() as int;
        lemma_pow2_pos(self.spec_format().spec_frac_bits());
        assert((a * scale == b * scale <==> a == b) && (a * scale < b * scale <==> a < b))
            by (nonlinear_arith)
            requires
                scale > 0,
        ;
    }
}

/// The grid index of the quantized product of two grid values of `format`.
fn mul_raw(format: &Format, a: i64, b: i64) -> (r: i64)
    ensures
        r == product(*format, a as int, b as int),
        format.spec_lower_limit() <= r <= format.spec_upper_limit(),
{
    let mode: RoundingMode = format.rounding();
    let scale: u64 = format.scale();
    proof {
        use_type_invariant(format);
        format.lemma_limits();
        Ffix::lemma_product(*format, a as int, b as int);
        assert(-0x8000_0000_0000_0000 * 0x8000_0000_0000_0000 <= a * b
            <= 0x8000_0000_0000_0000 * 0x8000_0000_0000_0000) by (nonlinear_arith)
            requires
                -0x8000_0000_0000_0000 <= a <= 0x8000_0000_0000_0000,
                -0x8000_0000_0000_0000 <= b <= 0x8000_0000_0000_0000,
        ;
    }
    let exact: i128 = (a as i128) * (b as i128);
    let rounded: i128 = round_div(mode, exact, scale as u128);
    format.clamp(rounded)
}

} // verus!
