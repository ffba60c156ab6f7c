use vstd::prelude::*;
use vstd::arithmetic::power2::{pow2, lemma2_to64, lemma2_to64_rest, lemma_pow2_adds};
use crate::error::Error;
use crate::power::{lemma_pow2_monotone, pow2_u64};
use crate::rounding::round_ratio;

verus! {

/// The widest word that a format may describe: grid indices are held in
/// 64-bit signed integers.
pub const MAX_WORD_BITS: u32 = 63;

/// How a scaled value that lies between two grid points is moved onto the grid.
#[derive(Clone, Copy, Debug, PartialEq, Eq, Structural)]
pub enum RoundingMode {
    /// The nearest grid point below.
    Floor,
    /// The nearest grid point above.
    Ceiling,
    /// The nearest grid point; on a tie, the one nearer to zero.
    TowardZero,
    /// The nearest grid point; on a tie, the one farther from zero.
    AwayFromZero,
}

/// An immutable description of a fixed-point representation: signedness,
/// total width, fractional width and rounding mode.
///
/// A value of a format is an integer `k`, its grid index; the number it
/// stands for is `k / 2^frac_bits`. Limits are given as grid indices too.
#[derive(Clone, Copy, Debug, PartialEq, Eq, Structural)]
pub struct Format {
    signed: bool,
    word_bits: u32,
    frac_bits: u32,
    rounding: RoundingMode,
}

impl Format {
    #[verifier::type_invariant]
    pub(crate) open spec fn inv(self) -> bool {
        self.wf()
    }

    pub closed spec fn spec_signed(self) -> bool {
        self.signed
    }

    pub closed spec fn spec_word_bits(self) -> nat {
        self.word_bits as nat
    }

    pub closed spec fn spec_frac_bits(self) -> nat {
        self.frac_bits as nat
    }

    pub closed spec fn spec_rounding(self) -> RoundingMode {
        self.rounding
    }

    /// The fractional width is strictly less than the word width, and the
    /// word fits the machine.
    pub open spec fn wf(self) -> bool {
        self.spec_frac_bits() < self.spec_word_bits() <= MAX_WORD_BITS
    }

    /// The number of bits left of the binary point, the sign bit not counted.
    pub open spec fn spec_int_bits(self) -> nat {
        (self.spec_word_bits() - self.spec_frac_bits() - if self.spec_signed() { 1int } else { 0 }) as nat
    }

    /// The number of grid points per unit: two to the power `frac_bits`.
    pub open spec fn spec_scale(self) -> int {
        pow2(self.spec_frac_bits()) as int
    }

    /// The full-scale magnitude: two to the power of the integer bits.
    pub open spec fn spec_full_scale(self) -> int {
        pow2(self.spec_int_bits()) as int
    }

    /// The grid index of the largest value: one grid step below full scale.
    pub open spec fn spec_upper_limit(self) -> int {
        self.spec_full_scale() * self.spec_scale() - 1
    }

    /// The grid index of the smallest value: minus full scale for a signed
    /// format, zero for an unsigned one.
    pub open spec fn spec_lower_limit(self) -> int {
        if self.spec_signed() {
            -(self.spec_full_scale() * self.spec_scale())
        } else {
            0
        }
    }

    /// The grid index `k`, clamped to the limits of the format.
    pub open spec fn saturate(self, k: int) -> int {
        if k > self.spec_upper_limit() {
            self.spec_upper_limit()
        } else if k < self.spec_lower_limit() {
            self.spec_lower_limit()
        } else {
            k
        }
    }

    /// The grid index of the rational number `num / den` in this format:
    /// scaled by the resolution, rounded, then saturated.
    pub open spec fn quantize_spec(self, num: int, den: int) -> int
        recommends
            den > 0,
    {
        self.saturate(round_ratio(self.spec_rounding(), num * self.spec_scale(), den))
    }

    /// Every value of `narrow` is a value of this format too: this format
    /// has at least the fraction bits and at least the integer bits of
    /// `narrow`, and a sign bit where `narrow` has one.
    pub open spec fn covers(self, narrow: Format) -> bool {
        &&& self.spec_frac_bits() >= narrow.spec_frac_bits()
        &&& self.spec_int_bits() >= narrow.spec_int_bits()
        &&& narrow.spec_signed() ==> self.spec_signed()
    }

    /// The limits in closed form: the grid has `2^word_bits` points, and a
    /// signed format puts half of them below zero.
    pub proof fn lemma_limits(self)
        requires
            self.wf(),
        ensures
            self.spec_scale() >= 1,
            self.spec_full_scale() >= 1,
            self.spec_signed() ==> self.spec_upper_limit() == pow2((self.spec_word_bits() - 1) as nat) - 1
                && self.spec_lower_limit() == -pow2((self.spec_word_bits() - 1) as nat),
            !self.spec_signed() ==> self.spec_upper_limit() == pow2(self.spec_word_bits()) - 1
                && self.spec_lower_limit() == 0,
            self.spec_upper_limit() - self.spec_lower_limit() == pow2(self.spec_word_bits()) - 1,
            self.spec_upper_limit() > self.spec_lower_limit(),
            -0x4000_0000_0000_0000 <= self.spec_lower_limit() <= 0 <= self.spec_upper_limit()
                < 0x8000_0000_0000_0000,
    {
        lemma2_to64();
        lemma2_to64_rest();
        lemma_pow2_adds(self.spec_int_bits(), self.spec_frac_bits());
        lemma_pow2_monotone(0, self.spec_frac_bits());
        lemma_pow2_monotone(0, self.spec_int_bits());
        if self.spec_signed() {
            lemma_pow2_adds((self.spec_word_bits() - 1) as nat, 1);
            lemma_pow2_monotone((self.spec_word_bits() - 1) as nat, 62);
        } else {
            lemma_pow2_monotone(self.spec_word_bits(), 63);
        }
        lemma_pow2_monotone(0, (self.spec_int_bits() + self.spec_frac_bits()) as nat);
        lemma_pow2_monotone(1, self.spec_word_bits());
    }

    /// Makes a format, or reports `InvalidFormat` where the fractional width
    /// is not strictly less than the word width.
    pub fn new(signed: bool, word_bits: u32, frac_bits: u32, rounding: RoundingMode) -> (r: Result<
        Format,
        Error,
    >)
        requires
            word_bits <= MAX_WORD_BITS,
        ensures
            frac_bits >= word_bits <==> r is Err,
            r is Err ==> r == Err::<Format, Error>(Error::InvalidFormat),
            r is Ok ==> {
                let f = r->Ok_0;
                &&& f.wf()
                &&& f.spec_signed() == signed
                &&& f.spec_word_bits() == word_bits
                &&& f.spec_frac_bits() == frac_bits
                &&& f.spec_rounding() == rounding
            },
    {
        if frac_bits >= word_bits {
            Err(Error::InvalidFormat)
        } else {
            Ok(Format { signed, word_bits, frac_bits, rounding })
        }
    }

    /// Whether the format has a sign bit.
    pub fn signed(&self) -> (r: bool)
        ensures
            r == self.spec_signed(),
    {
        self.signed
    }

    /// The total width in bits.
    pub fn word_bits(&self) -> (r: u32)
        ensures
            r == self.spec_word_bits(),
            self.wf(),
    {
        proof {
            use_type_invariant(self);
        }
        self.word_bits
    }

    /// The width of the fraction in bits.
    pub fn frac_bits(&self) -> (r: u32)
        ensures
            r == self.spec_frac_bits(),
            self.wf(),
    {
        proof {
            use_type_invariant(self);
        }
        self.frac_bits
    }

    /// The rounding mode.
    pub fn rounding(&self) -> (r: RoundingMode)
        ensures
            r == self.spec_rounding(),
    {
        self.rounding
    }

    /// The number of grid points per unit.
    pub fn scale(&self) -> (r: u64)
        ensures
            r == self.spec_scale(),
    {
        proof {
            use_type_invariant(self);
        }
        pow2_u64(self.frac_bits)
    }

    /// The full-scale magnitude.
    pub fn full_scale(&self) -> (r: u64)
        ensures
            r == self.spec_full_scale(),
    {
        proof {
            use_type_invariant(self);
        }
        let sign_bits: u32 = if self.signed { 1 } else { 0 };
        pow2_u64(self.word_bits - self.frac_bits - sign_bits)
    }

    /// The grid index of the largest value.
    pub fn upper_limit(&self) -> (r: i64)
        ensures
            r == self.spec_upper_limit(),
    {
        proof {
            use_type_invariant(self);
            self.lemma_limits();
        }
        let sign_bits: u32 = if self.signed { 1 } else { 0 };
        let points: u64 = pow2_u64(self.word_bits - sign_bits);
        (points - 1) as i64
    }

    /// The grid index of the smallest value.
    pub fn lower_limit(&self) -> (r: i64)
        ensures
            r == self.spec_lower_limit(),
    {
        proof {
            use_type_invariant(self);
            self.lemma_limits();
        }
        if self.signed {
            let half: u64 = pow2_u64(self.word_bits - 1);
            -(half as i64)
        } else {
            0
        }
    }

    /// Clamps a grid index to the limits of the format.
    pub fn clamp(&self, k: i128) -> (r: i64)
        ensures
            r == self.saturate(k as int),
    {
        let upper: i64 = self.upper_limit();
        let lower: i64 = self.lower_limit();
        if k > upper as i128 {
            upper
        } else if k < lower as i128 {
            lower
        } else {
            k as i64
        }
    }
}

} // verus!
