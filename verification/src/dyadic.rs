use vstd::prelude::*;
use vstd::arithmetic::power2::pow2;
use crate::error::Error;

verus! {

/// A finite binary rational number: `mantissa * 2^exponent`.
///
/// Every finite IEEE double is such a number, and so is every value of a
/// fixed-point format. Two values with different fields may stand for one
/// number: `==` compares the fields.
#[derive(Clone, Copy, Debug, PartialEq, Eq, Structural)]
pub struct Dyadic {
    pub mantissa: i64,
    pub exponent: i32,
}

/// The exponent field of the IEEE 754 double with the bit pattern `bits`:
/// the eleven bits below the sign bit.
pub open spec fn ieee_exponent(bits: u64) -> int {
    ((bits / 0x10_0000_0000_0000) % 2048) as int
}

/// The fraction field of the IEEE 754 double with the bit pattern `bits`:
/// its lowest 52 bits.
pub open spec fn ieee_fraction(bits: u64) -> int {
    (bits % 0x10_0000_0000_0000) as int
}

/// Whether the sign bit of the bit pattern `bits` is set.
pub open spec fn ieee_negative(bits: u64) -> bool {
    bits >= 0x8000_0000_0000_0000
}

/// Whether the IEEE 754 double with the bit pattern `bits` is a number:
/// neither an infinity nor a NaN.
pub open spec fn ieee_finite(bits: u64) -> bool {
    ieee_exponent(bits) != 2047
}

/// The number that the finite IEEE 754 double with the bit pattern `bits`
/// stands for. A subnormal has no hidden bit and the smallest exponent.
pub open spec fn ieee_decoded(bits: u64) -> Dyadic {
    let magnitude = if ieee_exponent(bits) == 0 {
        ieee_fraction(bits)
    } else {
        ieee_fraction(bits) + 0x10_0000_0000_0000
    };
    let exponent = if ieee_exponent(bits) == 0 {
        -1074
    } else {
        ieee_exponent(bits) - 1075
    };
    Dyadic {
        mantissa: (if ieee_negative(bits) { -magnitude } else { magnitude }) as i64,
        exponent: exponent as i32,
    }
}

impl Dyadic {
    /// The numerator of the number as a fraction of integers.
    pub open spec fn num(self) -> int {
        if self.exponent >= 0 {
            self.mantissa * pow2(self.exponent as nat)
        } else {
            self.mantissa as int
        }
    }

    /// The denominator of the number as a fraction of integers: a positive
    /// power of two.
    pub open spec fn den(self) -> int {
        if self.exponent >= 0 {
            1
        } else {
            pow2((-self.exponent) as nat) as int
        }
    }

    /// The number `mantissa * 2^exponent`.
    pub fn new(mantissa: i64, exponent: i32) -> (r: Dyadic)
        ensures
            r == (Dyadic { mantissa, exponent }),
    {
        Dyadic { mantissa, exponent }
    }

    /// The integer `value`.
    pub fn from_int(value: i64) -> (r: Dyadic)
        ensures
            r == (Dyadic { mantissa: value, exponent: 0 }),
            r.num() == value,
            r.den() == 1,
    {
        proof {
            vstd::arithmetic::power2::lemma2_to64();
            assert(value * pow2(0) == value) by (nonlinear_arith)
                requires
                    pow2(0) == 1,
            ;
        }
        Dyadic { mantissa: value, exponent: 0 }
    }

    /// The number that the IEEE 754 double with the bit pattern `bits`
    /// stands for, exactly. An infinity or a NaN is reported as
    /// `NonFiniteResult`.
    pub fn from_bits(bits: u64) -> (r: Result<Dyadic, Error>)
        ensures
            ieee_finite(bits) <==> r is Ok,
            r is Err ==> r->Err_0 == Error::NonFiniteResult,
            r is Ok ==> r->Ok_0 == ieee_decoded(bits),
    {
        let field: u64 = (bits >> 52) & 0x7ff;
        let fraction: u64 = bits & 0xf_ffff_ffff_ffff;
        let negative: bool = (bits >> 63) == 1;
        proof {
            assert(field == (bits / 0x10_0000_0000_0000) % 2048) by (bit_vector)
                requires
                    field == (bits >> 52) & 0x7ff,
            ;
            assert(fraction == bits % 0x10_0000_0000_0000) by (bit_vector)
                requires
                    fraction == bits & 0xf_ffff_ffff_ffff,
            ;
            assert(negative == (bits >= 0x8000_0000_0000_0000)) by (bit_vector)
                requires
                    negative == ((bits >> 63) == 1),
            ;
        }
        if field == 0x7ff {
            return Err(Error::NonFiniteResult);
        }
        let magnitude: i64 = if field == 0 {
            fraction as i64
        } else {
            (fraction + 0x10_0000_0000_0000) as i64
        };
        let exponent: i32 = if field == 0 {
            -1074
        } else {
            field as i32 - 1075
        };
        Ok(Dyadic { mantissa: if negative { -magnitude } else { magnitude }, exponent })
    }
}

} // verus!
