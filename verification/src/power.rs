use vstd::prelude::*;
use vstd::arithmetic::power2::{pow2, lemma2_to64, lemma2_to64_rest, lemma_pow2_adds, lemma_pow2_pos, lemma_pow2_strictly_increases};
use vstd::bits::lemma_u64_shl_is_mul;

verus! {

/// Powers of two grow with their exponent.
pub(crate) proof fn lemma_pow2_monotone(a: nat, b: nat)
    requires
        a <= b,
    ensures
        0 < pow2(a) <= pow2(b),
{
    lemma_pow2_pos(a);
    if a < b {
        lemma_pow2_strictly_increases(a, b);
    }
}

/// The power of two with exponent `e`, for exponents below 64.
pub(crate) fn pow2_u64(e: u32) -> (r: u64)
    requires
        e < 64,
    ensures
        r == pow2(e as nat),
        r >= 1,
{
    proof {
        lemma2_to64_rest();
        lemma_pow2_monotone(e as nat, 63);
        lemma_u64_shl_is_mul(1u64, e as u64);
    }
    1u64 << (e as u64)
}

/// The power of two with exponent `e`, for exponents below 128.
pub(crate) fn pow2_u128(e: u32) -> (r: u128)
    requires
        e < 128,
    ensures
        r == pow2(e as nat),
        r >= 1,
{
    if e < 64 {
        pow2_u64(e) as u128
    } else {
        let low: u64 = pow2_u64(e - 64);
        proof {
            lemma2_to64();
            lemma2_to64_rest();
            lemma_pow2_adds((e - 64) as nat, 64);
            lemma_pow2_monotone((e - 64) as nat, 63);
            assert(low * 0x1_0000_0000_0000_0000u128 <= 0x8000_0000_0000_0000 * 0x1_0000_0000_0000_0000u128)
                by (nonlinear_arith)
                requires low <= 0x8000_0000_0000_0000u64;
        }
        (low as u128) * 0x1_0000_0000_0000_0000u128
    }
}

} // verus!
