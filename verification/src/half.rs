//! Half-precision numbers, by bit pattern.

use vstd::prelude::*;
use vstd::arithmetic::power2::pow2;

verus! {

/// The sign bit of a half-precision number.
pub open spec fn half_sign(bits: u16) -> nat {
    (bits / 32768) as nat
}

/// The exponent field of a half-precision number.
pub open spec fn half_exponent(bits: u16) -> nat {
    ((bits / 1024) % 32) as nat
}

/// The fraction field of a half-precision number.
pub open spec fn half_fraction(bits: u16) -> nat {
    (bits % 1024) as nat
}

/// The sign bit of a single-precision number.
pub open spec fn single_sign(bits: u32) -> nat {
    (bits / 0x8000_0000) as nat
}

/// The exponent field of a single-precision number.
pub open spec fn single_exponent(bits: u32) -> nat {
    ((bits / 0x80_0000) % 256) as nat
}

/// The fraction field of a single-precision number.
pub open spec fn single_fraction(bits: u32) -> nat {
    (bits % 0x80_0000) as nat
}

/// The magnitude of a finite half-precision number, in units of 2^-24.
pub open spec fn half_magnitude(bits: u16) -> nat {
    if half_exponent(bits) == 0 {
        half_fraction(bits)
    } else {
        (1024 + half_fraction(bits)) * pow2((half_exponent(bits) - 1) as nat)
    }
}

/// The magnitude of a finite single-precision number, in units of 2^-149.
pub open spec fn single_magnitude(bits: u32) -> nat {
    if single_exponent(bits) == 0 {
        single_fraction(bits)
    } else {
        (0x80_0000 + single_fraction(bits)) * pow2((single_exponent(bits) - 1) as nat)
    }
}

/// The single-precision number stands for what the half-precision number stands for: a finite
/// number of the same sign and magnitude, an infinity of the same sign, or not a number, with the
/// same leading fraction bits.
pub open spec fn widens(half: u16, single: u32) -> bool {
    &&& single_sign(single) == half_sign(half)
    &&& if half_exponent(half) == 31 {
        &&& single_exponent(single) == 255
        &&& single_fraction(single) == half_fraction(half) * 8192
    } else {
        &&& single_exponent(single) < 255
        &&& single_magnitude(single) == half_magnitude(half) * pow2(125)
    }
}

/// The fields of a single-precision number put together.
proof fn lemma_fields(sign: u32, exponent: u32, fraction: u32)
    requires
        sign < 2,
        exponent < 256,
        fraction < 0x80_0000,
    ensures
        ({
            let bits = sign * 0x8000_0000 + exponent * 0x80_0000 + fraction;
            &&& bits <= u32::MAX
            &&& single_sign(bits as u32) == sign
            &&& single_exponent(bits as u32) == exponent
            &&& single_fraction(bits as u32) == fraction
        }),
{
}

/// The single-precision number, by bit pattern, that a half-precision number stands for.
pub fn f16_to_f32(bits: u16) -> (single: u32)
    ensures
        widens(bits, single),
{
    let sign: u32 = (bits / 32768) as u32;
    let exponent: u32 = ((bits / 1024) % 32) as u32;
    let fraction: u32 = (bits % 1024) as u32;
    if exponent == 0 {
        if fraction == 0 {
            proof {
                lemma_fields(sign, 0, 0);
                assert(0 * pow2(125) == 0) by (nonlinear_arith);
            }
            return sign * 0x8000_0000;
        }
        let mut e: u32 = 0;
        let mut m: u32 = fraction;
        proof {
            vstd::arithmetic::power2::lemma2_to64();
        }
        while m < 1024
            invariant
                0 < fraction < 1024,
                0 < m < 2048,
                e <= 10,
                m == fraction * pow2(e as nat),
                m >= pow2(e as nat),
            decreases 2048 - m,
        {
            proof {
                vstd::arithmetic::power2::lemma_pow2_unfold((e + 1) as nat);
                let p = pow2(e as nat);
                assert(fraction * (2 * p) == 2 * (fraction * p)) by (nonlinear_arith);
                if e >= 10 {
                    vstd::arithmetic::power2::lemma2_to64();
                    assert(pow2(10) == 1024);
                    assert(false);
                }
            }
            m = m * 2;
            e = e + 1;
        }
        proof {
            lemma_fields(sign, (113 - e) as u32, ((m - 1024) * 8192) as u32);
            let p = pow2(e as nat);
            let q = pow2((112 - e) as nat);
            vstd::arithmetic::power2::lemma_pow2_adds(e as nat, (112 - e) as nat);
            vstd::arithmetic::power2::lemma_pow2_adds(13, 112);
            vstd::arithmetic::power2::lemma2_to64();
            assert(pow2(13) == 8192);
            assert((8192 * m) * q == fraction * (8192 * (p * q))) by (nonlinear_arith)
                requires
                    m == fraction * p,
            ;
        }
        return sign * 0x8000_0000 + (113 - e) * 0x80_0000 + (m - 1024) * 8192;
    }
    if exponent == 31 {
        proof {
            lemma_fields(sign, 255, (fraction * 8192) as u32);
        }
        return sign * 0x8000_0000 + 0x7f80_0000 + fraction * 8192;
    }
    proof {
        lemma_fields(sign, (exponent + 112) as u32, (fraction * 8192) as u32);
        let p = pow2((exponent - 1) as nat);
        let q = pow2((exponent + 111) as nat);
        let m = 1024 + fraction;
        vstd::arithmetic::power2::lemma_pow2_adds((exponent - 1) as nat, 112);
        vstd::arithmetic::power2::lemma_pow2_adds(13, 112);
        vstd::arithmetic::power2::lemma2_to64();
        assert(pow2(13) == 8192);
        let r = pow2(112);
        assert((8192 * m) * (p * r) == (m * p) * (8192 * r)) by (nonlinear_arith);
    }
    sign * 0x8000_0000 + (exponent + 112) * 0x80_0000 + fraction * 8192
}

/// The single-precision number, by bit pattern, whose upper half a bfloat16 number is.
pub fn bf16_to_f32(bits: u16) -> (single: u32)
    ensures
        single == bits * 65536,
{
    bits as u32 * 65536
}

} // verus!
