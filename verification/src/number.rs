//! Numbers as the library holds them.
//!
//! Every numeric value is an IEEE 754 double, held as its 64-bit pattern:
//! one sign bit, eleven exponent bits and fifty-two fraction bits. The
//! library stores and hands on such patterns and never computes with them;
//! the one thing it reads out of a pattern is whether it stands for a whole
//! number that can index an array.

use vstd::arithmetic::div_mod::{lemma_fundamental_div_mod, lemma_small_mod};
use vstd::arithmetic::mul::lemma_mul_is_commutative;
use vstd::arithmetic::power2::{
    lemma2_to64, lemma2_to64_rest, lemma_pow2_pos, lemma_pow2_strictly_increases, pow2,
};
use vstd::bits::{lemma_u64_shl_is_mul, lemma_u64_shr_is_div};
use vstd::prelude::*;

verus! {

/// The pattern of positive zero, the value of every variable that was
/// never set.
pub const ZERO: u64 = 0;

/// Two to the power of fifty-two: the weight of the lowest exponent bit, and
/// the bit that a normal number's significand has in front of its fraction.
pub const HIDDEN_BIT: u64 = 0x10_0000_0000_0000;

/// Two to the power of sixty-three: the sign bit.
pub const SIGN_BIT: u64 = 0x8000_0000_0000_0000;

/// The exponent field when every bit of it is set: an infinity or a NaN.
pub const EXPONENT_SPECIAL: u64 = 2047;

/// The exponent field of a number whose lowest significand bit has the
/// weight one.
pub const EXPONENT_UNIT: u64 = 1075;

/// Whether the sign bit is set.
pub open spec fn is_negative(bits: u64) -> bool {
    bits >= SIGN_BIT
}

/// The exponent field.
pub open spec fn exponent_of(bits: u64) -> nat {
    ((bits / HIDDEN_BIT) % 2048) as nat
}

/// The fraction field.
pub open spec fn fraction_of(bits: u64) -> nat {
    (bits % HIDDEN_BIT) as nat
}

/// The significand of a normal number: the fraction behind the hidden bit.
pub open spec fn significand_of(bits: u64) -> nat {
    HIDDEN_BIT as nat + fraction_of(bits)
}

/// The number that the pattern stands for, where that is a whole number and
/// not negative; nothing for a fraction, a negative number, an infinity or
/// a NaN. Both zeros stand for zero.
pub open spec fn whole_number(bits: u64) -> Option<nat> {
    let exponent = exponent_of(bits);
    if exponent == EXPONENT_SPECIAL {
        None
    } else if exponent == 0 {
        if fraction_of(bits) == 0 {
            Some(0)
        } else {
            None
        }
    } else if is_negative(bits) {
        None
    } else if exponent >= EXPONENT_UNIT {
        Some(significand_of(bits) * pow2((exponent - EXPONENT_UNIT) as nat))
    } else if significand_of(bits) % pow2((EXPONENT_UNIT - exponent) as nat) == 0 {
        Some(significand_of(bits) / pow2((EXPONENT_UNIT - exponent) as nat))
    } else {
        None
    }
}

/// A whole number as an index, with every number that is too large for an
/// index standing at the largest one.
pub open spec fn saturated(n: nat) -> usize {
    if n <= usize::MAX {
        n as usize
    } else {
        usize::MAX
    }
}

/// The index that a pattern stands for.
pub open spec fn index_of(bits: u64) -> Option<usize> {
    match whole_number(bits) {
        Some(n) => Some(saturated(n)),
        None => None,
    }
}

/// A 64-bit number as an index.
fn saturate(n: u64) -> (out: usize)
    ensures
        out == saturated(n as nat),
{
    if n > usize::MAX as u64 {
        usize::MAX
    } else {
        n as usize
    }
}

/// Reads a pattern as an array index: the whole number it stands for, or
/// nothing where it stands for a fraction, a negative number, an infinity or
/// a NaN. A whole number beyond the largest index gives the largest index.
pub fn to_index(bits: u64) -> (out: Option<usize>)
    ensures
        out == index_of(bits),
{
    let exponent = (bits / HIDDEN_BIT) % 2048;
    let fraction = bits % HIDDEN_BIT;
    if exponent == EXPONENT_SPECIAL {
        return None;
    }
    if exponent == 0 {
        return if fraction == 0 {
            Some(0)
        } else {
            None
        };
    }
    if bits >= SIGN_BIT {
        return None;
    }
    let significand = HIDDEN_BIT + fraction;
    proof {
        lemma2_to64();
        lemma2_to64_rest();
    }
    if exponent >= EXPONENT_UNIT {
        let shift = exponent - EXPONENT_UNIT;
        if shift >= 12 {
            proof {
                if shift > 12 {
                    lemma_pow2_strictly_increases(12, shift as nat);
                }
                assert(pow2(12) == 0x1000) by {
                    lemma2_to64();
                }
                assert(significand * pow2(shift as nat) >= 0x1_0000_0000_0000_0000) by (nonlinear_arith)
                    requires
                        significand >= 0x10_0000_0000_0000,
                        pow2(shift as nat) >= 0x1000,
                ;
            }
            Some(usize::MAX)
        } else {
            proof {
                if shift < 11 {
                    lemma_pow2_strictly_increases(shift as nat, 11);
                }
                assert(pow2(11) == 0x800) by {
                    lemma2_to64();
                }
                lemma_pow2_pos(shift as nat);
                assert(significand * pow2(shift as nat) <= u64::MAX) by (nonlinear_arith)
                    requires
                        significand < 0x20_0000_0000_0000,
                        0 < pow2(shift as nat) <= 0x800,
                ;
                lemma_u64_shl_is_mul(significand, shift);
            }
            Some(saturate(significand << shift))
        }
    } else {
        let shift = EXPONENT_UNIT - exponent;
        if shift > 52 {
            proof {
                if shift > 53 {
                    lemma_pow2_strictly_increases(53, shift as nat);
                }
                lemma_small_mod(significand as nat, pow2(shift as nat));
            }
            None
        } else {
            let whole = significand >> shift;
            proof {
                let unit = pow2(shift as nat);
                lemma_pow2_pos(shift as nat);
                lemma_u64_shr_is_div(significand, shift);
                lemma_fundamental_div_mod(significand as int, unit as int);
                lemma_mul_is_commutative(unit as int, whole as int);
                assert(whole * unit <= significand) by (nonlinear_arith)
                    requires
                        significand == unit * whole + (significand as int % unit as int),
                        0 <= (significand as int % unit as int),
                ;
                lemma_u64_shl_is_mul(whole, shift);
            }
            if whole << shift == significand {
                Some(saturate(whole))
            } else {
                None
            }
        }
    }
}

} // verus!
