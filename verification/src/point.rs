//! Coordinates in canvas space.
//!
//! A position on the canvas that is not a pixel position, such as that of a
//! pointer, is a pair of IEEE 754 double-precision numbers. Such a number
//! is held here by its 64 bits: one sign bit, eleven exponent bits and
//! fifty-two fraction bits, from the highest bit down.

use vstd::prelude::*;
use vstd::arithmetic::div_mod::{lemma_fundamental_div_mod, lemma_mod_bound};
use vstd::arithmetic::power2::{
    lemma2_to64,
    lemma_pow2_pos,
    lemma_pow2_strictly_increases,
    pow2,
};
use vstd::bits::lemma_u64_shr_is_div;

verus! {

/// The exponent field of an infinity or a NaN.
pub const EXPONENT_MAX: u64 = 2047;

/// The exponent field of the numbers from two to the fifty-second power up
/// to twice that: their fraction counts units.
pub const EXPONENT_OF_UNITS: u64 = 1075;

/// Two to the fifty-second power: the leading bit of a normal number's
/// significand, which the fraction field leaves out.
pub const HIDDEN_BIT: u64 = 0x10_0000_0000_0000;

/// One coordinate of a point in canvas space: a double-precision number,
/// by its bits.
#[derive(Clone, Copy, Debug, PartialEq, Eq, Structural)]
pub struct Coordinate {
    pub bits: u64,
}

impl Coordinate {
    /// The sign bit is set.
    pub open spec fn negative(self) -> bool {
        self.bits >> 63 == 1
    }

    /// The exponent field.
    pub open spec fn exponent(self) -> int {
        ((self.bits >> 52) & 0x7ff) as int
    }

    /// The fraction field.
    pub open spec fn fraction(self) -> int {
        (self.bits & 0xf_ffff_ffff_ffff) as int
    }

    /// The number is neither an infinity nor a NaN.
    pub open spec fn finite(self) -> bool {
        self.exponent() != EXPONENT_MAX
    }

    /// The significand of a finite number, as an integer. The magnitude of
    /// the number is the significand times two to the power `scale()`.
    pub open spec fn significand(self) -> int {
        if self.exponent() == 0 {
            self.fraction()
        } else {
            HIDDEN_BIT + self.fraction()
        }
    }

    /// The power of two by which the significand of a finite number is
    /// scaled.
    pub open spec fn scale(self) -> int {
        if self.exponent() == 0 {
            -1074
        } else {
            self.exponent() - EXPONENT_OF_UNITS
        }
    }

    /// The magnitude of a finite number is less than `limit`.
    pub open spec fn magnitude_below(self, limit: int) -> bool {
        if self.scale() >= 0 {
            self.significand() * pow2(self.scale() as nat) < limit
        } else {
            self.significand() < limit * pow2((-self.scale()) as nat)
        }
    }

    /// The number is at least zero and less than `limit`. A NaN is neither;
    /// the zero with the sign bit set is zero.
    pub open spec fn in_range(self, limit: int) -> bool {
        &&& self.finite()
        &&& (!self.negative() || self.significand() == 0)
        &&& self.magnitude_below(limit)
    }

    pub fn from_bits(bits: u64) -> (coordinate: Coordinate)
        ensures
            coordinate.bits == bits,
    {
        Coordinate { bits }
    }

    /// Whether the number is at least zero and less than `limit`.
    pub fn lies_below(self, limit: u32) -> (inside: bool)
        ensures
            inside == self.in_range(limit as int),
    {
        let bits = self.bits;
        let exponent: u64 = (bits >> 52) & 0x7ff;
        let fraction: u64 = bits & 0xf_ffff_ffff_ffff;
        let negative: bool = bits >> 63 == 1;
        assert(exponent <= 2047 && fraction < 0x10_0000_0000_0000) by (bit_vector)
            requires
                exponent == (bits >> 52) & 0x7ff,
                fraction == bits & 0xf_ffff_ffff_ffff,
        ;
        if exponent == EXPONENT_MAX {
            return false;
        }
        let significand: u64 = if exponent == 0 {
            fraction
        } else {
            HIDDEN_BIT + fraction
        };
        if negative && significand != 0 {
            return false;
        }
        if exponent >= EXPONENT_OF_UNITS {
            proof {
                let power = pow2((exponent - EXPONENT_OF_UNITS) as nat);
                lemma_pow2_pos((exponent - EXPONENT_OF_UNITS) as nat);
                assert(significand * power >= significand) by (nonlinear_arith)
                    requires
                        power >= 1,
                        significand >= 0,
                ;
            }
            return false;
        }
        let shift: u64 = if exponent == 0 {
            1074
        } else {
            EXPONENT_OF_UNITS - exponent
        };
        let whole: u64 = if shift >= 64 {
            0
        } else {
            significand >> shift
        };
        proof {
            let power = pow2(shift as nat);
            lemma_pow2_pos(shift as nat);
            if shift >= 64 {
                lemma2_to64();
                if shift > 64 {
                    lemma_pow2_strictly_increases(64, shift as nat);
                }
                assert(limit >= 1 ==> limit * power >= power) by (nonlinear_arith)
                    requires
                        power >= 0,
                ;
            } else {
                lemma_u64_shr_is_div(significand, shift);
                lemma_quotient_below(significand as int, power as int, limit as int);
            }
            assert((whole < limit) == (significand < limit * power));
        }
        whole < limit as u64
    }
}

/// A quotient rounded down is less than a whole number exactly when the
/// dividend is less than that number of divisors.
proof fn lemma_quotient_below(dividend: int, divisor: int, limit: int)
    requires
        0 <= dividend,
        0 < divisor,
    ensures
        dividend / divisor < limit <==> dividend < limit * divisor,
{
    lemma_fundamental_div_mod(dividend, divisor);
    lemma_mod_bound(dividend, divisor);
    let quotient = dividend / divisor;
    assert(quotient < limit ==> divisor * quotient + divisor <= limit * divisor)
        by (nonlinear_arith)
        requires
            0 < divisor,
    ;
    assert(quotient >= limit ==> divisor * quotient >= limit * divisor) by (nonlinear_arith)
        requires
            0 < divisor,
    ;
}

} // verus!
