//! Real numbers as they come out of an instrument file: each is held by
//! the 64 bits of its binary double-precision form.

use vstd::arithmetic::power2::{lemma2_to64, lemma_pow2_adds, lemma_pow2_strictly_increases, pow2};
use vstd::bits::{lemma_u64_shl_is_mul, lemma_u64_shr_is_div};
use vstd::prelude::*;

verus! {

/// A double-precision number, by its bit pattern: one sign bit, eleven
/// bits of exponent, fifty-two bits of fraction.
#[derive(Clone, Copy, Debug)]
pub struct Real {
    pub bits: u64,
}

impl Real {
    /// Whether the sign bit is set.
    pub open spec fn sign_bit(self) -> bool {
        self.bits >= 0x8000_0000_0000_0000
    }

    /// The eleven exponent bits, as a number.
    pub open spec fn exponent_field(self) -> nat {
        ((self.bits / 0x10_0000_0000_0000) % 0x800) as nat
    }

    /// The fifty-two fraction bits, as a number.
    pub open spec fn fraction_field(self) -> nat {
        (self.bits % 0x10_0000_0000_0000) as nat
    }

    /// Not a number: all exponent bits set, and some fraction bit.
    pub open spec fn is_nan(self) -> bool {
        self.exponent_field() == 0x7ff && self.fraction_field() != 0
    }

    /// An infinity: all exponent bits set, and no fraction bit.
    pub open spec fn is_infinite(self) -> bool {
        self.exponent_field() == 0x7ff && self.fraction_field() == 0
    }

    /// The significand of a finite number; its leading bit is implied
    /// unless the exponent field is zero.
    pub open spec fn significand(self) -> nat {
        if self.exponent_field() == 0 {
            self.fraction_field()
        } else {
            0x10_0000_0000_0000 + self.fraction_field()
        }
    }

    /// The biased power of two that scales the significand: the magnitude
    /// of a finite number is `significand * 2^(scale - 1075)`.
    pub open spec fn scale(self) -> nat {
        if self.exponent_field() == 0 {
            1
        } else {
            self.exponent_field()
        }
    }

    /// The magnitude of a finite number, without what follows the point.
    pub open spec fn whole_part(self) -> nat {
        if self.scale() >= 1075 {
            self.significand() * pow2((self.scale() - 1075) as nat)
        } else {
            self.significand() / pow2((1075 - self.scale()) as nat)
        }
    }

    /// The number as a count: cut off towards zero and held within what a
    /// `usize` can say. What is not a number counts as zero, and so does
    /// everything negative.
    pub open spec fn count(self) -> int {
        if self.is_nan() || self.sign_bit() {
            0
        } else if self.is_infinite() || self.whole_part() > usize::MAX {
            usize::MAX as int
        } else {
            self.whole_part() as int
        }
    }

    /// The number with the given bit pattern.
    pub fn from_bits(bits: u64) -> (r: Real)
        ensures
            r.bits == bits,
    {
        Real { bits }
    }

    /// The bit pattern of the number.
    pub fn to_bits(self) -> (bits: u64)
        ensures
            bits == self.bits,
    {
        self.bits
    }

    /// The number as a count of points.
    pub fn to_count(self) -> (n: usize)
        ensures
            n as int == self.count(),
    {
        let bits: u64 = self.bits;
        let exponent: u64 = (bits / 0x10_0000_0000_0000) % 0x800;
        let fraction: u64 = bits % 0x10_0000_0000_0000;
        if bits >= 0x8000_0000_0000_0000 {
            return 0;
        }
        if exponent == 0x7ff {
            return if fraction != 0 {
                0
            } else {
                usize::MAX
            };
        }
        if exponent < 1023 {
            proof {
                lemma_whole_part_of_small(self);
            }
            return 0;
        }
        let significand: u64 = 0x10_0000_0000_0000 + fraction;
        let whole: u64 = if exponent >= 1075 {
            let shift: u64 = exponent - 1075;
            if shift >= 12 {
                proof {
                    lemma_whole_part_of_huge(self);
                }
                return usize::MAX;
            }
            proof {
                lemma2_to64();
                if shift < 11 {
                    lemma_pow2_strictly_increases(shift as nat, 11);
                }
                assert(significand * pow2(shift as nat) <= u64::MAX) by (nonlinear_arith)
                    requires
                        significand < 0x20_0000_0000_0000,
                        pow2(shift as nat) <= 0x800,
                ;
                lemma_u64_shl_is_mul(significand, shift);
            }
            significand << shift
        } else {
            let shift: u64 = 1075 - exponent;
            proof {
                lemma_u64_shr_is_div(significand, shift);
            }
            significand >> shift
        };
        assert(whole == self.whole_part());
        if whole > usize::MAX as u64 {
            usize::MAX
        } else {
            whole as usize
        }
    }
}

/// A finite number whose exponent field is below 1023 is less than one in
/// magnitude.
proof fn lemma_whole_part_of_small(x: Real)
    requires
        x.exponent_field() < 1023,
    ensures
        x.whole_part() == 0,
{
    let shift = (1075 - x.scale()) as nat;
    lemma2_to64();
    lemma_pow2_adds(32, 21);
    if shift > 53 {
        lemma_pow2_strictly_increases(53, shift);
    }
    let divisor = pow2(shift);
    let s = x.significand();
    assert(s / divisor == 0) by (nonlinear_arith)
        requires
            s < 0x20_0000_0000_0000,
            divisor >= 0x20_0000_0000_0000,
    ;
}

/// A finite number whose exponent field is 1087 or more is at least two to
/// the power of 64.
proof fn lemma_whole_part_of_huge(x: Real)
    requires
        1087 <= x.exponent_field() < 0x7ff,
    ensures
        x.whole_part() > usize::MAX,
{
    let shift = (x.scale() - 1075) as nat;
    lemma2_to64();
    if shift > 12 {
        lemma_pow2_strictly_increases(12, shift);
    }
    let factor = pow2(shift);
    let s = x.significand();
    assert(s * factor >= 0x1_0000_0000_0000_0000) by (nonlinear_arith)
        requires
            s >= 0x10_0000_0000_0000,
            factor >= 0x1000,
    ;
}

} // verus!
