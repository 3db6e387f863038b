//! IEEE 754 binary32 numbers by their bit pattern, and the clamp into the
//! unit range.

use vstd::arithmetic::power2::*;
use vstd::prelude::*;

verus! {

/// A binary32 number. Equality is equality of bit patterns.
#[derive(Debug, Clone, Copy, PartialEq, Eq, Structural)]
pub struct Float32 {
    /// Sign, exponent and fraction, from the highest bit down.
    pub bits: u32,
}

/// The number zero.
pub const ZERO_BITS: u32 = 0;

/// The number one.
pub const ONE_BITS: u32 = 0x3f80_0000;

/// The bit pattern of positive infinity.
pub const INFINITY_BITS: u32 = 0x7f80_0000;

/// The sign bit.
pub const SIGN_BIT: u32 = 0x8000_0000;

/// The distance from zero of a number with exponent `e` and fraction `f`, in
/// units of the smallest positive number. Infinity counts as the number that
/// its exponent would give, which is above every finite one.
pub open spec fn units(e: nat, f: nat) -> nat {
    if e == 0 {
        f
    } else {
        (0x80_0000 + f) * pow2((e - 1) as nat)
    }
}

impl Float32 {
    /// The bits below the sign.
    pub open spec fn magnitude(self) -> nat {
        self.bits as nat % SIGN_BIT as nat
    }

    /// Is this not a number?
    pub open spec fn is_nan(self) -> bool {
        self.magnitude() > INFINITY_BITS
    }

    /// The value in units of the smallest positive number, of which there are
    /// two to the 149th in one.
    pub open spec fn value(self) -> int {
        let distance = units(self.magnitude() / 0x80_0000, self.magnitude() % 0x80_0000);
        if self.bits >= SIGN_BIT {
            -(distance as int)
        } else {
            distance as int
        }
    }

    /// The number zero.
    pub open spec fn spec_zero() -> Float32 {
        Float32 { bits: ZERO_BITS }
    }

    /// The number one.
    pub open spec fn spec_one() -> Float32 {
        Float32 { bits: ONE_BITS }
    }

    /// This number moved into the unit range: zero if it is below zero or not
    /// a number, one if it is above one, else as it is.
    pub open spec fn clamped(self) -> Float32 {
        if self.is_nan() {
            Self::spec_zero()
        } else if self.value() < Self::spec_zero().value() {
            Self::spec_zero()
        } else if self.value() > Self::spec_one().value() {
            Self::spec_one()
        } else {
            self
        }
    }

    /// This number moved into the unit range. What is not a number becomes
    /// zero; negative zero stays what it is.
    pub fn clamp_unit(self) -> (r: Self)
        ensures
            r == self.clamped(),
    {
        proof {
            lemma_units_of_zero_and_one();
        }
        if self.bits >= SIGN_BIT {
            let magnitude: u32 = self.bits - SIGN_BIT;
            assert(self.magnitude() == magnitude);
            if magnitude == 0 {
                self
            } else {
                proof {
                    lemma_units_positive(magnitude as nat);
                }
                Float32 { bits: ZERO_BITS }
            }
        } else {
            assert(self.magnitude() == self.bits);
            proof {
                lemma_units_above_one(self.bits as nat);
            }
            if self.bits > INFINITY_BITS {
                Float32 { bits: ZERO_BITS }
            } else if self.bits > ONE_BITS {
                Float32 { bits: ONE_BITS }
            } else {
                self
            }
        }
    }
}

proof fn lemma_units_of_zero_and_one()
    ensures
        Float32::spec_zero().value() == 0,
        Float32::spec_one().value() == 0x80_0000 * pow2(126),
{
}

proof fn lemma_units_positive(magnitude: nat)
    requires
        0 < magnitude,
    ensures
        units(magnitude / 0x80_0000, magnitude % 0x80_0000) > 0,
{
    let e = magnitude / 0x80_0000;
    let f = magnitude % 0x80_0000;
    if e > 0 {
        let p = pow2((e - 1) as nat);
        lemma_pow2_pos((e - 1) as nat);
        assert((0x80_0000 + f) * p > 0) by (nonlinear_arith)
            requires
                p > 0,
                f >= 0,
        ;
    }
}

proof fn lemma_units_above_one(magnitude: nat)
    ensures
        units(magnitude / 0x80_0000, magnitude % 0x80_0000) > 0x80_0000 * pow2(126) <==> magnitude
            > ONE_BITS,
{
    let e = magnitude / 0x80_0000;
    let f = magnitude % 0x80_0000;
    let one = pow2(126);
    lemma_pow2_pos(126);
    if e == 0 {
        assert(f < 0x80_0000 * one) by (nonlinear_arith)
            requires
                f < 0x80_0000,
                one >= 1,
        ;
    } else if e < 127 {
        let p = pow2((e - 1) as nat);
        if e < 126 {
            lemma_pow2_strictly_increases((e - 1) as nat, 125);
        }
        lemma_pow2_unfold(126);
        assert((0x80_0000 + f) * p <= 0x80_0000 * one) by (nonlinear_arith)
            requires
                f < 0x80_0000,
                0 <= p,
                2 * p <= one,
        ;
    } else if e == 127 {
        assert((0x80_0000 + f) * one > 0x80_0000 * one <==> f > 0) by (nonlinear_arith)
            requires
                f >= 0,
                one > 0,
        ;
    } else {
        let p = pow2((e - 1) as nat);
        lemma_pow2_strictly_increases(126, (e - 1) as nat);
        assert((0x80_0000 + f) * p > 0x80_0000 * one) by (nonlinear_arith)
            requires
                f >= 0,
                p > one,
                one > 0,
        ;
    }
}

/// Whatever is clamped is then a number in the unit range.
pub proof fn law_clamped_is_in_the_unit_range(x: Float32)
    ensures
        !x.clamped().is_nan(),
        Float32::spec_zero().value() <= x.clamped().value() <= Float32::spec_one().value(),
{
    lemma_units_of_zero_and_one();
    lemma_pow2_pos(126);
}

/// Clamping a second time changes nothing.
pub proof fn law_clamped_idempotent(x: Float32)
    ensures
        x.clamped().clamped() == x.clamped(),
{
    law_clamped_is_in_the_unit_range(x);
}

/// Clamping never turns the order of two numbers round.
pub proof fn law_clamped_keeps_the_order(x: Float32, y: Float32)
    requires
        !x.is_nan(),
        !y.is_nan(),
        x.value() <= y.value(),
    ensures
        x.clamped().value() <= y.clamped().value(),
{
    law_clamped_is_in_the_unit_range(x);
    law_clamped_is_in_the_unit_range(y);
}

/// The clamp by bit pattern: what lies between zero and one keeps its pattern,
/// and so does negative zero; what lies above one, infinity among it, becomes
/// one; what lies below zero, and what is not a number, becomes zero.
pub proof fn law_clamp_by_bit_pattern(x: Float32)
    ensures
        x.bits <= 0x3f80_0000 || x.bits == 0x8000_0000 ==> x.clamped().bits == x.bits,
        0x3f80_0000 < x.bits <= 0x7f80_0000 ==> x.clamped().bits == 0x3f80_0000,
        0x7f80_0000 < x.bits && x.bits != 0x8000_0000 ==> x.clamped().bits == 0,
        x.is_nan() <==> 0x7f80_0000 < x.bits < 0x8000_0000 || 0xff80_0000 < x.bits,
{
    lemma_units_of_zero_and_one();
    if x.bits < 0x8000_0000 {
        assert(x.magnitude() == x.bits);
        lemma_units_above_one(x.bits as nat);
    } else {
        assert(x.magnitude() == x.bits - 0x8000_0000);
        if x.bits > 0x8000_0000 {
            lemma_units_positive(x.magnitude());
        }
    }
}

/// What the value of a bit pattern is: the smallest patterns count the units
/// themselves, one more in the exponent doubles, the sign bit negates, and one
/// is two to the 149th units.
pub proof fn law_value_of_a_bit_pattern(x: Float32, y: Float32)
    ensures
        x.bits < 0x100_0000 ==> x.value() == x.bits,
        0x80_0000 <= x.bits && y.bits == x.bits + 0x80_0000 && y.bits <= 0x7f80_0000 ==> y.value()
            == 2 * x.value(),
        y.bits == x.bits + 0x8000_0000 ==> y.value() == -x.value(),
        x.bits == 0x3f80_0000 ==> x.value() == pow2(149),
{
    lemma_pow2_unfold(1);
    lemma2_to64();
    if x.bits < 0x100_0000 {
        assert(x.magnitude() == x.bits);
        let e = x.bits as nat / 0x80_0000;
        let f = x.bits as nat % 0x80_0000;
        if e == 1 {
            assert((0x80_0000 + f) * pow2(0) == 0x80_0000 + f) by {
                assert(pow2(0) == 1);
            }
        }
    }
    if 0x80_0000 <= x.bits && y.bits == x.bits + 0x80_0000 && y.bits <= 0x7f80_0000 {
        let e = x.bits as nat / 0x80_0000;
        let f = x.bits as nat % 0x80_0000;
        assert(x.magnitude() == x.bits && y.magnitude() == y.bits);
        assert(y.bits as nat / 0x80_0000 == e + 1 && y.bits as nat % 0x80_0000 == f);
        let p = pow2((e - 1) as nat);
        lemma_pow2_unfold(e);
        assert((0x80_0000 + f) * (2 * p) == 2 * ((0x80_0000 + f) * p)) by (nonlinear_arith);
    }
    if y.bits == x.bits + 0x8000_0000 {
        assert(x.magnitude() == x.bits && y.magnitude() == x.bits);
    }
    if x.bits == 0x3f80_0000 {
        lemma_units_of_zero_and_one();
        lemma_pow2_adds(23, 126);
    }
}

} // verus!
