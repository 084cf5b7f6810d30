//! Linear scaling of values by fixed coefficients.

use vstd::prelude::*;
use vstd::arithmetic::div_mod::lemma_fundamental_div_mod_converse;
use vstd::arithmetic::power2::pow2;
use vstd::arithmetic::power2::lemma_pow2_pos;
use vstd::arithmetic::power2::lemma_pow2_strictly_increases;
use vstd::arithmetic::power2::lemma2_to64;
use vstd::bits::lemma_u64_mul_pow2_le_max_iff_max_shr;
use vstd::bits::lemma_u64_shl_is_mul;
use core::marker::PhantomData;
use crate::rounding::trunc_div;

verus! {

/// `n` held to the range of `i64`.
pub open spec fn saturate_i64(n: int) -> i64 {
    if n < i64::MIN {
        i64::MIN
    } else if n > i64::MAX {
        i64::MAX
    } else {
        n as i64
    }
}

/// The product of two `i64` fits in an `i128`, and so does its negative.
proof fn lemma_product_fits(a: i64, b: i64)
    ensures
        -0x4000_0000_0000_0000_0000_0000_0000_0000 <= a * b
            <= 0x4000_0000_0000_0000_0000_0000_0000_0000,
{
    assert(-0x4000_0000_0000_0000_0000_0000_0000_0000 <= a * b
        <= 0x4000_0000_0000_0000_0000_0000_0000_0000) by (nonlinear_arith)
        requires
            -0x8000_0000_0000_0000 <= a <= 0x8000_0000_0000_0000,
            -0x8000_0000_0000_0000 <= b <= 0x8000_0000_0000_0000,
    ;
}

/// Something that scales a value.
///
/// What a value is scaled to is each scaler's own matter: it says so in
/// `scaled`. The result depends on the scaler and the value and on nothing
/// else.
pub trait Scaler<Value> {
    /// The value that `value` is scaled to.
    spec fn scaled(&self, value: Value) -> Value;

    /// Scales `value`.
    fn scale(&self, value: Value) -> (out: Value)
        ensures
            out == self.scaled(value),
    ;
}

/// Leaves every value as it is.
pub struct IdentityScaler<Value> {
    marker: PhantomData<Value>,
}

impl<Value> IdentityScaler<Value> {
    pub fn new() -> IdentityScaler<Value> {
        IdentityScaler { marker: PhantomData }
    }
}

impl<Value> Scaler<Value> for IdentityScaler<Value> {
    /// Every value is scaled to itself.
    open spec fn scaled(&self, value: Value) -> Value {
        value
    }

    fn scale(&self, value: Value) -> (out: Value) {
        value
    }
}

/// Multiplies by one integer and divides by another.
pub struct IntScaler {
    mult: i64,
    div: i64,
}

impl IntScaler {
    /// The multiplier.
    pub closed spec fn mult(&self) -> i64 {
        self.mult
    }

    /// The divisor.
    pub closed spec fn div(&self) -> i64 {
        self.div
    }

    /// The divisor is not 0.
    #[verifier::type_invariant]
    pub open spec fn wf(&self) -> bool {
        self.div() != 0
    }

    /// Returns the scaler that multiplies by `mult` and divides by `div`.
    pub fn new(mult: i64, div: i64) -> (s: IntScaler)
        requires
            div != 0,
        ensures
            s.wf(),
            s.mult() == mult,
            s.div() == div,
    {
        IntScaler { mult, div }
    }
}

impl Scaler<i64> for IntScaler {
    /// `value * mult / div`: the product, which is exact, divided by `div`
    /// and rounded toward zero, then held to the range of `i64`.
    open spec fn scaled(&self, value: i64) -> i64 {
        saturate_i64(trunc_div(self.mult() * value, self.div() as int))
    }

    /// The product is taken in 128 bits, so that no value makes it overflow.
    fn scale(&self, value: i64) -> (out: i64) {
        proof {
            use_type_invariant(self);
            lemma_product_fits(self.mult, value);
        }
        let product: i128 = (self.mult as i128) * (value as i128);
        // Rust rounds a quotient toward zero. With the divisor made positive
        // the sign of the dividend alone decides the direction.
        let quotient: i128 = if self.div < 0 {
            (-product) / -(self.div as i128)
        } else {
            product / (self.div as i128)
        };
        assert(quotient == trunc_div(self.mult * value, self.div as int));
        if quotient < i64::MIN as i128 {
            i64::MIN
        } else if quotient > i64::MAX as i128 {
            i64::MAX
        } else {
            quotient as i64
        }
    }
}

/// Multiplies by an integer and shifts the product left.
pub struct ShiftScaler {
    mult: i64,
    num_bits: u8,
}

impl ShiftScaler {
    /// The multiplier.
    pub closed spec fn mult(&self) -> i64 {
        self.mult
    }

    /// The number of bits by which the product is shifted.
    pub closed spec fn num_bits(&self) -> u8 {
        self.num_bits
    }

    /// Returns the scaler that multiplies by `mult` and shifts the product
    /// left by `num_bits` bits.
    pub fn new(mult: i64, num_bits: u8) -> (s: ShiftScaler)
        ensures
            s.mult() == mult,
            s.num_bits() == num_bits,
    {
        ShiftScaler { mult, num_bits }
    }
}

impl Scaler<i64> for ShiftScaler {
    /// `(value * mult) << num_bits` with no bit lost: the product times two
    /// to the power `num_bits`, held to the range of `i64`.
    open spec fn scaled(&self, value: i64) -> i64 {
        saturate_i64(self.mult() * value * pow2(self.num_bits() as nat))
    }

    fn scale(&self, value: i64) -> (out: i64) {
        proof {
            lemma_product_fits(self.mult, value);
        }
        let product: i128 = (self.mult as i128) * (value as i128);
        let ghost exact = self.mult * value * pow2(self.num_bits as nat);
        if product == 0 {
            assert(exact == 0) by (nonlinear_arith)
                requires
                    exact == self.mult * value * pow2(self.num_bits as nat),
                    self.mult * value == 0,
            ;
            return 0;
        }
        let negative: bool = product < 0;
        let m: u128 = if negative { (-product) as u128 } else { product as u128 };
        // The largest distance from zero that the result can have.
        let limit: u64 = if negative { 0x8000_0000_0000_0000 } else { 0x7fff_ffff_ffff_ffff };
        proof {
            lemma_pow2_pos(self.num_bits as nat);
            assert(exact == if negative { -(m * pow2(self.num_bits as nat)) } else {
                m * pow2(self.num_bits as nat)
            }) by (nonlinear_arith)
                requires
                    exact == self.mult * value * pow2(self.num_bits as nat),
                    m == if negative { -(self.mult * value) } else { self.mult * value },
            ;
            assert(m * pow2(self.num_bits as nat) >= m) by (nonlinear_arith)
                requires
                    pow2(self.num_bits as nat) >= 1,
                    m >= 0,
            ;
        }
        if self.num_bits >= 64 {
            proof {
                lemma2_to64();
                if self.num_bits > 64 {
                    lemma_pow2_strictly_increases(64, self.num_bits as nat);
                }
                assert(m * pow2(self.num_bits as nat) >= pow2(self.num_bits as nat))
                    by (nonlinear_arith)
                    requires
                        pow2(self.num_bits as nat) >= 1,
                        m >= 1,
                ;
            }
            return if negative { i64::MIN } else { i64::MAX };
        }
        let room: u64 = limit >> (self.num_bits as u64);
        if m > room as u128 {
            proof {
                if m <= u64::MAX {
                    lemma_u64_mul_pow2_le_max_iff_max_shr(m as u64, self.num_bits as u64, limit);
                }
            }
            return if negative { i64::MIN } else { i64::MAX };
        }
        let low: u64 = m as u64;
        proof {
            lemma_u64_mul_pow2_le_max_iff_max_shr(low, self.num_bits as u64, limit);
            lemma_u64_shl_is_mul(low, self.num_bits as u64);
        }
        let shifted: u64 = low << (self.num_bits as u64);
        if negative {
            (-(shifted as i128)) as i64
        } else {
            shifted as i64
        }
    }
}

/// A shift to the left by `num_bits` bits does what the multiplier
/// `mult * 2^num_bits` does with the divisor 1.
pub proof fn lemma_shift_is_multiplication(shift: ShiftScaler, plain: IntScaler, value: i64)
    requires
        plain.wf(),
        plain.mult() == shift.mult() * pow2(shift.num_bits() as nat),
        plain.div() == 1,
    ensures
        shift.scaled(value) == plain.scaled(value),
{
    let power = pow2(shift.num_bits() as nat) as int;
    assert(shift.mult() * value * power == shift.mult() * power * value) by (nonlinear_arith);
}

/// A shift to the left multiplies by a power of two, and a division by that
/// power divides by it. The two scalers with one multiplier agree where
/// neither changes the product: where no bit is shifted by, and where the
/// product is 0.
pub proof fn lemma_shift_meets_division(shift: ShiftScaler, division: IntScaler, value: i64)
    requires
        division.wf(),
        division.mult() == shift.mult(),
        division.div() == pow2(shift.num_bits() as nat),
        shift.num_bits() == 0 || shift.mult() * value == 0,
    ensures
        shift.scaled(value) == division.scaled(value),
{
    let product = shift.mult() * value;
    let power = pow2(shift.num_bits() as nat) as int;
    lemma_pow2_pos(shift.num_bits() as nat);
    if shift.num_bits() == 0 {
        lemma2_to64();
        assert(product * 1 == product) by (nonlinear_arith);
        assert(trunc_div(product, 1) == product);
    } else {
        assert(product * power == 0) by (nonlinear_arith)
            requires
                product == 0,
        ;
        lemma_fundamental_div_mod_converse(0, power, 0, 0);
    }
}

} // verus!
