//! IEEE-754 binary64 numbers held as their bit patterns.
//!
//! Arithmetic on them is done in software by `rustc_apfloat`; each operation is
//! named by a spec function of its operands' bits.
use rustc_apfloat::ieee::Double;
use rustc_apfloat::Float as _;
use std::cmp::Ordering;
use vstd::prelude::*;

verus! {

/// A binary64 floating-point number, held as its IEEE-754 bit pattern.
#[derive(Clone, Copy, Debug)]
pub struct Float {
    pub bits: u64,
}

/// The bit pattern of positive zero.
pub const ZERO_BITS: u64 = 0;

/// The bit pattern of negative zero.
pub const NEG_ZERO_BITS: u64 = 0x8000_0000_0000_0000;

/// The mask that clears the sign bit.
pub const MAGNITUDE_MASK: u64 = 0x7fff_ffff_ffff_ffff;

/// The bits of the binary64 nearest to `i` (ties to even).
pub uninterp spec fn int_to_float(i: i64) -> u64;

/// The bits of the correctly rounded sum of two binary64 numbers.
pub uninterp spec fn float_sum(a: u64, b: u64) -> u64;

/// The bits of the correctly rounded difference `a - b`.
pub uninterp spec fn float_difference(a: u64, b: u64) -> u64;

/// The bits of the correctly rounded product.
pub uninterp spec fn float_product(a: u64, b: u64) -> u64;

/// The bits of the correctly rounded quotient `a / b`.
pub uninterp spec fn float_quotient(a: u64, b: u64) -> u64;

/// The bits of the C `fmod` remainder of `a` by `b` (sign of `a`, exact).
pub uninterp spec fn float_fmod(a: u64, b: u64) -> u64;

/// The numeric order of two binary64 numbers; `None` when one is NaN.
pub uninterp spec fn float_order(a: u64, b: u64) -> Option<Ordering>;

/// The binary64 nearest to the decimal text `s`, if `s` is a decimal number.
pub uninterp spec fn decimal_to_float(s: Seq<char>) -> Option<u64>;

/// The decimal text of a binary64 number.
pub uninterp spec fn float_to_decimal(a: u64) -> Seq<char>;

/// Whether the bits denote positive or negative zero.
pub open spec fn is_zero_bits(a: u64) -> bool {
    a == ZERO_BITS || a == NEG_ZERO_BITS
}

/// The absolute value: the same bits with the sign bit cleared.
pub open spec fn abs_bits(a: u64) -> u64 {
    a & MAGNITUDE_MASK
}

/// The Euclidean remainder of `a` by `b`: the `fmod` remainder, moved up by
/// `|b|` when it is negative.
pub open spec fn float_rem_euclid(a: u64, b: u64) -> u64 {
    let r = float_fmod(a, b);
    if float_order(r, ZERO_BITS) == Some(Ordering::Less) {
        float_sum(r, abs_bits(b))
    } else {
        r
    }
}

impl Float {
    pub fn from_bits(bits: u64) -> (r: Float)
        ensures
            r.bits == bits,
    {
        Float { bits }
    }

    pub fn to_bits(self) -> (r: u64)
        ensures
            r == self.bits,
    {
        self.bits
    }

    pub fn is_zero(self) -> (r: bool)
        ensures
            r == is_zero_bits(self.bits),
    {
        self.bits == ZERO_BITS || self.bits == NEG_ZERO_BITS
    }

    pub fn abs(self) -> (r: Float)
        ensures
            r.bits == abs_bits(self.bits),
    {
        Float { bits: self.bits & MAGNITUDE_MASK }
    }

    /// Euclidean remainder, never negative for a nonzero finite divisor.
    pub fn rem_euclid(self, rhs: Float) -> (r: Float)
        ensures
            r.bits == float_rem_euclid(self.bits, rhs.bits),
    {
        let r = fmod_floats(self, rhs);
        let zero = Float { bits: ZERO_BITS };
        match compare_floats(r, zero) {
            Some(Ordering::Less) => add_floats(r, rhs.abs()),
            _ => r,
        }
    }
}

/// Relies on `Double::from_i128` (rounding to nearest, ties to even).
#[verifier::external_body]
pub(crate) fn from_int(i: i64) -> (r: Float)
    ensures
        r.bits == int_to_float(i),
{
    Float { bits: Double::from_i128(i as i128).value.to_bits() as u64 }
}

/// Relies on `Add for Double` (`add_r`, rounding to nearest, ties to even).
#[verifier::external_body]
pub(crate) fn add_floats(a: Float, b: Float) -> (r: Float)
    ensures
        r.bits == float_sum(a.bits, b.bits),
{
    let x = Double::from_bits(a.bits as u128) + Double::from_bits(b.bits as u128);
    Float { bits: x.value.to_bits() as u64 }
}

/// Relies on `Sub for Double` (`sub_r`, rounding to nearest, ties to even).
#[verifier::external_body]
pub(crate) fn sub_floats(a: Float, b: Float) -> (r: Float)
    ensures
        r.bits == float_difference(a.bits, b.bits),
{
    let x = Double::from_bits(a.bits as u128) - Double::from_bits(b.bits as u128);
    Float { bits: x.value.to_bits() as u64 }
}

/// Relies on `Mul for Double` (`mul_r`, rounding to nearest, ties to even).
#[verifier::external_body]
pub(crate) fn mul_floats(a: Float, b: Float) -> (r: Float)
    ensures
        r.bits == float_product(a.bits, b.bits),
{
    let x = Double::from_bits(a.bits as u128) * Double::from_bits(b.bits as u128);
    Float { bits: x.value.to_bits() as u64 }
}

/// Relies on `Div for Double` (`div_r`, rounding to nearest, ties to even).
#[verifier::external_body]
pub(crate) fn div_floats(a: Float, b: Float) -> (r: Float)
    ensures
        r.bits == float_quotient(a.bits, b.bits),
{
    let x = Double::from_bits(a.bits as u128) / Double::from_bits(b.bits as u128);
    Float { bits: x.value.to_bits() as u64 }
}

/// Relies on `Rem for Double`, which is `c_fmod`.
#[verifier::external_body]
pub(crate) fn fmod_floats(a: Float, b: Float) -> (r: Float)
    ensures
        r.bits == float_fmod(a.bits, b.bits),
{
    let x = Double::from_bits(a.bits as u128) % Double::from_bits(b.bits as u128);
    Float { bits: x.value.to_bits() as u64 }
}

/// Relies on `PartialOrd for IeeeFloat`: numeric order, `None` with a NaN.
#[verifier::external_body]
pub(crate) fn compare_floats(a: Float, b: Float) -> (r: Option<Ordering>)
    ensures
        r == float_order(a.bits, b.bits),
{
    Double::from_bits(a.bits as u128).partial_cmp(&Double::from_bits(b.bits as u128))
}

/// Relies on `FromStr for Double` (`from_str_r`, rounding to nearest).
#[verifier::external_body]
pub(crate) fn parse_decimal(s: &str) -> (r: Option<Float>)
    ensures
        r matches Some(f) ==> decimal_to_float(s@) == Some(f.bits),
        r is None ==> decimal_to_float(s@) is None,
{
    s.parse::<Double>().ok().map(|d| Float { bits: d.to_bits() as u64 })
}

/// Relies on `Display for IeeeFloat`.
#[verifier::external_body]
pub(crate) fn to_decimal(a: Float) -> (r: String)
    ensures
        r@ == float_to_decimal(a.bits),
{
    Double::from_bits(a.bits as u128).to_string()
}

} // verus!
