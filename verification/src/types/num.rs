//! Numbers: machine integers and doubles.
//!
//! The runtime holds a double as its bit pattern. Whether a double is a
//! whole number that an integer can hold is read from the bits here;
//! whatever has to be computed on doubles is asked of the host, through
//! `FloatOps`. What comes back is taken as it comes: a signalling NaN that a
//! boxed value would be taken for is stored as the canonical NaN.

use super::{Object, RlispType};
use vstd::arithmetic::power2::{
    lemma2_to64, lemma2_to64_rest, lemma_pow2_strictly_increases, lemma_pow2_unfold, pow2,
};
use vstd::prelude::*;

verus! {

/// Arithmetic on doubles, given and taken as bit patterns.
pub trait FloatOps {
    /// The double nearest to `i`.
    fn from_int(&self, i: i32) -> u64;

    fn float_add(&self, a: u64, b: u64) -> u64;

    fn float_sub(&self, a: u64, b: u64) -> u64;

    fn float_mul(&self, a: u64, b: u64) -> u64;

    fn float_div(&self, a: u64, b: u64) -> u64;

    fn float_rem(&self, a: u64, b: u64) -> u64;

    fn float_eq(&self, a: u64, b: u64) -> bool;

    fn float_lt(&self, a: u64, b: u64) -> bool;

    fn float_le(&self, a: u64, b: u64) -> bool;

    fn trunc(&self, a: u64) -> u64;

    fn floor(&self, a: u64) -> u64;

    fn ceil(&self, a: u64) -> u64;

    fn round(&self, a: u64) -> u64;

    fn abs(&self, a: u64) -> u64;

    /// The double that `token` denotes, if it denotes one.
    fn parse(&self, token: &[u8]) -> Option<u64>;

    /// The double as text.
    fn format(&self, bits: u64) -> Vec<u8>;
}

/// The weight of the hidden leading bit of a mantissa: 2 to the power 52.
pub const HIDDEN_BIT: u64 = 0x0010_0000_0000_0000;

/// The exponent field of a double.
pub open spec fn spec_exponent(bits: u64) -> u64 {
    (bits >> 52) & 0x7FF
}

/// The mantissa field of a double.
pub open spec fn spec_mantissa(bits: u64) -> u64 {
    bits & 0x000F_FFFF_FFFF_FFFF
}

/// True iff the sign bit of a double is set.
pub open spec fn spec_negative(bits: u64) -> bool {
    (bits >> 63) == 1
}

/// The whole number in the range of `i32` that the double `bits` is, if it
/// is one. A double with the exponent field `e`, from 1 on, and the mantissa
/// field `m` has the magnitude (2^52 + m) / 2^(1075 - e). So it is a whole
/// number below 2^32 iff `e` is between 1023 and 1054 and 2^(1075 - e)
/// divides 2^52 + m. Both zeros are the whole number 0, and no other double
/// with the exponent field 0 is whole. Infinities and NaNs are no numbers.
pub open spec fn spec_whole(bits: u64) -> Option<i32> {
    let e = spec_exponent(bits) as int;
    let full = HIDDEN_BIT + spec_mantissa(bits);
    if e == 0 {
        if spec_mantissa(bits) == 0 {
            Some(0i32)
        } else {
            None
        }
    } else if e < 1023 || e > 1054 {
        None
    } else {
        let unit = pow2((1075 - e) as nat) as int;
        let size = full / unit;
        let value = if spec_negative(bits) {
            -size
        } else {
            size
        };
        if full % unit == 0 && i32::MIN <= value <= i32::MAX {
            Some(value as i32)
        } else {
            None
        }
    }
}

/// The whole number in the range of `i32` that the double `bits` is, if it
/// is one.
pub fn whole_of(bits: u64) -> (r: Option<i32>)
    ensures
        r == spec_whole(bits),
{
    let e: u64 = (bits >> 52) & 0x7FF;
    let m: u64 = bits & 0x000F_FFFF_FFFF_FFFF;
    let negative: bool = (bits >> 63) == 1;
    proof {
        assert(((bits >> 52) & 0x7FF) <= 0x7FF) by (bit_vector);
        assert((bits & 0x000F_FFFF_FFFF_FFFFu64) < 0x0010_0000_0000_0000u64) by (bit_vector);
    }
    if e == 0 {
        if m == 0 {
            return Some(0);
        } else {
            return None;
        }
    }
    if e < 1023 || e > 1054 {
        return None;
    }
    let shift: u64 = 1075 - e;
    let mut unit: u64 = 1;
    let mut k: u64 = 0;
    proof {
        lemma2_to64();
        lemma2_to64_rest();
    }
    while k < shift
        invariant
            k <= shift <= 52,
            unit == pow2(k as nat),
            pow2(52) == HIDDEN_BIT,
        decreases shift - k,
    {
        proof {
            lemma_pow2_strictly_increases(k as nat, 52);
            lemma_pow2_unfold((k + 1) as nat);
        }
        unit = unit * 2;
        k += 1;
    }
    proof {
        if shift < 52 {
            lemma_pow2_strictly_increases(shift as nat, 52);
        }
        vstd::arithmetic::power2::lemma_pow2_pos(shift as nat);
    }
    let full: u64 = HIDDEN_BIT + m;
    if full % unit != 0 {
        return None;
    }
    let size: u64 = full / unit;
    if negative {
        if size <= 0x8000_0000 {
            Some((0 - size as i64) as i32)
        } else {
            None
        }
    } else {
        if size <= 0x7FFF_FFFF {
            Some(size as i32)
        } else {
            None
        }
    }
}

/// A number: an integer, or a double as its bit pattern.
#[derive(Clone, Copy, Debug, PartialEq, Eq, Structural)]
pub enum RlispNum {
    Int(i32),
    Float(u64),
}

impl RlispNum {
    /// The number that `obj` is, if it is one.
    pub open spec fn spec_maybe_from(obj: Object) -> Option<RlispNum> {
        match obj.spec_what_type() {
            RlispType::Float => Some(RlispNum::Float(obj.raw())),
            RlispType::Integer => Some(RlispNum::Int(obj.spec_int() as i32)),
            _ => None,
        }
    }

    /// The number that `obj` is, if it is one.
    pub fn maybe_from(obj: Object) -> (r: Option<RlispNum>)
        ensures
            r == RlispNum::spec_maybe_from(obj),
    {
        if obj.floatp() {
            Some(RlispNum::Float(obj.float_bits()))
        } else if obj.integerp() {
            Some(RlispNum::Int(obj.int_value()))
        } else {
            None
        }
    }

    /// The number as a value.
    pub open spec fn spec_into_object(self) -> Object {
        match self {
            RlispNum::Int(i) => Object::spec_from_int(i as int),
            RlispNum::Float(bits) => Object::spec_from_float_bits(bits),
        }
    }

    /// The number as a value.
    pub fn into_object(self) -> (r: Object)
        ensures
            r == self.spec_into_object(),
            r.spec_what_type() == RlispType::Integer || r.spec_what_type() == RlispType::Float,
            self is Int ==> r.spec_what_type() == RlispType::Integer,
            self is Float ==> r.spec_what_type() == RlispType::Float,
    {
        match self {
            RlispNum::Int(i) => Object::from_int(i),
            RlispNum::Float(bits) => Object::from_float_bits(bits),
        }
    }

    /// The integer, if the number is one.
    pub fn as_int(self) -> (r: Option<i32>)
        ensures
            r == (match self {
                RlispNum::Int(i) => Some(i),
                RlispNum::Float(_) => None,
            }),
    {
        match self {
            RlispNum::Int(i) => Some(i),
            RlispNum::Float(_) => None,
        }
    }

    /// The number as the bit pattern of a double.
    pub fn to_float<H: FloatOps>(self, host: &H) -> (r: u64)
        ensures
            self matches RlispNum::Float(bits) ==> r == bits,
    {
        match self {
            RlispNum::Int(i) => host.from_int(i),
            RlispNum::Float(bits) => bits,
        }
    }

    /// What two integers add up to, where that is in the range of `i32`.
    pub open spec fn int_sum(a: i32, b: i32) -> Option<i32> {
        if i32::MIN <= a + b <= i32::MAX {
            Some((a + b) as i32)
        } else {
            None
        }
    }

    /// The difference of two integers, where that is in the range of `i32`.
    pub open spec fn int_difference(a: i32, b: i32) -> Option<i32> {
        if i32::MIN <= a - b <= i32::MAX {
            Some((a - b) as i32)
        } else {
            None
        }
    }

    /// The product of two integers, where that is in the range of `i32`.
    pub open spec fn int_product(a: i32, b: i32) -> Option<i32> {
        if i32::MIN <= a * b <= i32::MAX {
            Some((a * b) as i32)
        } else {
            None
        }
    }

    /// The sum. Two integers give an integer where the sum is in the range of
    /// `i32`; everything else is added as doubles.
    pub fn plus<H: FloatOps>(self, host: &H, rhs: Self) -> (r: Self)
        ensures
            match (self, rhs) {
                (RlispNum::Int(a), RlispNum::Int(b)) => match RlispNum::int_sum(a, b) {
                    Some(s) => r == RlispNum::Int(s),
                    None => r is Float,
                },
                _ => r is Float,
            },
    {
        match (self, rhs) {
            (RlispNum::Int(a), RlispNum::Int(b)) => {
                let wide: i64 = a as i64 + b as i64;
                if wide >= i32::MIN as i64 && wide <= i32::MAX as i64 {
                    return RlispNum::Int(wide as i32);
                }
            },
            _ => {},
        }
        RlispNum::Float(host.float_add(self.to_float(host), rhs.to_float(host)))
    }

    /// The difference. Two integers give an integer where the difference is
    /// in the range of `i32`; everything else is subtracted as doubles.
    pub fn minus<H: FloatOps>(self, host: &H, rhs: Self) -> (r: Self)
        ensures
            match (self, rhs) {
                (RlispNum::Int(a), RlispNum::Int(b)) => match RlispNum::int_difference(a, b) {
                    Some(s) => r == RlispNum::Int(s),
                    None => r is Float,
                },
                _ => r is Float,
            },
    {
        match (self, rhs) {
            (RlispNum::Int(a), RlispNum::Int(b)) => {
                let wide: i64 = a as i64 - b as i64;
                if wide >= i32::MIN as i64 && wide <= i32::MAX as i64 {
                    return RlispNum::Int(wide as i32);
                }
            },
            _ => {},
        }
        RlispNum::Float(host.float_sub(self.to_float(host), rhs.to_float(host)))
    }

    /// The product. Two integers give an integer where the product is in the
    /// range of `i32`; everything else is multiplied as doubles.
    pub fn times<H: FloatOps>(self, host: &H, rhs: Self) -> (r: Self)
        ensures
            match (self, rhs) {
                (RlispNum::Int(a), RlispNum::Int(b)) => match RlispNum::int_product(a, b) {
                    Some(s) => r == RlispNum::Int(s),
                    None => r is Float,
                },
                _ => r is Float,
            },
    {
        match (self, rhs) {
            (RlispNum::Int(a), RlispNum::Int(b)) => {
                proof {
                    lemma_product_bounds(a as int, b as int);
                }
                let wide: i64 = (a as i64) * (b as i64);
                if wide >= i32::MIN as i64 && wide <= i32::MAX as i64 {
                    return RlispNum::Int(wide as i32);
                }
            },
            _ => {},
        }
        RlispNum::Float(host.float_mul(self.to_float(host), rhs.to_float(host)))
    }

    /// The quotient, always as a double.
    pub fn divided_by<H: FloatOps>(self, host: &H, rhs: Self) -> (r: Self)
        ensures
            r is Float,
    {
        RlispNum::Float(host.float_div(self.to_float(host), rhs.to_float(host)))
    }

    /// The number negated.
    pub fn negated<H: FloatOps>(self, host: &H) -> (r: Self)
        ensures
            match self {
                RlispNum::Int(a) => match RlispNum::int_product(a, -1i32) {
                    Some(s) => r == RlispNum::Int(s),
                    None => r is Float,
                },
                _ => r is Float,
            },
    {
        self.times(host, RlispNum::Int(-1))
    }

    /// The remainder, with the sign of `self`. Two integers give an integer
    /// unless the divisor is 0, or -1, which the least integer cannot be
    /// divided by; everything else is divided as doubles.
    pub fn remainder<H: FloatOps>(self, host: &H, rhs: Self) -> (r: Self)
        ensures
            match (self, rhs) {
                (RlispNum::Int(a), RlispNum::Int(b)) => if b > 0 && a >= 0 {
                    r == RlispNum::Int((a % b) as i32)
                } else if b == 0 || b == -1 {
                    r is Float
                } else {
                    r is Int
                },
                _ => r is Float,
            },
    {
        match (self, rhs) {
            (RlispNum::Int(a), RlispNum::Int(b)) => {
                if b != 0 && b != -1 {
                    return RlispNum::Int(a % b);
                }
            },
            _ => {},
        }
        RlispNum::Float(host.float_rem(self.to_float(host), rhs.to_float(host)))
    }

    /// True iff the two numbers are equal: as integers where both are, else
    /// as doubles.
    pub fn num_eq<H: FloatOps>(self, host: &H, rhs: Self) -> (r: bool)
        ensures
            match (self, rhs) {
                (RlispNum::Int(a), RlispNum::Int(b)) => r == (a == b),
                _ => true,
            },
    {
        match (self, rhs) {
            (RlispNum::Int(a), RlispNum::Int(b)) => a == b,
            _ => host.float_eq(self.to_float(host), rhs.to_float(host)),
        }
    }

    /// True iff `self` is less than `rhs`: as integers where both are, else
    /// as doubles.
    pub fn num_lt<H: FloatOps>(self, host: &H, rhs: Self) -> (r: bool)
        ensures
            match (self, rhs) {
                (RlispNum::Int(a), RlispNum::Int(b)) => r == (a < b),
                _ => true,
            },
    {
        match (self, rhs) {
            (RlispNum::Int(a), RlispNum::Int(b)) => a < b,
            _ => host.float_lt(self.to_float(host), rhs.to_float(host)),
        }
    }

    /// True iff `self` is at most `rhs`: as integers where both are, else as
    /// doubles.
    pub fn num_le<H: FloatOps>(self, host: &H, rhs: Self) -> (r: bool)
        ensures
            match (self, rhs) {
                (RlispNum::Int(a), RlispNum::Int(b)) => r == (a <= b),
                _ => true,
            },
    {
        match (self, rhs) {
            (RlispNum::Int(a), RlispNum::Int(b)) => a <= b,
            _ => host.float_le(self.to_float(host), rhs.to_float(host)),
        }
    }

    /// The double `bits` as a number: as an integer where it is a whole
    /// number in the range of `i32`, and as it is where not.
    pub open spec fn spec_flattened(bits: u64) -> RlispNum {
        match spec_whole(bits) {
            Some(i) => RlispNum::Int(i),
            None => RlispNum::Float(bits),
        }
    }

    /// True iff the number is an integer wherever it can be one: it is no
    /// double that is a whole number in the range of `i32`.
    pub open spec fn flat(self) -> bool {
        match self {
            RlispNum::Int(_) => true,
            RlispNum::Float(bits) => spec_whole(bits) is None,
        }
    }

    /// What rounding the number to a whole number gives, `r`, whichever way
    /// it is rounded: an integer is its own rounding; a double that is a
    /// whole number in the range of `i32` gives that integer; any other
    /// double the host rounds, and `r` is what the host returns, as an
    /// integer wherever it can be one.
    pub open spec fn rounds_to(self, r: RlispNum) -> bool {
        match self {
            RlispNum::Int(_) => r == self,
            RlispNum::Float(bits) => match spec_whole(bits) {
                Some(i) => r == RlispNum::Int(i),
                None => r.flat(),
            },
        }
    }

    /// A double that is a whole number in the range of `i32` as that
    /// integer; any other number as it is.
    pub fn try_flatten(self) -> (r: Self)
        ensures
            r == (match self {
                RlispNum::Float(bits) => RlispNum::spec_flattened(bits),
                RlispNum::Int(_) => self,
            }),
    {
        match self {
            RlispNum::Float(bits) => try_flatten_float(bits),
            RlispNum::Int(_) => self,
        }
    }

    /// The number rounded towards zero.
    pub fn trunc<H: FloatOps>(self, host: &H) -> (r: Self)
        ensures
            self.rounds_to(r),
    {
        match self {
            RlispNum::Float(bits) => match whole_of(bits) {
                Some(i) => RlispNum::Int(i),
                None => try_flatten_float(host.trunc(bits)),
            },
            RlispNum::Int(_) => self,
        }
    }

    /// The number rounded down.
    pub fn floor<H: FloatOps>(self, host: &H) -> (r: Self)
        ensures
            self.rounds_to(r),
    {
        match self {
            RlispNum::Float(bits) => match whole_of(bits) {
                Some(i) => RlispNum::Int(i),
                None => try_flatten_float(host.floor(bits)),
            },
            RlispNum::Int(_) => self,
        }
    }

    /// The number rounded up.
    pub fn ceil<H: FloatOps>(self, host: &H) -> (r: Self)
        ensures
            self.rounds_to(r),
    {
        match self {
            RlispNum::Float(bits) => match whole_of(bits) {
                Some(i) => RlispNum::Int(i),
                None => try_flatten_float(host.ceil(bits)),
            },
            RlispNum::Int(_) => self,
        }
    }

    /// The number rounded to the nearest whole number.
    pub fn round<H: FloatOps>(self, host: &H) -> (r: Self)
        ensures
            self.rounds_to(r),
    {
        match self {
            RlispNum::Float(bits) => match whole_of(bits) {
                Some(i) => RlispNum::Int(i),
                None => try_flatten_float(host.round(bits)),
            },
            RlispNum::Int(_) => self,
        }
    }

    /// The number without its sign. The least integer, which has no
    /// counterpart, gives a double.
    pub fn abs<H: FloatOps>(self, host: &H) -> (r: Self)
        ensures
            match self {
                RlispNum::Int(a) => if a >= 0 {
                    r == self
                } else if a > i32::MIN {
                    r == RlispNum::Int((-a) as i32)
                } else {
                    r is Float
                },
                RlispNum::Float(_) => r is Float,
            },
    {
        match self {
            RlispNum::Int(a) => {
                if a >= 0 {
                    self
                } else if a > i32::MIN {
                    RlispNum::Int(-a)
                } else {
                    RlispNum::Float(host.abs(host.from_int(a)))
                }
            },
            RlispNum::Float(bits) => RlispNum::Float(host.abs(bits)),
        }
    }
}

/// The product of two numbers in the range of `i32` is in the range of `i64`.
pub proof fn lemma_product_bounds(a: int, b: int)
    requires
        i32::MIN <= a <= i32::MAX,
        i32::MIN <= b <= i32::MAX,
    ensures
        i64::MIN <= a * b <= i64::MAX,
{
    assert(-0x8000_0000 * 0x8000_0000 <= a * b <= 0x8000_0000 * 0x8000_0000) by (nonlinear_arith)
        requires
            -0x8000_0000 <= a <= 0x8000_0000,
            -0x8000_0000 <= b <= 0x8000_0000,
    ;
}

/// The double as an integer where it is a whole number in the range of
/// `i32`, and as it is where not.
pub fn try_flatten_float(bits: u64) -> (r: RlispNum)
    ensures
        r == RlispNum::spec_flattened(bits),
{
    match whole_of(bits) {
        Some(i) => RlispNum::Int(i),
        None => RlispNum::Float(bits),
    }
}

/// True iff `num` is odd.
pub fn oddp(num: i32) -> (r: bool)
    ensures
        r == (num % 2 != 0),
{
    (num % 2) != 0
}

} // verus!
