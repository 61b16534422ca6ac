//! Double-precision numbers, held by their bit pattern.
//!
//! Everything that compares numbers is decided here from the bits alone: sign
//! bit, then magnitude, with the patterns above infinity standing for
//! not-a-number. What computes new numbers is left to
//! [`Arithmetic`](crate::arithmetic::Arithmetic).
use vstd::prelude::*;

verus! {

/// The sign bit of a double.
pub const SIGN_BIT: u64 = 0x8000_0000_0000_0000;

/// The magnitude bits of infinity; larger magnitudes are not numbers.
pub const INFINITE: u64 = 0x7ff0_0000_0000_0000;

/// A double-precision floating-point number.
#[derive(Clone, Copy, Debug, PartialEq, Eq, Structural)]
pub struct Double {
    pub bits: u64,
}

impl Double {
    /// `0.0`
    #[verifier::allow_in_spec]
    pub fn zero() -> Double
        returns
            (Double { bits: 0 }),
    {
        Double { bits: 0 }
    }

    /// `0.5`
    #[verifier::allow_in_spec]
    pub fn half() -> Double
        returns
            (Double { bits: 0x3fe0_0000_0000_0000 }),
    {
        Double { bits: 0x3fe0_0000_0000_0000 }
    }

    /// `1.0`
    #[verifier::allow_in_spec]
    pub fn one() -> Double
        returns
            (Double { bits: 0x3ff0_0000_0000_0000 }),
    {
        Double { bits: 0x3ff0_0000_0000_0000 }
    }

    /// `-1.0`
    #[verifier::allow_in_spec]
    pub fn minus_one() -> Double
        returns
            (Double { bits: 0xbff0_0000_0000_0000 }),
    {
        Double { bits: 0xbff0_0000_0000_0000 }
    }

    /// `2.0`
    #[verifier::allow_in_spec]
    pub fn two() -> Double
        returns
            (Double { bits: 0x4000_0000_0000_0000 }),
    {
        Double { bits: 0x4000_0000_0000_0000 }
    }

    /// `10000.0`, the number of basis points in one.
    #[verifier::allow_in_spec]
    pub fn basis_points() -> Double
        returns
            (Double { bits: 0x40c3_8800_0000_0000 }),
    {
        Double { bits: 0x40c3_8800_0000_0000 }
    }

    /// `1_000_000_000.0`, the number of nanoseconds in a second.
    #[verifier::allow_in_spec]
    pub fn nanos_per_second() -> Double
        returns
            (Double { bits: 0x41cd_cd65_0000_0000 }),
    {
        Double { bits: 0x41cd_cd65_0000_0000 }
    }

    /// `1e-10`
    #[verifier::allow_in_spec]
    pub fn tiny() -> Double
        returns
            (Double { bits: 0x3ddb_7cdf_d9d7_bdbb }),
    {
        Double { bits: 0x3ddb_7cdf_d9d7_bdbb }
    }

    /// The bits without the sign.
    pub open spec fn magnitude(self) -> int {
        if self.bits >= SIGN_BIT {
            self.bits - SIGN_BIT
        } else {
            self.bits as int
        }
    }

    pub open spec fn is_nan_spec(self) -> bool {
        self.magnitude() > INFINITE
    }

    /// A number that is not infinite.
    pub open spec fn is_finite_spec(self) -> bool {
        self.magnitude() < INFINITE
    }

    /// A finite number above zero.
    pub open spec fn is_positive(self) -> bool {
        self.is_finite_spec() && Double::zero().below(self)
    }

    /// A number that is not below zero.
    pub open spec fn is_non_negative(self) -> bool {
        self.at_least(Double::zero())
    }

    /// The number's place in the order of all numbers: both zeros share one
    /// place, and everything that is not a number shares the last.
    pub open spec fn rank(self) -> int {
        if self.is_nan_spec() {
            INFINITE + 1
        } else if self.bits >= SIGN_BIT {
            -self.magnitude()
        } else {
            self.magnitude()
        }
    }

    /// `self < other` as numbers; nothing is below or above not-a-number.
    pub open spec fn below(self, other: Double) -> bool {
        !self.is_nan_spec() && !other.is_nan_spec() && self.rank() < other.rank()
    }

    /// `self == other` as numbers; not-a-number equals nothing.
    pub open spec fn equals(self, other: Double) -> bool {
        !self.is_nan_spec() && !other.is_nan_spec() && self.rank() == other.rank()
    }

    /// The same number, or both not a number: the bits of what is not a number
    /// are left open.
    pub open spec fn alike(self, other: Double) -> bool {
        self == other || self.is_nan_spec() && other.is_nan_spec()
    }

    /// `self >= other` as numbers.
    pub open spec fn at_least(self, other: Double) -> bool {
        !self.is_nan_spec() && !other.is_nan_spec() && self.rank() >= other.rank()
    }

    /// The larger of two numbers; a number wins over not-a-number, and of two
    /// equal ones the first is taken.
    pub open spec fn larger(self, other: Double) -> Double {
        if self.is_nan_spec() || self.below(other) {
            other
        } else {
            self
        }
    }

    /// The number moved into `low..=high`; not-a-number stays itself.
    pub open spec fn clamped(self, low: Double, high: Double) -> Double {
        if self.below(low) {
            low
        } else if high.below(self) {
            high
        } else {
            self
        }
    }

    /// The number with this bit pattern.
    pub fn from_bits(bits: u64) -> (r: Double)
        ensures
            r.bits == bits,
    {
        Double { bits }
    }

    /// The bit pattern of the number.
    pub fn to_bits(self) -> (bits: u64)
        ensures
            bits == self.bits,
    {
        self.bits
    }

    /// Whether this is not a number.
    pub fn is_nan(self) -> (r: bool)
        ensures
            r == self.is_nan_spec(),
    {
        if self.bits >= SIGN_BIT {
            self.bits - SIGN_BIT > INFINITE
        } else {
            self.bits > INFINITE
        }
    }

    /// The number's place in the order of all numbers, as an integer.
    pub fn order_key(self) -> (k: i64)
        ensures
            k == self.rank(),
    {
        if self.is_nan() {
            0x7ff0_0000_0000_0001
        } else if self.bits >= SIGN_BIT {
            -((self.bits - SIGN_BIT) as i64)
        } else {
            self.bits as i64
        }
    }

    /// `self < other` as numbers.
    pub fn lt(self, other: Double) -> (r: bool)
        ensures
            r == self.below(other),
    {
        !self.is_nan() && !other.is_nan() && self.order_key() < other.order_key()
    }

    /// `self > other` as numbers.
    pub fn gt(self, other: Double) -> (r: bool)
        ensures
            r == other.below(self),
    {
        other.lt(self)
    }

    /// `self >= other` as numbers.
    pub fn ge(self, other: Double) -> (r: bool)
        ensures
            r == self.at_least(other),
    {
        !self.is_nan() && !other.is_nan() && self.order_key() >= other.order_key()
    }

    /// `self == other` as numbers.
    pub fn same_number(self, other: Double) -> (r: bool)
        ensures
            r == self.equals(other),
    {
        !self.is_nan() && !other.is_nan() && self.order_key() == other.order_key()
    }

    /// The larger of two numbers.
    pub fn max(self, other: Double) -> (r: Double)
        ensures
            r == self.larger(other),
    {
        if self.is_nan() || self.lt(other) {
            other
        } else {
            self
        }
    }

    /// The number moved into `low..=high`.
    pub fn clamp(self, low: Double, high: Double) -> (r: Double)
        ensures
            r == self.clamped(low, high),
    {
        if self.lt(low) {
            low
        } else if self.gt(high) {
            high
        } else {
            self
        }
    }
}

/// Optional numbers that are alike.
pub open spec fn options_alike(a: Option<Double>, b: Option<Double>) -> bool {
    match (a, b) {
        (Some(x), Some(y)) => x.alike(y),
        (None, None) => true,
        _ => false,
    }
}

/// Two numbers that are numbers compare as exactly one of less, equal, greater.
pub proof fn law_numbers_are_ordered(a: Double, b: Double)
    requires
        !a.is_nan_spec(),
        !b.is_nan_spec(),
    ensures
        a.below(b) || a.equals(b) || b.below(a),
        !(a.below(b) && a.equals(b)),
        !(a.below(b) && b.below(a)),
        !(a.equals(b) && b.below(a)),
        a.at_least(b) == !a.below(b),
{
}

/// The order of numbers is transitive.
pub proof fn law_order_is_transitive(a: Double, b: Double, c: Double)
    requires
        a.below(b),
        b.below(c),
    ensures
        a.below(c),
{
}

/// A clamped number lies between the bounds.
pub proof fn law_clamped_lies_in_bounds(x: Double, low: Double, high: Double)
    requires
        !x.is_nan_spec(),
        !low.is_nan_spec(),
        !high.is_nan_spec(),
        !high.below(low),
    ensures
        !x.clamped(low, high).below(low),
        !high.below(x.clamped(low, high)),
{
}

} // verus!
