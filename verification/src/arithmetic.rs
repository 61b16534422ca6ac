//! The arithmetic of doubles, supplied by the caller.
//!
//! No method carries a contract, so nothing is taken on trust: the contracts
//! of this library say which operation produced which number, through the
//! relations below. Laws that need more suppose it by name: that the arithmetic
//! agrees with itself, or that it keeps the order and the sign of numbers, as
//! that of the machine does.
use crate::double;
use crate::double::Double;
use vstd::prelude::*;

verus! {

/// Operations on doubles.
pub trait Arithmetic {
    /// `a + b`
    fn plus(&self, a: Double, b: Double) -> Double;

    /// `a - b`
    fn minus(&self, a: Double, b: Double) -> Double;

    /// `a * b`
    fn times(&self, a: Double, b: Double) -> Double;

    /// `a / b`
    fn over(&self, a: Double, b: Double) -> Double;

    /// The square root of `a`.
    fn root(&self, a: Double) -> Double;

    /// The largest integer that is not above `a`.
    fn floor(&self, a: Double) -> Double;

    /// The smallest integer that is not below `a`.
    fn ceil(&self, a: Double) -> Double;

    /// The number nearest to the integer `n`.
    fn from_integer(&self, n: u64) -> Double;

    /// Ten to the power of `exponent`.
    fn power_of_ten(&self, exponent: i32) -> Double;

    /// The number that a decimal text stands for, if it stands for one.
    fn parse(&self, text: &str) -> Option<Double>;

    /// The number in decimal, with so many digits behind the point.
    fn fixed(&self, a: Double, decimals: usize) -> String;
}

/// `r` is a result of `a + b`.
pub open spec fn is_sum<A: Arithmetic>(ops: &A, a: Double, b: Double, r: Double) -> bool {
    call_ensures(A::plus, (ops, a, b), r)
}

/// `r` is a result of `a - b`.
pub open spec fn is_difference<A: Arithmetic>(ops: &A, a: Double, b: Double, r: Double) -> bool {
    call_ensures(A::minus, (ops, a, b), r)
}

/// `r` is a result of `a * b`.
pub open spec fn is_product<A: Arithmetic>(ops: &A, a: Double, b: Double, r: Double) -> bool {
    call_ensures(A::times, (ops, a, b), r)
}

/// `r` is a result of `a / b`.
pub open spec fn is_quotient<A: Arithmetic>(ops: &A, a: Double, b: Double, r: Double) -> bool {
    call_ensures(A::over, (ops, a, b), r)
}

/// `r` is a result of the square root of `a`.
pub open spec fn is_root<A: Arithmetic>(ops: &A, a: Double, r: Double) -> bool {
    call_ensures(A::root, (ops, a), r)
}

/// `r` is a result of rounding `a` down.
pub open spec fn is_floor<A: Arithmetic>(ops: &A, a: Double, r: Double) -> bool {
    call_ensures(A::floor, (ops, a), r)
}

/// `r` is a result of rounding `a` up.
pub open spec fn is_ceil<A: Arithmetic>(ops: &A, a: Double, r: Double) -> bool {
    call_ensures(A::ceil, (ops, a), r)
}

/// `r` is a result of turning the integer `n` into a number.
pub open spec fn is_number_of<A: Arithmetic>(ops: &A, n: u64, r: Double) -> bool {
    call_ensures(A::from_integer, (ops, n), r)
}

/// `r` is a result of ten to the power of `exponent`.
pub open spec fn is_power_of_ten<A: Arithmetic>(ops: &A, exponent: i32, r: Double) -> bool {
    call_ensures(A::power_of_ten, (ops, exponent), r)
}

/// `r` is a result of reading `text` as a number.
pub open spec fn is_parse<A: Arithmetic>(ops: &A, text: Seq<char>, r: Option<Double>) -> bool {
    exists|s: &str| s@ == text && #[trigger] call_ensures(A::parse, (ops, s), r)
}

/// `text` is a result of writing `a` with so many decimals.
pub open spec fn is_fixed<A: Arithmetic>(
    ops: &A,
    a: Double,
    decimals: usize,
    text: Seq<char>,
) -> bool {
    exists|s: String| s@ == text && #[trigger] call_ensures(A::fixed, (ops, a, decimals), s)
}

/// The arithmetic agrees with itself: the same operation on the same arguments
/// has the same result every time. The bits of what is not a number are left
/// open, in arguments and in results.
pub open spec fn is_repeatable<A: Arithmetic>(ops: &A) -> bool {
    &&& forall|a: Double, b: Double, c: Double, d: Double, r: Double, q: Double|
        #![trigger is_sum(ops, a, b, r), is_sum(ops, c, d, q)]
        is_sum(ops, a, b, r) && is_sum(ops, c, d, q) && a.alike(c) && b.alike(d) ==> r.alike(q)
    &&& forall|a: Double, b: Double, c: Double, d: Double, r: Double, q: Double|
        #![trigger is_difference(ops, a, b, r), is_difference(ops, c, d, q)]
        is_difference(ops, a, b, r) && is_difference(ops, c, d, q) && a.alike(c) && b.alike(d) ==> r.alike(q)
    &&& forall|a: Double, b: Double, c: Double, d: Double, r: Double, q: Double|
        #![trigger is_product(ops, a, b, r), is_product(ops, c, d, q)]
        is_product(ops, a, b, r) && is_product(ops, c, d, q) && a.alike(c) && b.alike(d) ==> r.alike(q)
    &&& forall|a: Double, b: Double, c: Double, d: Double, r: Double, q: Double|
        #![trigger is_quotient(ops, a, b, r), is_quotient(ops, c, d, q)]
        is_quotient(ops, a, b, r) && is_quotient(ops, c, d, q) && a.alike(c) && b.alike(d) ==> r.alike(q)
    &&& forall|a: Double, c: Double, r: Double, q: Double|
        #![trigger is_root(ops, a, r), is_root(ops, c, q)]
        is_root(ops, a, r) && is_root(ops, c, q) && a.alike(c) ==> r.alike(q)
    &&& forall|a: Double, c: Double, r: Double, q: Double|
        #![trigger is_floor(ops, a, r), is_floor(ops, c, q)]
        is_floor(ops, a, r) && is_floor(ops, c, q) && a.alike(c) ==> r.alike(q)
    &&& forall|a: Double, c: Double, r: Double, q: Double|
        #![trigger is_ceil(ops, a, r), is_ceil(ops, c, q)]
        is_ceil(ops, a, r) && is_ceil(ops, c, q) && a.alike(c) ==> r.alike(q)
    &&& forall|n: u64, r: Double, q: Double| #[trigger]
        is_number_of(ops, n, r) && #[trigger] is_number_of(ops, n, q) ==> r.alike(q)
}

/// The parser agrees with itself: the same text is the same number every time,
/// or none every time.
pub open spec fn parses_alike<A: Arithmetic>(ops: &A) -> bool {
    forall|s: Seq<char>, r: Option<Double>, q: Option<Double>| #[trigger]
        is_parse(ops, s, r) && #[trigger] is_parse(ops, s, q) ==> double::options_alike(r, q)
}

/// What is not a number stays so under every operation.
pub open spec fn spreads_nan<A: Arithmetic>(ops: &A) -> bool {
    &&& forall|a: Double, b: Double, r: Double|
        #![trigger is_sum(ops, a, b, r)]
        is_sum(ops, a, b, r) && (a.is_nan_spec() || b.is_nan_spec()) ==> r.is_nan_spec()
    &&& forall|a: Double, b: Double, r: Double|
        #![trigger is_difference(ops, a, b, r)]
        is_difference(ops, a, b, r) && (a.is_nan_spec() || b.is_nan_spec()) ==> r.is_nan_spec()
    &&& forall|a: Double, b: Double, r: Double|
        #![trigger is_product(ops, a, b, r)]
        is_product(ops, a, b, r) && (a.is_nan_spec() || b.is_nan_spec()) ==> r.is_nan_spec()
    &&& forall|a: Double, b: Double, r: Double|
        #![trigger is_quotient(ops, a, b, r)]
        is_quotient(ops, a, b, r) && (a.is_nan_spec() || b.is_nan_spec()) ==> r.is_nan_spec()
    &&& forall|a: Double, r: Double|
        #![trigger is_floor(ops, a, r)]
        is_floor(ops, a, r) && a.is_nan_spec() ==> r.is_nan_spec()
    &&& forall|a: Double, r: Double|
        #![trigger is_ceil(ops, a, r)]
        is_ceil(ops, a, r) && a.is_nan_spec() ==> r.is_nan_spec()
}

/// The operations keep the order of numbers, as those that round correctly do:
/// a larger argument never gives a smaller sum, minuend, product with a number
/// that is not negative, or quotient by a positive number.
pub open spec fn keeps_order<A: Arithmetic>(ops: &A) -> bool {
    &&& forall|a: Double, b: Double, c: Double, r: Double, q: Double|
        #![trigger is_sum(ops, a, b, r), is_sum(ops, a, c, q)]
        is_sum(ops, a, b, r) && is_sum(ops, a, c, q) && c.at_least(b) && !r.is_nan_spec()
            && !q.is_nan_spec() ==> q.at_least(r)
    &&& forall|a: Double, b: Double, c: Double, r: Double, q: Double|
        #![trigger is_difference(ops, a, b, r), is_difference(ops, a, c, q)]
        is_difference(ops, a, b, r) && is_difference(ops, a, c, q) && c.at_least(b)
            && !r.is_nan_spec() && !q.is_nan_spec() ==> r.at_least(q)
    &&& forall|a: Double, b: Double, c: Double, r: Double, q: Double|
        #![trigger is_difference(ops, a, c, r), is_difference(ops, b, c, q)]
        is_difference(ops, a, c, r) && is_difference(ops, b, c, q) && b.at_least(a)
            && !r.is_nan_spec() && !q.is_nan_spec() ==> q.at_least(r)
    &&& forall|a: Double, b: Double, c: Double, r: Double, q: Double|
        #![trigger is_product(ops, a, b, r), is_product(ops, a, c, q)]
        is_product(ops, a, b, r) && is_product(ops, a, c, q) && a.is_non_negative()
            && c.at_least(b) && !r.is_nan_spec() && !q.is_nan_spec() ==> q.at_least(r)
    &&& forall|a: Double, b: Double, c: Double, r: Double, q: Double|
        #![trigger is_product(ops, a, c, r), is_product(ops, b, c, q)]
        is_product(ops, a, c, r) && is_product(ops, b, c, q) && c.is_non_negative()
            && b.at_least(a) && !r.is_nan_spec() && !q.is_nan_spec() ==> q.at_least(r)
    &&& forall|a: Double, b: Double, c: Double, r: Double, q: Double|
        #![trigger is_product(ops, a, b, r), is_product(ops, a, c, q)]
        is_product(ops, a, b, r) && is_product(ops, a, c, q) && a.is_non_negative()
            && c.at_least(b) ==> q.larger(Double::zero()).at_least(r.larger(Double::zero()))
    &&& forall|a: Double, b: Double, c: Double, r: Double, q: Double|
        #![trigger is_quotient(ops, a, c, r), is_quotient(ops, b, c, q)]
        is_quotient(ops, a, c, r) && is_quotient(ops, b, c, q) && c.is_positive() && b.at_least(a)
            ==> q.at_least(r)
    &&& forall|a: Double, b: Double, r: Double, q: Double|
        #![trigger is_floor(ops, a, r), is_floor(ops, b, q)]
        is_floor(ops, a, r) && is_floor(ops, b, q) && b.at_least(a) ==> q.at_least(r)
    &&& forall|a: Double, b: Double, r: Double, q: Double|
        #![trigger is_ceil(ops, a, r), is_ceil(ops, b, q)]
        is_ceil(ops, a, r) && is_ceil(ops, b, q) && b.at_least(a) ==> q.at_least(r)
}

/// A share of what is not negative is not negative, nor is its root, and what
/// counts something is at least one.
pub open spec fn roots_of_shares_keep_sign<A: Arithmetic>(ops: &A) -> bool {
    &&& forall|a: Double, b: Double, r: Double|
        #![trigger is_quotient(ops, a, b, r)]
        is_quotient(ops, a, b, r) && a.is_non_negative() && b.is_positive()
            ==> r.is_non_negative()
    &&& forall|a: Double, r: Double|
        #![trigger is_root(ops, a, r)]
        is_root(ops, a, r) && a.is_non_negative() ==> r.is_non_negative()
    &&& forall|n: u64, r: Double|
        #![trigger is_number_of(ops, n, r)]
        is_number_of(ops, n, r) && n > 0 ==> r.is_finite_spec() && r.at_least(Double::one())
}

/// The operations keep the sign, and give numbers where the rules of doubles
/// do: no sum or difference with a finite number, no product of finite numbers
/// and no quotient by a positive one is not-a-number.
pub open spec fn keeps_sign<A: Arithmetic>(ops: &A) -> bool {
    &&& forall|a: Double, b: Double, r: Double|
        #![trigger is_sum(ops, a, b, r)]
        is_sum(ops, a, b, r) && a.is_finite_spec() && !b.is_nan_spec() ==> !r.is_nan_spec()
    &&& forall|a: Double, b: Double, r: Double|
        #![trigger is_difference(ops, a, b, r)]
        is_difference(ops, a, b, r) && !a.is_nan_spec() && !b.is_nan_spec() && (
        a.is_finite_spec() || b.is_finite_spec()) ==> !r.is_nan_spec()
    &&& forall|a: Double, r: Double|
        #![trigger is_difference(ops, a, a, r)]
        is_difference(ops, a, a, r) && a.is_finite_spec() ==> r.equals(Double::zero())
    &&& forall|a: Double, b: Double, r: Double|
        #![trigger is_product(ops, a, b, r)]
        is_product(ops, a, b, r) && a.is_finite_spec() && b.is_finite_spec() ==> !r.is_nan_spec()
    &&& forall|a: Double, b: Double, r: Double|
        #![trigger is_product(ops, a, b, r)]
        is_product(ops, a, b, r) && !a.is_nan_spec() && b.is_positive() ==> !r.is_nan_spec()
    &&& forall|a: Double, b: Double, r: Double|
        #![trigger is_product(ops, a, b, r)]
        is_product(ops, a, b, r) && a.is_non_negative() && b.is_non_negative()
            && !r.is_nan_spec() ==> r.is_non_negative()
    &&& roots_of_shares_keep_sign(ops)
    &&& forall|a: Double, b: Double, r: Double|
        #![trigger is_quotient(ops, a, b, r)]
        is_quotient(ops, a, b, r) && !a.is_nan_spec() && b.is_positive() ==> !r.is_nan_spec()
    &&& forall|a: Double, b: Double, r: Double|
        #![trigger is_quotient(ops, a, b, r)]
        is_quotient(ops, a, b, r) && a.equals(Double::zero()) && b.is_positive() ==> r.equals(
            Double::zero(),
        )
    &&& forall|a: Double, r: Double|
        #![trigger is_root(ops, a, r)]
        is_root(ops, a, r) && a.is_positive() ==> r.is_positive()
}

/// Quotients stand about one as their arguments stand about each other, and
/// none of numbers from one on vanishes.
pub open spec fn keeps_proportion<A: Arithmetic>(ops: &A) -> bool {
    &&& forall|a: Double, b: Double, r: Double|
        #![trigger is_quotient(ops, a, b, r)]
        is_quotient(ops, a, b, r) && b.is_positive() && a.at_least(b) ==> r.at_least(Double::one())
    &&& forall|a: Double, b: Double, r: Double|
        #![trigger is_quotient(ops, a, b, r)]
        is_quotient(ops, a, b, r) && b.is_positive() && !a.is_nan_spec() && a.rank() <= -b.rank()
            ==> Double::minus_one().at_least(r)
    &&& forall|a: Double, b: Double, r: Double|
        #![trigger is_quotient(ops, a, b, r)]
        is_quotient(ops, a, b, r) && a.is_finite_spec() && b.is_finite_spec() && a.at_least(
            Double::one(),
        ) && b.at_least(Double::one()) ==> r.is_positive()
}

} // verus!
