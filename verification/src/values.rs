//! The real numbers that doubles stand for, and arithmetic that does not round.
use crate::arithmetic;
use crate::arithmetic::Arithmetic;
use crate::double::{Double, SIGN_BIT};
use vstd::arithmetic::power2::{
    lemma2_to64, lemma2_to64_rest, lemma_pow2_adds, lemma_pow2_unfold, pow2,
};
use vstd::prelude::*;

verus! {

/// Two to the power of `k`.
pub open spec fn power(k: int) -> real
    decreases
            (if k < 0 {
                -k
            } else {
                k
            }),
{
    if k == 0 {
        1 as real
    } else if k > 0 {
        2 as real * power(k - 1)
    } else {
        power(k + 1) / 2 as real
    }
}

/// An integer as a real number.
pub open spec fn whole(n: int) -> real {
    n as real
}

/// The number that magnitude bits stand for: eleven bits of exponent, then
/// fifty-two of fraction.
pub open spec fn magnitude_value(n: int) -> real {
    let exponent = n / 0x10_0000_0000_0000;
    let fraction = n % 0x10_0000_0000_0000;
    if exponent == 0 {
        whole(fraction) * power(-1074)
    } else {
        whole(0x10_0000_0000_0000 + fraction) * power(exponent - 1075)
    }
}

/// The real number that a finite double stands for.
pub open spec fn value(d: Double) -> real {
    if d.bits >= SIGN_BIT {
        0 as real - magnitude_value(d.magnitude())
    } else {
        magnitude_value(d.magnitude())
    }
}

pub open spec fn finite(d: Double) -> bool {
    d.is_finite_spec()
}

/// The arithmetic does not round: whatever an operation gives on finite numbers
/// is the number that the operation on real numbers gives. Where no double is
/// that number, such an arithmetic gives nothing.
pub open spec fn is_exact<A: Arithmetic>(ops: &A) -> bool {
    &&& forall|a: Double, b: Double, r: Double| #[trigger]
        arithmetic::is_sum(ops, a, b, r) && finite(a) && finite(b) ==> finite(r) && value(r)
            == value(a) + value(b)
    &&& forall|a: Double, b: Double, r: Double| #[trigger]
        arithmetic::is_difference(ops, a, b, r) && finite(a) && finite(b) ==> finite(r) && value(r)
            == value(a) - value(b)
    &&& forall|a: Double, b: Double, r: Double| #[trigger]
        arithmetic::is_product(ops, a, b, r) && finite(a) && finite(b) ==> finite(r) && value(r)
            == value(a) * value(b)
    &&& forall|a: Double, b: Double, r: Double| #[trigger]
        arithmetic::is_quotient(ops, a, b, r) && finite(a) && finite(b) && value(b) != 0 as real
            ==> finite(r) && value(r) * value(b) == value(a)
    &&& forall|a: Double, r: Double| #[trigger]
        arithmetic::is_root(ops, a, r) && finite(a) && value(a) >= 0 as real ==> finite(r) && value(
            r,
        ) >= 0 as real && value(r) * value(r) == value(a)
    &&& forall|a: Double, r: Double| #[trigger]
        arithmetic::is_floor(ops, a, r) && finite(a) ==> finite(r) && is_floor_of(
            value(a),
            value(r),
        )
    &&& forall|a: Double, r: Double| #[trigger]
        arithmetic::is_ceil(ops, a, r) && finite(a) ==> finite(r) && is_ceiling_of(
            value(a),
            value(r),
        )
    &&& forall|n: u64, r: Double| #[trigger]
        arithmetic::is_number_of(ops, n, r) ==> finite(r) && value(r) == whole(n as int)
}

/// `r` is an integer.
pub open spec fn is_whole(r: real) -> bool {
    exists|k: int| r == #[trigger] whole(k)
}

/// `r` is the largest integer that is not above `x`.
pub open spec fn is_floor_of(x: real, r: real) -> bool {
    is_whole(r) && r <= x && x < r + 1 as real
}

/// `r` is the smallest integer that is not below `x`.
pub open spec fn is_ceiling_of(x: real, r: real) -> bool {
    is_whole(r) && r >= x && x > r - 1 as real
}

pub proof fn lemma_distribute(a: real, b: real, c: real)
    ensures
        a * (b + c) == a * b + a * c,
        a * (b - c) == a * b - a * c,
        (b + c) * a == b * a + c * a,
        (b - c) * a == b * a - c * a,
        a * b == b * a,
{
    assert(a * (b + c) == a * b + a * c) by (nonlinear_arith);
    assert(a * (b - c) == a * b - a * c) by (nonlinear_arith);
    assert((b + c) * a == b * a + c * a) by (nonlinear_arith);
    assert((b - c) * a == b * a - c * a) by (nonlinear_arith);
    assert(a * b == b * a) by (nonlinear_arith);
}

pub proof fn lemma_associate(a: real, b: real, c: real)
    ensures
        (a * b) * c == a * (b * c),
        (a * b) * c == (a * c) * b,
{
    assert((a * b) * c == a * (b * c)) by (nonlinear_arith);
    assert((a * b) * c == (a * c) * b) by (nonlinear_arith);
}

/// A product with a positive number keeps the sign.
pub proof fn lemma_product_sign(a: real, b: real)
    requires
        b > 0 as real,
    ensures
        a > 0 as real <==> a * b > 0 as real,
        a < 0 as real <==> a * b < 0 as real,
        a == 0 as real <==> a * b == 0 as real,
{
    let p = a * b;
    if a > 0 as real {
        assert(p > 0 as real) by (nonlinear_arith)
            requires
                p == a * b,
                a > 0 as real,
                b > 0 as real,
        ;
    } else if a < 0 as real {
        assert(p < 0 as real) by (nonlinear_arith)
            requires
                p == a * b,
                a < 0 as real,
                b > 0 as real,
        ;
    } else {
        assert(p == 0 as real) by (nonlinear_arith)
            requires
                p == a * b,
                a == 0 as real,
        ;
    }
}

/// Numbers are ordered as their products with a positive number are.
pub proof fn lemma_scaled_order(a: real, b: real, t: real)
    requires
        t > 0 as real,
    ensures
        a < b <==> a * t < b * t,
        a == b <==> a * t == b * t,
{
    lemma_product_sign(a - b, t);
    lemma_distribute(t, a, b);
}

proof fn lemma_power_positive(k: int)
    ensures
        power(k) > 0 as real,
        power(k + 1) == 2 as real * power(k),
    decreases
            (if k < 0 {
                -k
            } else {
                k
            }),
{
    if k > 0 {
        lemma_power_positive(k - 1);
    } else if k < 0 {
        lemma_power_positive(k + 1);
    }
}

/// Larger magnitude bits stand for larger numbers.
proof fn lemma_magnitude_grows(n: int)
    requires
        0 <= n,
    ensures
        magnitude_value(n) < magnitude_value(n + 1),
        magnitude_value(0) == 0 as real,
{
    let p = 0x10_0000_0000_0000int;
    let e = n / p;
    let f = n % p;
    let u = if e == 0 {
        power(-1074)
    } else {
        power(e - 1075)
    };
    lemma_power_positive(-1074);
    lemma_power_positive(e - 1075);
    lemma_product_sign(0 as real, power(-1074));
    if f + 1 < p {
        assert((n + 1) / p == e && (n + 1) % p == f + 1);
        let c = if e == 0 {
            whole(f)
        } else {
            whole(p + f)
        };
        lemma_distribute(u, c, 1 as real);
        lemma_product_sign(1 as real, u);
        assert(magnitude_value(n) == c * u);
        assert(magnitude_value(n + 1) == (c + 1 as real) * u);
    } else {
        assert((n + 1) / p == e + 1 && (n + 1) % p == 0);
        if e == 0 {
            assert(power(1 - 1075) == power(-1074));
            lemma_distribute(u, whole(f), 1 as real);
            lemma_product_sign(1 as real, u);
            assert(magnitude_value(n) == whole(f) * u);
            assert(magnitude_value(n + 1) == whole(p) * u);
            assert(whole(p) == whole(f) + 1 as real);
        } else {
            assert(power(e + 1 - 1075) == 2 as real * u);
            let c = whole(p + f);
            lemma_distribute(u, c, 1 as real);
            lemma_product_sign(1 as real, u);
            lemma_associate(whole(p), 2 as real, u);
            assert(whole(p) * 2 as real == c + 1 as real);
            assert(magnitude_value(n + 1) == whole(p) * (2 as real * u));
            assert(magnitude_value(n) == c * u);
        }
    }
}

proof fn lemma_magnitudes_ordered(a: int, b: int)
    requires
        0 <= a < b,
    ensures
        magnitude_value(a) < magnitude_value(b),
    decreases b - a,
{
    lemma_magnitude_grows(b - 1);
    if a < b - 1 {
        lemma_magnitudes_ordered(a, b - 1);
    }
}

/// A magnitude is never negative, and zero for no bits alone.
proof fn lemma_magnitude_sign(a: int)
    requires
        0 <= a,
    ensures
        a == 0 <==> magnitude_value(a) == 0 as real,
        magnitude_value(a) >= 0 as real,
{
    lemma_magnitude_grows(0);
    if a > 0 {
        lemma_magnitudes_ordered(0, a);
    }
}

/// Finite doubles compare as the real numbers that they stand for.
pub proof fn law_order_is_that_of_values(a: Double, b: Double)
    requires
        finite(a),
        finite(b),
    ensures
        a.below(b) <==> value(a) < value(b),
        a.equals(b) <==> value(a) == value(b),
        a.at_least(b) <==> value(a) >= value(b),
{
    lemma_magnitude_sign(a.magnitude());
    lemma_magnitude_sign(b.magnitude());
    if a.magnitude() < b.magnitude() {
        lemma_magnitudes_ordered(a.magnitude(), b.magnitude());
    } else if b.magnitude() < a.magnitude() {
        lemma_magnitudes_ordered(b.magnitude(), a.magnitude());
    }
}

/// The larger of two finite doubles, and a clamped one, stand for the larger and
/// the clamped number.
pub proof fn law_choices_are_those_of_values(a: Double, low: Double, high: Double)
    requires
        finite(a),
        finite(low),
        finite(high),
    ensures
        value(a.larger(low)) == larger_real(value(a), value(low)),
        finite(a.larger(low)),
        value(low) <= value(high) ==> value(a.clamped(low, high)) == clamped_real(
            value(a),
            value(low),
            value(high),
        ),
        finite(a.clamped(low, high)),
{
    law_order_is_that_of_values(a, low);
    law_order_is_that_of_values(high, a);
}

pub open spec fn larger_real(a: real, b: real) -> real {
    if a < b {
        b
    } else {
        a
    }
}

pub open spec fn smaller_real(a: real, b: real) -> real {
    if b < a {
        b
    } else {
        a
    }
}

pub open spec fn clamped_real(a: real, low: real, high: real) -> real {
    if a < low {
        low
    } else if a > high {
        high
    } else {
        a
    }
}

proof fn lemma_power_of_negative(k: nat)
    ensures
        power(-(k as int)) * whole(pow2(k) as int) == 1 as real,
    decreases k,
{
    if k == 0 {
        lemma2_to64();
    } else {
        let m = (k - 1) as nat;
        lemma_power_of_negative(m);
        lemma_pow2_unfold(k);
        lemma_power_positive(-(k as int));
        let u = power(-(k as int));
        let n = whole(pow2(m) as int);
        assert(power(-(m as int)) == 2 as real * u);
        assert(whole(pow2(k) as int) == n + n);
        lemma_distribute(u, n, n);
        lemma_associate(2 as real, u, n);
    }
}

/// The named numbers stand for what their names say.
pub proof fn law_named_numbers_have_their_values()
    ensures
        value(Double::zero()) == 0 as real,
        value(Double::half()) * 2 as real == 1 as real,
        value(Double::one()) == 1 as real,
        value(Double::minus_one()) == 0 as real - 1 as real,
        value(Double::two()) == 2 as real,
        value(Double::basis_points()) == 10_000 as real,
        value(Double::nanos_per_second()) == 1_000_000_000 as real,
        value(Double::tiny()) > 0 as real,
        finite(Double::zero()) && finite(Double::half()) && finite(Double::one()),
        finite(Double::minus_one()) && finite(Double::two()) && finite(Double::basis_points()),
        finite(Double::nanos_per_second()) && finite(Double::tiny()),
{
    lemma2_to64();
    lemma2_to64_rest();
    lemma_magnitude_sign(0);
    lemma_magnitude_sign(0x3ddb_7cdf_d9d7_bdbb);
    let p = whole(0x10_0000_0000_0000);
    // 1.0 is 2^52 / 2^52
    lemma_power_of_negative(52);
    lemma_distribute(power(-52), p, p);
    assert(magnitude_value(0x3ff0_0000_0000_0000) == p * power(-52));
    // 0.5 is half of that
    lemma_power_positive(-53);
    assert(magnitude_value(0x3fe0_0000_0000_0000) == p * power(-53));
    lemma_associate(p, power(-53), 2 as real);
    lemma_distribute(power(-53), 2 as real, 2 as real);
    // 2.0 is twice that
    lemma_power_positive(-52);
    assert(magnitude_value(0x4000_0000_0000_0000) == p * power(-51));
    lemma_associate(p, power(-52), 2 as real);
    lemma_distribute(power(-52), 2 as real, 2 as real);
    // 10000.0 is 10000 * 2^39 / 2^39
    lemma_power_of_negative(39);
    let q = whole(0x80_0000_0000);
    assert(0x40c3_8800_0000_0000int / 0x10_0000_0000_0000int == 1036);
    assert(0x40c3_8800_0000_0000int % 0x10_0000_0000_0000int == 0x3_8800_0000_0000);
    assert(magnitude_value(0x40c3_8800_0000_0000) == whole(0x13_8800_0000_0000) * power(-39));
    lemma_associate(10_000 as real, q, power(-39));
    lemma_distribute(q, power(-39), power(-39));
    assert(whole(0x13_8800_0000_0000) == 10_000 as real * q);
    // 1e9 is 1e9 * 2^23 / 2^23
    lemma_power_of_negative(23);
    let r = whole(0x80_0000);
    assert(0x41cd_cd65_0000_0000int / 0x10_0000_0000_0000int == 1052);
    assert(0x41cd_cd65_0000_0000int % 0x10_0000_0000_0000int == 0xd_cd65_0000_0000);
    assert(magnitude_value(0x41cd_cd65_0000_0000) == whole(0x1d_cd65_0000_0000) * power(-23));
    lemma_associate(1_000_000_000 as real, r, power(-23));
    lemma_distribute(r, power(-23), power(-23));
    assert(whole(0x1d_cd65_0000_0000) == 1_000_000_000 as real * r);
}

/// A double is the nearest to one over `n`, but for the last of fifteen digits.
pub open spec fn is_about_one_over(d: Double, n: int) -> bool {
    let off = (value(d) * whole(n) - 1 as real) * whole(1_000_000_000_000_000);
    finite(d) && off > 0 as real - 1 as real && off < 1 as real
}

/// `m` over `2^k` is about one over `n`, if `m * n` is about `2^k`.
proof fn lemma_fraction_is_about(m: int, k: nat, n: int)
    requires
        0 - pow2(k) < (m * n - pow2(k)) * 1_000_000_000_000_000 < pow2(k),
    ensures
        ({
            let off = (whole(m) * power(-(k as int)) * whole(n) - 1 as real) * whole(
                1_000_000_000_000_000,
            );
            off > 0 as real - 1 as real && off < 1 as real
        }),
{
    let u = power(-(k as int));
    let p = whole(pow2(k) as int);
    let d = m * n - pow2(k);
    let e = whole(1_000_000_000_000_000);
    lemma_power_of_negative(k);
    lemma_power_positive(-(k as int));
    lemma_distribute(u, p, p);
    assert(p * u == 1 as real);
    lemma_associate(whole(m), u, whole(n));
    lemma_whole_product(m, n);
    assert(whole(m) * u * whole(n) == whole(m * n) * u);
    lemma_distribute(u, whole(m * n), p);
    assert(whole(d) == whole(m * n) - p);
    assert(whole(m) * u * whole(n) - 1 as real == whole(d) * u);
    lemma_associate(whole(d), u, e);
    lemma_whole_product(d, 1_000_000_000_000_000);
    assert((whole(d) * u) * e == whole(d * 1_000_000_000_000_000) * u);
    lemma_scaled_order(whole(d * 1_000_000_000_000_000), p, u);
    lemma_scaled_order(0 as real - p, whole(d * 1_000_000_000_000_000), u);
    lemma_distribute(u, 0 as real, p);
    assert((0 as real) * u == 0 as real) by (nonlinear_arith);
}

proof fn lemma_whole_product(a: int, b: int)
    ensures
        whole(a) * whole(b) == whole(a * b),
{
    assert((a as real) * (b as real) == (a * b) as real) by (nonlinear_arith);
}

/// The doubles of `1e-10`, `0.1`, `0.01`, `0.001` and `0.0001` are about those
/// numbers.
pub proof fn law_named_fractions_have_their_values()
    ensures
        is_about_one_over(Double::tiny(), 10_000_000_000),
        is_about_one_over(Double { bits: 0x3fb9_9999_9999_999a }, 10),
        is_about_one_over(Double { bits: 0x3f84_7ae1_47ae_147b }, 100),
        is_about_one_over(Double { bits: 0x3f50_624d_d2f1_a9fc }, 1_000),
        is_about_one_over(Double { bits: 0x3f1a_36e2_eb1c_432d }, 10_000),
{
    lemma2_to64();
    lemma2_to64_rest();
    lemma_pow2_adds(60, 6);
    lemma_pow2_adds(60, 26);
    lemma_fraction_is_about(0x1b_7cdf_d9d7_bdbb, 86, 10_000_000_000);
    lemma_fraction_is_about(0x19_9999_9999_999a, 56, 10);
    lemma_fraction_is_about(0x14_7ae1_47ae_147b, 59, 100);
    lemma_fraction_is_about(0x10_624d_d2f1_a9fc, 62, 1_000);
    lemma_fraction_is_about(0x1a_36e2_eb1c_432d, 66, 10_000);
    assert(magnitude_value(0x3ddb_7cdf_d9d7_bdbb) == whole(0x1b_7cdf_d9d7_bdbb) * power(-86));
    assert(magnitude_value(0x3fb9_9999_9999_999a) == whole(0x19_9999_9999_999a) * power(-56));
    assert(magnitude_value(0x3f84_7ae1_47ae_147b) == whole(0x14_7ae1_47ae_147b) * power(-59));
    assert(magnitude_value(0x3f50_624d_d2f1_a9fc) == whole(0x10_624d_d2f1_a9fc) * power(-62));
    assert(magnitude_value(0x3f1a_36e2_eb1c_432d) == whole(0x1a_36e2_eb1c_432d) * power(-66));
}

} // verus!
