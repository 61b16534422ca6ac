//! What comparing and choosing doubles gives, by their bits.
use crate::double::Double;
use crate::values;
use vstd::prelude::*;

verus! {

/// Bits of a double without the first, which is the sign.
pub open spec fn unsigned_bits(d: Double) -> int {
    d.bits as int % 0x8000_0000_0000_0000
}

/// The bits stand for no number: all eleven of the exponent are set, and one of
/// the fraction is.
pub open spec fn is_no_number(d: Double) -> bool {
    unsigned_bits(d) / 0x10_0000_0000_0000 == 0x7ff && unsigned_bits(d) % 0x10_0000_0000_0000 != 0
}

/// The bits stand for infinity, of either sign.
pub open spec fn is_infinite(d: Double) -> bool {
    unsigned_bits(d) / 0x10_0000_0000_0000 == 0x7ff && unsigned_bits(d) % 0x10_0000_0000_0000 == 0
}

pub open spec fn is_signed(d: Double) -> bool {
    d.bits >= 0x8000_0000_0000_0000
}

/// One double is less than another: both are numbers; infinity is more than any
/// other number and less than none, with a sign less than any other and more than
/// none; finite numbers are as they are on the real line.
pub open spec fn is_less(a: Double, b: Double) -> bool {
    if is_no_number(a) || is_no_number(b) {
        false
    } else if is_infinite(a) {
        is_signed(a) && !(is_infinite(b) && is_signed(b))
    } else if is_infinite(b) {
        !is_signed(b)
    } else {
        values::value(a) < values::value(b)
    }
}

proof fn lemma_kinds(d: Double)
    ensures
        d.magnitude() == unsigned_bits(d),
        d.is_nan_spec() <==> is_no_number(d),
        values::finite(d) <==> !is_no_number(d) && !is_infinite(d),
        is_infinite(d) <==> d.magnitude() == 0x7ff0_0000_0000_0000,
{
}

proof fn lemma_less(a: Double, b: Double)
    ensures
        a.below(b) <==> is_less(a, b),
{
    lemma_kinds(a);
    lemma_kinds(b);
    if values::finite(a) && values::finite(b) {
        values::law_order_is_that_of_values(a, b);
    }
}

/// Doubles compare as the numbers that they stand for, and what is no number
/// compares with nothing.
pub proof fn law_comparisons_are_of_numbers(
    a: Double,
    b: Double,
    lt: bool,
    gt: bool,
    ge: bool,
    same: bool,
    nan: bool,
    bits: u64,
    from: Double,
    to: u64,
)
    requires
        call_ensures(Double::lt, (a, b), lt),
        call_ensures(Double::gt, (a, b), gt),
        call_ensures(Double::ge, (a, b), ge),
        call_ensures(Double::same_number, (a, b), same),
        call_ensures(Double::is_nan, (a,), nan),
        call_ensures(Double::from_bits, (bits,), from),
        call_ensures(Double::to_bits, (a,), to),
    ensures
        lt <==> is_less(a, b),
        gt <==> is_less(b, a),
        ge <==> !is_no_number(a) && !is_no_number(b) && !is_less(a, b),
        same <==> !is_no_number(a) && !is_no_number(b) && !is_less(a, b) && !is_less(b, a),
        nan <==> is_no_number(a),
        from.bits == bits,
        to == a.bits,
        a.below(b) <==> is_less(a, b),
{
    lemma_kinds(a);
    lemma_kinds(b);
    lemma_less(a, b);
    lemma_less(b, a);
}

/// The larger of two is one of them that the other is not above, and a number
/// where one is; clamping gives the number itself between the bounds, else the
/// bound that it is beyond, and leaves what is no number. The place of a number
/// in the order says which of two is less.
pub proof fn law_choices_are_of_numbers(
    a: Double,
    b: Double,
    larger: Double,
    low: Double,
    high: Double,
    clamped: Double,
    i: i64,
    j: i64,
)
    requires
        call_ensures(Double::max, (a, b), larger),
        call_ensures(Double::clamp, (a, low, high), clamped),
        call_ensures(Double::order_key, (a,), i),
        call_ensures(Double::order_key, (b,), j),
    ensures
        larger == a || larger == b,
        !is_less(larger, a) && !is_less(larger, b),
        is_no_number(larger) ==> is_no_number(a) && is_no_number(b),
        !is_less(a, b) && !is_no_number(a) ==> larger == a,
        is_less(a, low) ==> clamped == low,
        !is_less(a, low) && is_less(high, a) ==> clamped == high,
        !is_less(a, low) && !is_less(high, a) ==> clamped == a,
        is_no_number(a) ==> clamped == a,
        !is_no_number(a) && !is_no_number(b) ==> (i < j <==> is_less(a, b)),
        is_no_number(a) && is_no_number(b) ==> i == j,
        is_no_number(b) && !is_no_number(a) ==> i < j,
{
    lemma_kinds(a);
    lemma_kinds(b);
    lemma_less(a, b);
    lemma_less(b, a);
    lemma_less(a, low);
    lemma_less(high, a);
    lemma_less(larger, a);
    lemma_less(larger, b);
    lemma_kinds(larger);
}

} // verus!
