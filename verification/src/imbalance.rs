//! Order book imbalance: how much more size is bid than asked near a price.
use crate::arithmetic;
use crate::arithmetic::Arithmetic;
use crate::double::Double;
use crate::orderbook;
use crate::orderbook::{BookSide, Level};
use vstd::prelude::*;

verus! {

/// `totals` are running totals of `sizes`, from zero to the sum of all.
pub open spec fn running_totals<A: Arithmetic>(
    ops: &A,
    sizes: Seq<Double>,
    totals: Seq<Double>,
) -> bool {
    &&& totals.len() == sizes.len() + 1
    &&& totals[0] == Double::zero()
    &&& forall|i: int|
        #![trigger sizes[i]]
        0 <= i < sizes.len() ==> arithmetic::is_sum(ops, totals[i], sizes[i], totals[i + 1])
}

/// The sizes of the first `n` levels.
pub open spec fn sizes_of(levels: Seq<Level>, n: int) -> Seq<Double> {
    Seq::new(n as nat, |i: int| levels[i].size)
}

/// The first `n` bids, highest first, are those before the first below `lower`.
pub open spec fn bid_reach(levels: Seq<Level>, lower: Double, n: int) -> bool {
    &&& 0 <= n <= levels.len()
    &&& forall|i: int| 0 <= i < n ==> !(#[trigger] levels[i]).price.below(lower)
    &&& n < levels.len() ==> levels[n].price.below(lower)
}

/// The first `n` asks, lowest first, are those before the first above `upper`.
pub open spec fn ask_reach(levels: Seq<Level>, upper: Double, n: int) -> bool {
    &&& 0 <= n <= levels.len()
    &&& forall|i: int| 0 <= i < n ==> !upper.below((#[trigger] levels[i]).price)
    &&& n < levels.len() ==> upper.below(levels[n].price)
}

/// What is computed on the way to an imbalance.
pub struct ImbalanceSteps {
    pub low_factor: Double,
    pub lower: Double,
    pub high_factor: Double,
    pub upper: Double,
    /// The bids from the lowest to the highest.
    pub bids: Seq<Level>,
    pub bids_counted: int,
    pub bid_totals: Seq<Double>,
    /// The asks from the lowest to the highest.
    pub asks: Seq<Level>,
    pub asks_counted: int,
    pub ask_totals: Seq<Double>,
}

/// `r` is an imbalance, and `w` holds what is computed on the way: the bids
/// down to `mid * (1 - depth)` are added from the highest, the asks up to
/// `mid * (1 + depth)` from the lowest.
pub open spec fn imbalance_by<A: Arithmetic>(
    ops: &A,
    bids: Map<i64, Level>,
    asks: Map<i64, Level>,
    mid: Double,
    depth: Double,
    w: ImbalanceSteps,
    r: Double,
) -> bool {
    &&& arithmetic::is_difference(ops, Double::one(), depth, w.low_factor)
    &&& arithmetic::is_product(ops, mid, w.low_factor, w.lower)
    &&& arithmetic::is_sum(ops, Double::one(), depth, w.high_factor)
    &&& arithmetic::is_product(ops, mid, w.high_factor, w.upper)
    &&& orderbook::lists(bids, w.bids)
    &&& bid_reach(w.bids.reverse(), w.lower, w.bids_counted)
    &&& running_totals(ops, sizes_of(w.bids.reverse(), w.bids_counted), w.bid_totals)
    &&& orderbook::lists(asks, w.asks)
    &&& ask_reach(w.asks, w.upper, w.asks_counted)
    &&& running_totals(ops, sizes_of(w.asks, w.asks_counted), w.ask_totals)
    &&& arithmetic::is_difference(ops, w.bid_totals.last(), w.ask_totals.last(), r)
}

/// `r` is an imbalance of a book about a price.
pub open spec fn is_imbalance<A: Arithmetic>(
    ops: &A,
    bids: Map<i64, Level>,
    asks: Map<i64, Level>,
    mid: Double,
    depth: Double,
    r: Double,
) -> bool {
    exists|w: ImbalanceSteps| imbalance_by(ops, bids, asks, mid, depth, w, r)
}

/// Bid size less ask size within `looking_depth` of `mid`.
pub fn compute_imbalance<A: Arithmetic>(
    ops: &A,
    bids: &BookSide,
    asks: &BookSide,
    mid: Double,
    looking_depth: Double,
) -> (r: Double)
    requires
        bids.wf(),
        asks.wf(),
    ensures
        is_imbalance(ops, bids@, asks@, mid, looking_depth, r),
{
    let low_factor = ops.minus(Double::one(), looking_depth);
    let lower = ops.times(mid, low_factor);
    let high_factor = ops.plus(Double::one(), looking_depth);
    let upper = ops.times(mid, high_factor);

    // Sum bid sizes within looking depth (from highest to lowest)
    let bid_levels = bids.ascending();
    let ghost highest_first = bid_levels@.reverse();
    let mut sum_bid = Double::zero();
    let mut taken: usize = 0;
    let ghost mut bid_totals: Seq<Double> = seq![Double::zero()];
    while taken < bid_levels.len() && !bid_levels[bid_levels.len() - 1 - taken].price.lt(lower)
        invariant
            taken <= bid_levels@.len(),
            highest_first == bid_levels@.reverse(),
            forall|i: int| 0 <= i < taken ==> !(#[trigger] highest_first[i]).price.below(lower),
            running_totals(ops, sizes_of(highest_first, taken as int), bid_totals),
            bid_totals.last() == sum_bid,
        decreases bid_levels@.len() - taken,
    {
        let level = bid_levels[bid_levels.len() - 1 - taken];
        assert(level == highest_first[taken as int]);
        let next = ops.plus(sum_bid, level.size);
        proof {
            let before = sizes_of(highest_first, taken as int);
            let after = sizes_of(highest_first, taken + 1);
            let longer = bid_totals.push(next);
            assert forall|i: int| #![trigger after[i]] 0 <= i < after.len() implies
                arithmetic::is_sum(ops, longer[i], after[i], longer[i + 1]) by {
                if i < taken {
                    assert(before[i] == after[i]);
                }
            }
            bid_totals = longer;
        }
        sum_bid = next;
        taken += 1;
    }

    // Sum ask sizes within looking depth (from lowest to highest)
    let ask_levels = asks.ascending();
    let mut sum_ask = Double::zero();
    let mut passed: usize = 0;
    let ghost mut ask_totals: Seq<Double> = seq![Double::zero()];
    while passed < ask_levels.len() && !ask_levels[passed].price.gt(upper)
        invariant
            passed <= ask_levels@.len(),
            forall|i: int| 0 <= i < passed ==> !upper.below((#[trigger] ask_levels@[i]).price),
            running_totals(ops, sizes_of(ask_levels@, passed as int), ask_totals),
            ask_totals.last() == sum_ask,
        decreases ask_levels@.len() - passed,
    {
        let level = ask_levels[passed];
        let next = ops.plus(sum_ask, level.size);
        proof {
            let before = sizes_of(ask_levels@, passed as int);
            let after = sizes_of(ask_levels@, passed + 1);
            let longer = ask_totals.push(next);
            assert forall|i: int| #![trigger after[i]] 0 <= i < after.len() implies
                arithmetic::is_sum(ops, longer[i], after[i], longer[i + 1]) by {
                if i < passed {
                    assert(before[i] == after[i]);
                }
            }
            ask_totals = longer;
        }
        sum_ask = next;
        passed += 1;
    }

    let r = ops.minus(sum_bid, sum_ask);
    proof {
        let w = ImbalanceSteps {
            low_factor,
            lower,
            high_factor,
            upper,
            bids: bid_levels@,
            bids_counted: taken as int,
            bid_totals,
            asks: ask_levels@,
            asks_counted: passed as int,
            ask_totals,
        };
        assert(imbalance_by(ops, bids@, asks@, mid, looking_depth, w, r));
    }
    r
}

/// The bids that count are exactly those whose price is not below the lower
/// bound: stopping at the first one below loses none.
pub proof fn law_counted_bids_are_those_in_depth(
    bids: Map<i64, Level>,
    ascending: Seq<Level>,
    lower: Double,
    n: int,
)
    requires
        orderbook::lists(bids, ascending),
        bid_reach(ascending.reverse(), lower, n),
    ensures
        forall|i: int|
            0 <= i < ascending.len() ==> (i < n <==> !(#[trigger] ascending.reverse()[i]).price.below(
                lower,
            )),
{
    let walk = ascending.reverse();
    assert forall|i: int| 0 <= i < ascending.len() implies (i < n <==> !(
    #[trigger] walk[i]).price.below(lower)) by {
        if n <= i {
            assert(walk[n].price.below(lower));
            if n < i {
                let low = ascending[ascending.len() - 1 - i];
                let high = ascending[ascending.len() - 1 - n];
                assert(orderbook::key(low.price) < orderbook::key(high.price));
            }
        }
    }
}

/// The asks that count are exactly those whose price is not above the upper
/// bound, as long as every price is a number.
pub proof fn law_counted_asks_are_those_in_depth(
    asks: Map<i64, Level>,
    ascending: Seq<Level>,
    upper: Double,
    n: int,
)
    requires
        orderbook::lists(asks, ascending),
        ask_reach(ascending, upper, n),
        forall|i: int|
            0 <= i < ascending.len() ==> !(#[trigger] ascending[i]).price.is_nan_spec(),
    ensures
        forall|i: int|
            0 <= i < ascending.len() ==> (i < n <==> !upper.below((#[trigger] ascending[i]).price)),
{
    assert forall|i: int| 0 <= i < ascending.len() implies (i < n <==> !upper.below(
        (#[trigger] ascending[i]).price,
    )) by {
        if n < i {
            assert(orderbook::key(ascending[n].price) < orderbook::key(ascending[i].price));
        }
    }
}

/// Running totals of the same sizes agree.
proof fn lemma_totals_agree<A: Arithmetic>(
    ops: &A,
    sizes: Seq<Double>,
    a: Seq<Double>,
    b: Seq<Double>,
    i: int,
)
    requires
        arithmetic::is_repeatable(ops),
        running_totals(ops, sizes, a),
        running_totals(ops, sizes, b),
        0 <= i <= sizes.len(),
    ensures
        a[i].alike(b[i]),
    decreases i,
{
    if i > 0 {
        lemma_totals_agree(ops, sizes, a, b, i - 1);
        assert(arithmetic::is_sum(ops, a[i - 1], sizes[i - 1], a[i]));
        assert(arithmetic::is_sum(ops, b[i - 1], sizes[i - 1], b[i]));
    }
}

/// With an arithmetic that agrees with itself, a book has one imbalance about a
/// price.
pub proof fn law_imbalance_is_fixed_by_book<A: Arithmetic>(
    ops: &A,
    bids: Map<i64, Level>,
    asks: Map<i64, Level>,
    mid: Double,
    depth: Double,
    r: Double,
    q: Double,
)
    requires
        arithmetic::is_repeatable(ops),
        is_imbalance(ops, bids, asks, mid, depth, r),
        is_imbalance(ops, bids, asks, mid, depth, q),
    ensures
        r.alike(q),
{
    let x = choose|x: ImbalanceSteps| imbalance_by(ops, bids, asks, mid, depth, x, r);
    let y = choose|y: ImbalanceSteps| imbalance_by(ops, bids, asks, mid, depth, y, q);
    assert(imbalance_by(ops, bids, asks, mid, depth, x, r));
    assert(imbalance_by(ops, bids, asks, mid, depth, y, q));
    orderbook::lemma_lists_agree(bids, x.bids, y.bids);
    orderbook::lemma_lists_agree(asks, x.asks, y.asks);
    assert(x.lower.alike(y.lower) && x.upper.alike(y.upper));
    assert(x.bids_counted == y.bids_counted) by {
        let walk = x.bids.reverse();
        if x.bids_counted < y.bids_counted {
            assert(!walk[x.bids_counted].price.below(x.lower));
        }
        if y.bids_counted < x.bids_counted {
            assert(!walk[y.bids_counted].price.below(x.lower));
        }
    }
    assert(x.asks_counted == y.asks_counted) by {
        if x.asks_counted < y.asks_counted {
            assert(!x.upper.below(x.asks[x.asks_counted].price));
        }
        if y.asks_counted < x.asks_counted {
            assert(!x.upper.below(x.asks[y.asks_counted].price));
        }
    }
    let b = sizes_of(x.bids.reverse(), x.bids_counted);
    let a = sizes_of(x.asks, x.asks_counted);
    lemma_totals_agree(ops, b, x.bid_totals, y.bid_totals, b.len() as int);
    lemma_totals_agree(ops, a, x.ask_totals, y.ask_totals, a.len() as int);
}

} // verus!
