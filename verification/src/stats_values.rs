//! Statistics and imbalances as real numbers, where the arithmetic does not
//! round.
use crate::arithmetic;
use crate::arithmetic::Arithmetic;
use crate::double::Double;
use crate::exact_stats;
use crate::imbalance;
use crate::imbalance::ImbalanceSteps;
use crate::orderbook;
use crate::orderbook::{BookSide, Level};
use crate::rolling_stats;
use crate::rolling_stats::{AdmitSteps, EvictSteps, RollingStats, Stats};
use crate::values;
use vstd::prelude::*;

verus! {

/// The reading of doubles as real numbers.
pub open spec fn reading() -> spec_fn(Double) -> real {
    |d: Double| values::value(d)
}

/// Every value of a window is finite.
pub open spec fn all_finite(w: Seq<Double>) -> bool {
    forall|i: int| 0 <= i < w.len() ==> values::finite(#[trigger] w[i])
}

/// Every number of a window's statistics is finite.
spec fn is_finite(s: Stats) -> bool {
    &&& all_finite(s.window)
    &&& values::finite(s.sum)
    &&& values::finite(s.m2)
    &&& values::finite(s.mean)
    &&& values::finite(s.deviation)
    &&& values::value(s.m2) >= 0 as real
}

proof fn lemma_admission_is_exact<A: Arithmetic>(
    ops: &A,
    s: Stats,
    value: Double,
    w: AdmitSteps,
    t: Stats,
)
    requires
        values::is_exact(ops),
        rolling_stats::admits_by(ops, s, value, w, t),
        is_finite(s),
        values::finite(value),
        s.window.len() < u64::MAX,
    ensures
        exact_stats::admission_is_exact(reading(), s, value, w),
        is_finite(t),
{
    values::law_named_numbers_have_their_values();
    let n = (s.window.len() + 1) as u64;
    assert(values::value(w.count) == values::whole(n as int));
    values::law_choices_are_those_of_values(w.m2, Double::zero(), Double::zero());
    let m2 = w.m2.larger(Double::zero());
    if n >= 2 {
        values::lemma_product_sign(values::value(w.variance), values::value(w.count));
    }
    assert forall|i: int| 0 <= i < t.window.len() implies values::finite(
        #[trigger] t.window[i],
    ) by {
        if i < s.window.len() {
            assert(t.window[i] == s.window[i]);
        }
    }
}

proof fn lemma_eviction_is_exact<A: Arithmetic>(ops: &A, s: Stats, w: EvictSteps, t: Stats)
    requires
        values::is_exact(ops),
        rolling_stats::evicts_by(ops, s, w, t),
        is_finite(s),
        0 < s.window.len() <= u64::MAX,
    ensures
        exact_stats::eviction_is_exact(reading(), s, w),
        is_finite(t),
{
    values::law_named_numbers_have_their_values();
    assert(values::finite(s.window[0]));
    let n = s.window.len() as u64;
    if n > 1 {
        assert(values::value(w.count) == values::whole(n as int));
    }
    values::law_choices_are_those_of_values(w.m2, Double::zero(), Double::zero());
    assert forall|i: int| 0 <= i < t.window.len() implies values::finite(
        #[trigger] t.window[i],
    ) by {
        assert(t.window[i] == s.window[i + 1]);
    }
}

proof fn lemma_run_is_exact<A: Arithmetic>(
    ops: &A,
    states: Seq<Stats>,
    stream: Seq<Double>,
    capacity: nat,
    i: int,
)
    requires
        values::is_exact(ops),
        rolling_stats::push_run(ops, states, stream),
        states[0] == Stats::empty(capacity),
        0 < capacity < u64::MAX,
        all_finite(stream),
        0 <= i <= stream.len(),
    ensures
        is_finite(states[i]),
        states[i].capacity == capacity,
        states[i].window.len() <= capacity,
        i < stream.len() ==> exact_stats::pushes_exactly(
            ops,
            reading(),
            states[i],
            stream[i],
            states[i + 1],
        ),
    decreases i,
{
    values::law_named_numbers_have_their_values();
    if i > 0 {
        lemma_run_is_exact(ops, states, stream, capacity, i - 1);
        assert(rolling_stats::pushes(ops, states[i - 1], stream[i - 1], states[i]));
        lemma_push_is_exact(ops, states[i - 1], stream[i - 1], states[i]);
    }
    if i < stream.len() {
        assert(rolling_stats::pushes(ops, states[i], stream[i], states[i + 1]));
        lemma_push_is_exact(ops, states[i], stream[i], states[i + 1]);
    }
}

proof fn lemma_push_is_exact<A: Arithmetic>(ops: &A, s: Stats, value: Double, t: Stats)
    requires
        values::is_exact(ops),
        rolling_stats::pushes(ops, s, value, t),
        is_finite(s),
        values::finite(value),
        0 < s.capacity < u64::MAX,
        s.window.len() <= s.capacity,
    ensures
        exact_stats::pushes_exactly(ops, reading(), s, value, t),
        is_finite(t),
        t.capacity == s.capacity,
        t.window.len() <= s.capacity,
{
    let (from, e, a) = rolling_stats::lemma_push_has_parts(ops, s, value, t);
    rolling_stats::law_push_slides_window(ops, s, value, t);
    if s.is_full() {
        lemma_eviction_is_exact(ops, s, e, from);
        assert(exact_stats::evicts_exactly(ops, reading(), s, from));
    }
    lemma_admission_is_exact(ops, from, value, a, t);
    assert(exact_stats::admits_exactly(ops, reading(), from, value, t));
}

/// After any stream of finite values into an empty window, the mean is their sum
/// over their number, and the deviation the root of the mean of their squared
/// differences from it, both taken over the latest values, as many as fit; where
/// the arithmetic does not round.
pub proof fn law_statistics_of_stream<A: Arithmetic>(
    ops: &A,
    states: Seq<Stats>,
    stream: Seq<Double>,
    capacity: nat,
)
    requires
        values::is_exact(ops),
        rolling_stats::push_run(ops, states, stream),
        states[0] == Stats::empty(capacity),
        0 < capacity < u64::MAX,
        all_finite(stream),
    ensures
        exact_stats::is_mean_and_deviation(
            reading(),
            rolling_stats::last_of(stream, capacity),
            values::value(states.last().mean),
            values::value(states.last().deviation),
        ),
        values::finite(states.last().mean) && values::finite(states.last().deviation),
{
    values::law_named_numbers_have_their_values();
    assert forall|i: int| #![trigger stream[i]] 0 <= i < stream.len() implies
        exact_stats::pushes_exactly(ops, reading(), states[i], stream[i], states[i + 1]) by {
        lemma_run_is_exact(ops, states, stream, capacity, i);
    }
    lemma_run_is_exact(ops, states, stream, capacity, stream.len() as int);
    exact_stats::law_statistics_are_those_of_window(ops, reading(), states, stream, capacity);
}

/// A push enters its value as the newest, takes the oldest out of a full window,
/// and is a step of a stream; a window that is new or cleared holds nothing.
pub proof fn law_calls_drive_windows<A: Arithmetic>(
    ops: &A,
    x: &mut RollingStats,
    value: Double,
    cleared: &mut RollingStats,
    capacity: usize,
    made: RollingStats,
)
    requires
        old(x).wf(),
        call_ensures(RollingStats::push::<A>, (x, ops, value), ()),
        old(cleared).wf(),
        call_ensures(RollingStats::clear, (cleared,), ()),
        capacity > 0,
        call_ensures(RollingStats::new, (capacity,), made),
    ensures
        rolling_stats::pushes(ops, old(x)@, value, final(x)@),
        final(x)@.window == if old(x)@.window.len() < old(x)@.capacity {
            old(x)@.window.push(value)
        } else {
            old(x)@.window.drop_first().push(value)
        },
        final(x)@.capacity == old(x)@.capacity,
        final(cleared)@ == Stats::empty(old(cleared)@.capacity),
        made@ == Stats::empty(capacity as nat),
        made@.window.len() == 0,
{
    old(x).lemma_window_bounded();
    rolling_stats::law_push_slides_window(ops, old(x)@, value, final(x)@);
}

/// What is read off a window: how many values it holds, their mean and
/// deviation; and the z-score of a value, its distance from the mean in
/// deviations, zero where the deviation is below the threshold.
pub proof fn law_readings_of_window<A: Arithmetic>(
    ops: &A,
    x: &RollingStats,
    count: usize,
    mean: Double,
    deviation: Double,
    value: Double,
    z: Double,
)
    requires
        call_ensures(RollingStats::count, (x,), count),
        call_ensures(RollingStats::mean, (x,), mean),
        call_ensures(RollingStats::std_dev, (x,), deviation),
        call_ensures(RollingStats::zscore::<A>, (x, ops, value), z),
        values::is_exact(ops),
        values::finite(x@.mean),
        values::finite(x@.deviation),
        values::value(x@.deviation) >= 0 as real,
        values::finite(value),
    ensures
        count == x@.window.len(),
        mean == x@.mean,
        deviation == x@.deviation,
        values::value(deviation) < values::value(Double::tiny()) ==> values::value(z) == 0 as real,
        values::value(deviation) >= values::value(Double::tiny()) ==> values::value(z)
            * values::value(deviation) == values::value(value) - values::value(mean),
{
    values::law_named_numbers_have_their_values();
    values::law_order_is_that_of_values(x@.deviation, Double::tiny());
}

/// The sum of the sizes of the levels at prices from `low` on.
pub open spec fn sizes_from(levels: Seq<Level>, low: real) -> real
    decreases levels.len(),
{
    if levels.len() == 0 {
        0 as real
    } else {
        sizes_from(levels.drop_last(), low) + if values::value(levels.last().price) >= low {
            values::value(levels.last().size)
        } else {
            0 as real
        }
    }
}

/// The sum of the sizes of the levels at prices up to `high`.
pub open spec fn sizes_up_to(levels: Seq<Level>, high: real) -> real
    decreases levels.len(),
{
    if levels.len() == 0 {
        0 as real
    } else {
        sizes_up_to(levels.drop_last(), high) + if values::value(levels.last().price) <= high {
            values::value(levels.last().size)
        } else {
            0 as real
        }
    }
}

/// Every price and every size is finite.
pub open spec fn finite_levels(levels: Seq<Level>) -> bool {
    forall|i: int|
        0 <= i < levels.len() ==> values::finite((#[trigger] levels[i]).price) && values::finite(
            levels[i].size,
        )
}

/// The sum of the first `n` sizes.
spec fn first_sizes(levels: Seq<Level>, n: int) -> real
    decreases n,
{
    if n <= 0 {
        0 as real
    } else {
        first_sizes(levels, n - 1) + values::value(levels[n - 1].size)
    }
}

proof fn lemma_totals_are_sums<A: Arithmetic>(
    ops: &A,
    levels: Seq<Level>,
    n: int,
    totals: Seq<Double>,
    i: int,
)
    requires
        values::is_exact(ops),
        finite_levels(levels),
        0 <= i <= n <= levels.len(),
        imbalance::running_totals(ops, imbalance::sizes_of(levels, n), totals),
    ensures
        values::finite(totals[i]),
        values::value(totals[i]) == first_sizes(levels, i),
    decreases i,
{
    values::law_named_numbers_have_their_values();
    if i > 0 {
        lemma_totals_are_sums(ops, levels, n, totals, i - 1);
        let sizes = imbalance::sizes_of(levels, n);
        assert(sizes[i - 1] == levels[i - 1].size);
        assert(arithmetic::is_sum(ops, totals[i - 1], sizes[i - 1], totals[i]));
    }
}

/// The asks before the first above `high` are those up to it.
proof fn lemma_ask_sum(levels: Seq<Level>, high: real, n: int, m: int)
    requires
        0 <= m <= levels.len(),
        0 <= n <= levels.len(),
        forall|i: int|
            0 <= i < levels.len() ==> (i < n <==> values::value((#[trigger] levels[i]).price)
                <= high),
    ensures
        sizes_up_to(levels.take(m), high) == first_sizes(
            levels,
            if m < n {
                m
            } else {
                n
            },
        ),
    decreases m,
{
    if m > 0 {
        lemma_ask_sum(levels, high, n, m - 1);
        assert(levels.take(m).drop_last() =~= levels.take(m - 1));
        assert(levels.take(m).last() == levels[m - 1]);
    }
}

/// The bids before the first below `low`, from the highest, are those from it on.
proof fn lemma_bid_sum(levels: Seq<Level>, low: real, n: int, m: int)
    requires
        0 <= m <= levels.len(),
        0 <= n <= levels.len(),
        forall|i: int|
            0 <= i < levels.len() ==> (i < n <==> values::value(
                (#[trigger] levels.reverse()[i]).price,
            ) >= low),
    ensures
        sizes_from(levels.skip(levels.len() - m), low) == first_sizes(
            levels.reverse(),
            if m < n {
                m
            } else {
                n
            },
        ),
    decreases m,
{
    if m > 0 {
        lemma_bid_sum(levels, low, n, m - 1);
        let whole = levels.skip(levels.len() - m);
        lemma_from_front(whole, low);
        assert(whole.drop_first() =~= levels.skip(levels.len() - (m - 1)));
        assert(whole.first() == levels.reverse()[m - 1]);
    } else {
        assert(levels.skip(levels.len() as int) =~= Seq::empty());
    }
}

proof fn lemma_from_front(levels: Seq<Level>, low: real)
    requires
        levels.len() > 0,
    ensures
        sizes_from(levels, low) == sizes_from(levels.drop_first(), low) + if values::value(
            levels.first().price,
        ) >= low {
            values::value(levels.first().size)
        } else {
            0 as real
        },
    decreases levels.len(),
{
    reveal_with_fuel(sizes_from, 2);
    if levels.len() > 1 {
        lemma_from_front(levels.drop_last(), low);
        assert(levels.drop_last().drop_first() =~= levels.drop_first().drop_last());
        assert(levels.drop_last().first() == levels.first());
        assert(levels.drop_first().last() == levels.last());
    }
}

/// An imbalance is the size of the bids at `mid * (1 - depth)` and above, less
/// the size of the asks at `mid * (1 + depth)` and below, over all levels of the
/// book, where the arithmetic does not round.
pub proof fn law_imbalance_is_bid_less_ask_size<A: Arithmetic>(
    ops: &A,
    bids: Map<i64, Level>,
    asks: Map<i64, Level>,
    bid_levels: Seq<Level>,
    ask_levels: Seq<Level>,
    mid: Double,
    depth: Double,
    r: Double,
)
    requires
        values::is_exact(ops),
        imbalance::is_imbalance(ops, bids, asks, mid, depth, r),
        orderbook::lists(bids, bid_levels),
        orderbook::lists(asks, ask_levels),
        finite_levels(bid_levels),
        finite_levels(ask_levels),
        values::finite(mid),
        values::finite(depth),
    ensures
        values::finite(r),
        values::value(r) == sizes_from(
            bid_levels,
            values::value(mid) * (1 as real - values::value(depth)),
        ) - sizes_up_to(ask_levels, values::value(mid) * (1 as real + values::value(depth))),
{
    values::law_named_numbers_have_their_values();
    let w = choose|w: ImbalanceSteps|
        imbalance::imbalance_by(ops, bids, asks, mid, depth, w, r);
    assert(imbalance::imbalance_by(ops, bids, asks, mid, depth, w, r));
    orderbook::lemma_lists_agree(bids, w.bids, bid_levels);
    orderbook::lemma_lists_agree(asks, w.asks, ask_levels);
    let low = values::value(w.lower);
    let high = values::value(w.upper);
    let walk = bid_levels.reverse();
    assert forall|i: int| 0 <= i < walk.len() implies values::finite((#[trigger] walk[i]).price)
        && values::finite(walk[i].size) by {
        assert(walk[i] == bid_levels[bid_levels.len() - 1 - i]);
    }
    imbalance::law_counted_bids_are_those_in_depth(bids, bid_levels, w.lower, w.bids_counted);
    assert forall|i: int| 0 <= i < bid_levels.len() implies (i < w.bids_counted <==> values::value(
        (#[trigger] bid_levels.reverse()[i]).price,
    ) >= low) by {
        values::law_order_is_that_of_values(walk[i].price, w.lower);
    }
    imbalance::law_counted_asks_are_those_in_depth(asks, ask_levels, w.upper, w.asks_counted);
    assert forall|i: int| 0 <= i < ask_levels.len() implies (i < w.asks_counted <==> values::value(
        (#[trigger] ask_levels[i]).price,
    ) <= high) by {
        values::law_order_is_that_of_values(w.upper, ask_levels[i].price);
    }
    lemma_totals_are_sums(ops, walk, w.bids_counted, w.bid_totals, w.bids_counted);
    lemma_totals_are_sums(ops, ask_levels, w.asks_counted, w.ask_totals, w.asks_counted);
    lemma_bid_sum(bid_levels, low, w.bids_counted, bid_levels.len() as int);
    lemma_ask_sum(ask_levels, high, w.asks_counted, ask_levels.len() as int);
    assert(bid_levels.skip(0) =~= bid_levels);
    assert(ask_levels.take(ask_levels.len() as int) =~= ask_levels);
}

/// The imbalance that is computed for a book is one of that book.
pub proof fn law_computed_imbalance<A: Arithmetic>(
    ops: &A,
    bids: &BookSide,
    asks: &BookSide,
    mid: Double,
    depth: Double,
    r: Double,
)
    requires
        bids.wf(),
        asks.wf(),
        call_ensures(imbalance::compute_imbalance::<A>, (ops, bids, asks, mid, depth), r),
    ensures
        imbalance::is_imbalance(ops, bids@, asks@, mid, depth, r),
{
}

} // verus!
