//! What the statistics of a window are where no operation rounds.
//!
//! Doubles are read as real numbers through a function `v`. A push is exact
//! where each of its operations gives, so read, what the operation on real
//! numbers gives.
use crate::arithmetic::Arithmetic;
use crate::double::Double;
use crate::rolling_stats;
use crate::rolling_stats::{AdmitSteps, EvictSteps, Stats};
use vstd::prelude::*;

verus! {

/// The number of values of a window.
pub open spec fn count(w: Seq<Double>) -> real {
    (w.len() as int) as real
}

/// The sum of the values of a window.
pub open spec fn total(v: spec_fn(Double) -> real, w: Seq<Double>) -> real
    decreases w.len(),
{
    if w.len() == 0 {
        0 as real
    } else {
        total(v, w.drop_last()) + v(w.last())
    }
}

/// The sum of the squared differences of the values of a window from `m`.
pub open spec fn spread(v: spec_fn(Double) -> real, w: Seq<Double>, m: real) -> real
    decreases w.len(),
{
    if w.len() == 0 {
        0 as real
    } else {
        spread(v, w.drop_last(), m) + (v(w.last()) - m) * (v(w.last()) - m)
    }
}

/// The sum of the squares of the values of a window.
spec fn squares(v: spec_fn(Double) -> real, w: Seq<Double>) -> real
    decreases w.len(),
{
    if w.len() == 0 {
        0 as real
    } else {
        squares(v, w.drop_last()) + v(w.last()) * v(w.last())
    }
}

/// The larger of zero and `x`.
pub open spec fn non_negative_part(x: real) -> real {
    if x < 0 as real {
        0 as real
    } else {
        x
    }
}

/// The operations by which the oldest value leaves are exact.
pub open spec fn eviction_is_exact(v: spec_fn(Double) -> real, s: Stats, w: EvictSteps) -> bool {
    let old = v(s.window.first());
    &&& v(Double::zero()) == 0 as real
    &&& s.window.len() > 1 ==> {
        &&& v(w.gap) == v(s.mean) - old
        &&& v(w.count) == count(s.window)
        &&& v(w.rest) == v(w.count) - 1 as real
        &&& v(w.correction) * v(w.rest) == v(w.gap)
        &&& v(w.mean) == v(s.mean) + v(w.correction)
    }
    &&& v(w.from_old_mean) == old - v(s.mean)
    &&& v(w.from_new_mean) == old - v(w.mean)
    &&& v(w.spread) == v(w.from_old_mean) * v(w.from_new_mean)
    &&& v(w.m2) == v(s.m2) - v(w.spread)
    &&& v(w.m2.larger(Double::zero())) == non_negative_part(v(w.m2))
    &&& v(w.sum) == v(s.sum) - old
}

/// The operations by which a value enters are exact.
pub open spec fn admission_is_exact(
    v: spec_fn(Double) -> real,
    s: Stats,
    value: Double,
    w: AdmitSteps,
) -> bool {
    &&& v(Double::zero()) == 0 as real
    &&& v(w.sum) == v(s.sum) + v(value)
    &&& v(w.count) == count(s.window) + 1 as real
    &&& v(w.mean) * v(w.count) == v(w.sum)
    &&& v(w.from_old_mean) == v(value) - v(s.mean)
    &&& v(w.from_new_mean) == v(value) - v(w.mean)
    &&& v(w.spread) == v(w.from_old_mean) * v(w.from_new_mean)
    &&& v(w.m2) == v(s.m2) + v(w.spread)
    &&& v(w.m2.larger(Double::zero())) == non_negative_part(v(w.m2))
    &&& s.window.len() + 1 >= 2 ==> {
        &&& v(w.variance) * v(w.count) == v(w.m2.larger(Double::zero()))
        &&& v(w.root) >= 0 as real
        &&& v(w.root) * v(w.root) == v(w.variance)
    }
}

/// `t` is `s` without its oldest value, and no operation rounded.
pub open spec fn evicts_exactly<A: Arithmetic>(
    ops: &A,
    v: spec_fn(Double) -> real,
    s: Stats,
    t: Stats,
) -> bool {
    exists|w: EvictSteps| #[trigger]
        rolling_stats::evicts_by(ops, s, w, t) && eviction_is_exact(v, s, w)
}

/// `t` is `s` with `value` as its newest value, and no operation rounded.
pub open spec fn admits_exactly<A: Arithmetic>(
    ops: &A,
    v: spec_fn(Double) -> real,
    s: Stats,
    value: Double,
    t: Stats,
) -> bool {
    exists|w: AdmitSteps| #[trigger]
        rolling_stats::admits_by(ops, s, value, w, t) && admission_is_exact(v, s, value, w)
}

/// `t` is `s` after `value` has been pushed, and no operation rounded.
pub open spec fn pushes_exactly<A: Arithmetic>(
    ops: &A,
    v: spec_fn(Double) -> real,
    s: Stats,
    value: Double,
    t: Stats,
) -> bool {
    if s.is_full() {
        exists|mid: Stats|
            evicts_exactly(ops, v, s, mid) && #[trigger] admits_exactly(ops, v, mid, value, t)
    } else {
        admits_exactly(ops, v, s, value, t)
    }
}

/// The states that a stream of values drives a window through, and no operation
/// rounded.
pub open spec fn exact_run<A: Arithmetic>(
    ops: &A,
    v: spec_fn(Double) -> real,
    states: Seq<Stats>,
    values: Seq<Double>,
) -> bool {
    &&& states.len() == values.len() + 1
    &&& forall|i: int|
        #![trigger values[i]]
        0 <= i < values.len() ==> pushes_exactly(ops, v, states[i], values[i], states[i + 1])
}

/// `m` and `d` are the mean and the population standard deviation of a window;
/// with fewer than two values the deviation counts as zero, and so does the mean
/// of none.
pub open spec fn is_mean_and_deviation(
    v: spec_fn(Double) -> real,
    w: Seq<Double>,
    m: real,
    d: real,
) -> bool {
    &&& if w.len() == 0 {
        m == 0 as real
    } else {
        m * count(w) == total(v, w)
    }
    &&& if w.len() < 2 {
        d == 0 as real
    } else {
        d >= 0 as real && d * d * count(w) == spread(v, w, m)
    }
}

/// The sums of `s` are those of its window.
spec fn sums_hold(v: spec_fn(Double) -> real, s: Stats) -> bool {
    &&& v(s.sum) == total(v, s.window)
    &&& v(s.mean) * count(s.window) == total(v, s.window)
    &&& s.window.len() == 0 ==> v(s.mean) == 0 as real
    &&& v(s.m2) == squares(v, s.window) - total(v, s.window) * v(s.mean)
}

proof fn lemma_expand(x: real, m: real, k: real)
    ensures
        (x - m) * (x - k) == x * x - x * k - m * x + m * k,
{
    assert((x - m) * (x - k) == x * x - x * k - m * x + m * k) by (nonlinear_arith);
}

proof fn lemma_regroup(m: real, n: real, k: real)
    ensures
        (m * n) * k + m * k == m * (k * (n + 1 as real)),
{
    assert((m * n) * k + m * k == m * (k * (n + 1 as real))) by (nonlinear_arith);
}

proof fn lemma_distribute(a: real, b: real, c: real)
    ensures
        a * (b + c) == a * b + a * c,
        (b + c) * a == b * a + c * a,
        a * b == b * a,
{
    assert(a * (b + c) == a * b + a * c) by (nonlinear_arith);
    assert((b + c) * a == b * a + c * a) by (nonlinear_arith);
    assert(a * b == b * a) by (nonlinear_arith);
}

/// Welford's step: with `n` values of sum `s`, sum of squares `q` and mean `m`,
/// and one more value `x` that makes the mean `k`.
proof fn lemma_step(n: real, s: real, q: real, m: real, x: real, k: real)
    requires
        m * n == s,
        k * (n + 1 as real) == s + x,
    ensures
        (q - s * m) + (x - m) * (x - k) == (q + x * x) - (s + x) * k,
{
    lemma_expand(x, m, k);
    lemma_regroup(m, n, k);
    lemma_distribute(m, s, x);
    lemma_distribute(k, s, x);
    assert((m * n) * k == s * k);
    assert(m * (k * (n + 1 as real)) == m * (s + x));
}

/// The sums of a window and of what is left without its oldest value.
proof fn lemma_without_first(v: spec_fn(Double) -> real, w: Seq<Double>)
    requires
        w.len() > 0,
    ensures
        total(v, w) == total(v, w.drop_first()) + v(w.first()),
        squares(v, w) == squares(v, w.drop_first()) + v(w.first()) * v(w.first()),
    decreases w.len(),
{
    reveal_with_fuel(total, 2);
    reveal_with_fuel(squares, 2);
    if w.len() > 1 {
        lemma_without_first(v, w.drop_last());
        assert(w.drop_first().drop_last() =~= w.drop_last().drop_first());
        assert(w.drop_first().last() == w.last());
        assert(w.drop_last().first() == w.first());
    }
}

/// The squared differences from `m`, from the sums.
proof fn lemma_spread(v: spec_fn(Double) -> real, w: Seq<Double>, m: real)
    ensures
        spread(v, w, m) == squares(v, w) - total(v, w) * m - total(v, w) * m + count(w) * (m * m),
        spread(v, w, m) >= 0 as real,
    decreases w.len(),
{
    let z = 0 as real;
    if w.len() == 0 {
        lemma_distribute(m, z, z);
        lemma_distribute(m * m, z, z);
        assert(z * m == z) by (nonlinear_arith)
            requires
                z == 0 as real,
        ;
        assert(z * (m * m) == z) by (nonlinear_arith)
            requires
                z == 0 as real,
        ;
    } else {
        let b = w.drop_last();
        let x = v(w.last());
        lemma_spread(v, b, m);
        lemma_expand(x, m, m);
        lemma_distribute(m, total(v, b), x);
        lemma_distribute(m * m, count(b), 1 as real);
        assert(count(w) == count(b) + 1 as real);
        assert((1 as real) * (m * m) == m * m) by (nonlinear_arith);
        assert(m * x == x * m) by (nonlinear_arith);
        lemma_square(x - m);
    }
}

proof fn lemma_square(x: real)
    ensures
        x * x >= 0 as real,
{
    assert(x * x >= 0 as real) by (nonlinear_arith);
}

/// The squared differences from the mean.
proof fn lemma_spread_about_mean(v: spec_fn(Double) -> real, w: Seq<Double>, m: real)
    requires
        m * count(w) == total(v, w),
    ensures
        spread(v, w, m) == squares(v, w) - total(v, w) * m,
        spread(v, w, m) >= 0 as real,
{
    lemma_spread(v, w, m);
    lemma_associate(m, count(w));
    assert(count(w) * (m * m) == total(v, w) * m);
}

proof fn lemma_associate(m: real, n: real)
    ensures
        n * (m * m) == (m * n) * m,
{
    assert(n * (m * m) == (m * n) * m) by (nonlinear_arith);
}

proof fn lemma_admission_keeps_sums<A: Arithmetic>(
    ops: &A,
    v: spec_fn(Double) -> real,
    s: Stats,
    value: Double,
    t: Stats,
)
    requires
        admits_exactly(ops, v, s, value, t),
        sums_hold(v, s),
    ensures
        sums_hold(v, t),
        is_mean_and_deviation(v, t.window, v(t.mean), v(t.deviation)),
{
    let w = choose|w: AdmitSteps| #[trigger]
        rolling_stats::admits_by(ops, s, value, w, t) && admission_is_exact(v, s, value, w);
    let x = v(value);
    assert(t.window.drop_last() =~= s.window);
    assert(t.window.last() == value);
    assert(total(v, t.window) == total(v, s.window) + x);
    assert(squares(v, t.window) == squares(v, s.window) + x * x);
    assert(count(t.window) == count(s.window) + 1 as real);
    lemma_step(
        count(s.window),
        total(v, s.window),
        squares(v, s.window),
        v(s.mean),
        x,
        v(w.mean),
    );
    assert(v(w.m2) == squares(v, t.window) - total(v, t.window) * v(t.mean));
    lemma_spread_about_mean(v, t.window, v(t.mean));
    assert(v(t.m2) == v(w.m2));
    if t.window.len() >= 2 {
        assert(v(t.deviation) * v(t.deviation) * count(t.window) == spread(
            v,
            t.window,
            v(t.mean),
        ));
    }
}

proof fn lemma_eviction_keeps_sums<A: Arithmetic>(
    ops: &A,
    v: spec_fn(Double) -> real,
    s: Stats,
    t: Stats,
)
    requires
        evicts_exactly(ops, v, s, t),
        sums_hold(v, s),
        s.window.len() > 0,
    ensures
        sums_hold(v, t),
{
    let w = choose|w: EvictSteps| #[trigger]
        rolling_stats::evicts_by(ops, s, w, t) && eviction_is_exact(v, s, w);
    let old = v(s.window.first());
    let z = 0 as real;
    lemma_without_first(v, s.window);
    assert(t.window == s.window.drop_first());
    assert(count(s.window) == count(t.window) + 1 as real);
    let n = count(t.window);
    let m = v(s.mean);
    let k = v(w.mean);
    if s.window.len() > 1 {
        let c = v(w.correction);
        lemma_distribute(n, m, c);
        lemma_distribute(m, n, 1 as real);
        assert(m * (1 as real) == m) by (nonlinear_arith);
        assert(v(w.rest) == n);
        assert(k * n == m * n + c * n);
        assert(k * n == total(v, t.window));
    } else {
        assert(t.window.len() == 0);
        assert(n == z);
        assert(k == z);
        assert(k * n == z) by (nonlinear_arith)
            requires
                n == z,
                z == 0 as real,
        ;
    }
    assert(k * n == total(v, t.window));
    lemma_step(n, total(v, t.window), squares(v, t.window), k, old, m);
    lemma_distribute(old - m, old - k, z);
    assert(v(w.m2) == squares(v, t.window) - total(v, t.window) * k);
    lemma_spread_about_mean(v, t.window, k);
    assert(v(t.m2) == v(w.m2));
}

/// A push that is exact is a push.
proof fn lemma_exact_push_is_push<A: Arithmetic>(
    ops: &A,
    v: spec_fn(Double) -> real,
    s: Stats,
    value: Double,
    t: Stats,
)
    requires
        pushes_exactly(ops, v, s, value, t),
    ensures
        rolling_stats::pushes(ops, s, value, t),
{
    if s.is_full() {
        let mid = choose|mid: Stats|
            evicts_exactly(ops, v, s, mid) && #[trigger] admits_exactly(ops, v, mid, value, t);
        assert(rolling_stats::evicts(ops, s, mid));
        assert(rolling_stats::admits(ops, mid, value, t));
    } else {
        assert(rolling_stats::admits(ops, s, value, t));
    }
}

proof fn lemma_run_keeps_sums<A: Arithmetic>(
    ops: &A,
    v: spec_fn(Double) -> real,
    states: Seq<Stats>,
    values: Seq<Double>,
    capacity: nat,
    i: int,
)
    requires
        v(Double::zero()) == 0 as real,
        0 < capacity,
        exact_run(ops, v, states, values),
        states[0] == Stats::empty(capacity),
        0 <= i <= values.len(),
    ensures
        sums_hold(v, states[i]),
        is_mean_and_deviation(
            v,
            states[i].window,
            v(states[i].mean),
            v(states[i].deviation),
        ),
        states[i].capacity == capacity,
        states[i].window.len() <= capacity,
    decreases i,
{
    if i == 0 {
        let z = 0 as real;
        assert(z * z == z) by (nonlinear_arith)
            requires
                z == 0 as real,
        ;
    } else {
        lemma_run_keeps_sums(ops, v, states, values, capacity, i - 1);
        let s = states[i - 1];
        let t = states[i];
        let value = values[i - 1];
        assert(pushes_exactly(ops, v, s, value, t));
        lemma_exact_push_is_push(ops, v, s, value, t);
        rolling_stats::law_push_slides_window(ops, s, value, t);
        if s.is_full() {
            let mid = choose|mid: Stats|
                evicts_exactly(ops, v, s, mid) && #[trigger] admits_exactly(ops, v, mid, value, t);
            lemma_eviction_keeps_sums(ops, v, s, mid);
            lemma_admission_keeps_sums(ops, v, mid, value, t);
        } else {
            lemma_admission_keeps_sums(ops, v, s, value, t);
        }
    }
}

/// After any stream of values into an empty window, where no operation rounds,
/// mean and deviation are the mean and the population standard deviation of the
/// values in the window: the latest of the stream, as many as fit. Older values
/// have no influence.
pub proof fn law_statistics_are_those_of_window<A: Arithmetic>(
    ops: &A,
    v: spec_fn(Double) -> real,
    states: Seq<Stats>,
    values: Seq<Double>,
    capacity: nat,
)
    requires
        v(Double::zero()) == 0 as real,
        0 < capacity,
        exact_run(ops, v, states, values),
        states[0] == Stats::empty(capacity),
    ensures
        rolling_stats::push_run(ops, states, values),
        states.last().window == rolling_stats::last_of(values, capacity),
        is_mean_and_deviation(
            v,
            rolling_stats::last_of(values, capacity),
            v(states.last().mean),
            v(states.last().deviation),
        ),
{
    assert forall|i: int| #![trigger values[i]] 0 <= i < values.len() implies
        rolling_stats::pushes(ops, states[i], values[i], states[i + 1]) by {
        lemma_exact_push_is_push(ops, v, states[i], values[i], states[i + 1]);
    }
    rolling_stats::law_window_is_tail_of_stream(ops, states, values, capacity);
    lemma_run_keeps_sums(ops, v, states, values, capacity, values.len() as int);
}

} // verus!
