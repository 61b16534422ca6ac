//! A fixed-capacity window over a stream of numbers, with running mean and
//! standard deviation.
use crate::arithmetic;
use crate::arithmetic::Arithmetic;
use crate::double::Double;
use vstd::prelude::*;

verus! {

/// What a [`RollingStats`] holds.
#[verifier::ext_equal]
pub struct Stats {
    /// The most recent values, oldest first.
    pub window: Seq<Double>,
    /// How many values the window can hold.
    pub capacity: nat,
    pub sum: Double,
    /// The running sum of squared differences from the mean.
    pub m2: Double,
    pub mean: Double,
    pub deviation: Double,
}

/// The numbers that are computed while the oldest value leaves the window.
pub struct EvictSteps {
    pub gap: Double,
    pub count: Double,
    pub rest: Double,
    pub correction: Double,
    pub mean: Double,
    pub from_old_mean: Double,
    pub from_new_mean: Double,
    pub spread: Double,
    pub m2: Double,
    pub sum: Double,
}

/// The numbers that are computed while a value enters the window.
pub struct AdmitSteps {
    pub sum: Double,
    pub count: Double,
    pub mean: Double,
    pub from_old_mean: Double,
    pub from_new_mean: Double,
    pub spread: Double,
    pub m2: Double,
    pub variance: Double,
    pub root: Double,
}

impl Stats {
    /// An empty window.
    pub open spec fn empty(capacity: nat) -> Stats {
        Stats {
            window: Seq::empty(),
            capacity,
            sum: Double::zero(),
            m2: Double::zero(),
            mean: Double::zero(),
            deviation: Double::zero(),
        }
    }

    /// The window after it has been cleared: empty, of the same capacity.
    pub open spec fn after_clear(self) -> Stats {
        Stats::empty(self.capacity)
    }

    pub open spec fn is_full(self) -> bool {
        self.window.len() >= self.capacity
    }
}

/// Welford's update run backwards: `t` is `s` without its oldest value, and
/// `w` holds the numbers computed on the way.
pub open spec fn evicts_by<A: Arithmetic>(ops: &A, s: Stats, w: EvictSteps, t: Stats) -> bool {
    let old = s.window.first();
    let n = s.window.len();
    &&& if n > 1 {
        &&& arithmetic::is_difference(ops, s.mean, old, w.gap)
        &&& arithmetic::is_number_of(ops, n as u64, w.count)
        &&& arithmetic::is_difference(ops, w.count, Double::one(), w.rest)
        &&& arithmetic::is_quotient(ops, w.gap, w.rest, w.correction)
        &&& arithmetic::is_sum(ops, s.mean, w.correction, w.mean)
    } else {
        w.mean == Double::zero()
    }
    &&& arithmetic::is_difference(ops, old, s.mean, w.from_old_mean)
    &&& arithmetic::is_difference(ops, old, w.mean, w.from_new_mean)
    &&& arithmetic::is_product(ops, w.from_old_mean, w.from_new_mean, w.spread)
    &&& arithmetic::is_difference(ops, s.m2, w.spread, w.m2)
    &&& arithmetic::is_difference(ops, s.sum, old, w.sum)
    &&& t == Stats {
        window: s.window.drop_first(),
        sum: w.sum,
        m2: w.m2.larger(Double::zero()),
        mean: w.mean,
        ..s
    }
}

/// Welford's update: `t` is `s` with `value` as its newest value, and `w` holds
/// the numbers computed on the way.
pub open spec fn admits_by<A: Arithmetic>(
    ops: &A,
    s: Stats,
    value: Double,
    w: AdmitSteps,
    t: Stats,
) -> bool {
    let n = s.window.len() + 1;
    &&& arithmetic::is_sum(ops, s.sum, value, w.sum)
    &&& arithmetic::is_number_of(ops, n as u64, w.count)
    &&& arithmetic::is_quotient(ops, w.sum, w.count, w.mean)
    &&& arithmetic::is_difference(ops, value, s.mean, w.from_old_mean)
    &&& arithmetic::is_difference(ops, value, w.mean, w.from_new_mean)
    &&& arithmetic::is_product(ops, w.from_old_mean, w.from_new_mean, w.spread)
    &&& arithmetic::is_sum(ops, s.m2, w.spread, w.m2)
    &&& n >= 2 ==> arithmetic::is_quotient(ops, w.m2.larger(Double::zero()), w.count, w.variance)
    &&& n >= 2 ==> arithmetic::is_root(ops, w.variance, w.root)
    &&& t == Stats {
        window: s.window.push(value),
        capacity: s.capacity,
        sum: w.sum,
        m2: w.m2.larger(Double::zero()),
        mean: w.mean,
        deviation: if n >= 2 {
            w.root
        } else {
            Double::zero()
        },
    }
}

/// `t` is `s` after its oldest value has left.
pub open spec fn evicts<A: Arithmetic>(ops: &A, s: Stats, t: Stats) -> bool {
    exists|w: EvictSteps| evicts_by(ops, s, w, t)
}

/// `t` is `s` after `value` has entered.
pub open spec fn admits<A: Arithmetic>(ops: &A, s: Stats, value: Double, t: Stats) -> bool {
    exists|w: AdmitSteps| admits_by(ops, s, value, w, t)
}

/// `t` is `s` after `value` has been pushed: a full window first loses its
/// oldest value.
pub open spec fn pushes<A: Arithmetic>(ops: &A, s: Stats, value: Double, t: Stats) -> bool {
    if s.is_full() {
        exists|mid: Stats| evicts(ops, s, mid) && #[trigger] admits(ops, mid, value, t)
    } else {
        admits(ops, s, value, t)
    }
}

/// `r` is the distance of `value` from the mean in standard deviations, zero
/// where the deviation is negligible.
pub open spec fn is_zscore<A: Arithmetic>(ops: &A, s: Stats, value: Double, r: Double) -> bool {
    if s.deviation.below(Double::tiny()) {
        r == Double::zero()
    } else {
        exists|gap: Double|
            #[trigger] arithmetic::is_difference(ops, value, s.mean, gap) && arithmetic::is_quotient(ops, gap, s.deviation, r)
    }
}

/// Fixed-capacity ring buffer with incremental mean, deviation and z-score.
///
/// Uses Welford's online algorithm; mean and deviation are cached on every
/// `push`, so `zscore` is a single division.
pub struct RollingStats {
    buffer: Vec<Double>,
    capacity: usize,
    /// Where the next value goes.
    write_pos: usize,
    count: usize,
    sum: Double,
    m2: Double,
    cached_mean: Double,
    cached_std: Double,
}

impl RollingStats {
    pub closed spec fn wf(self) -> bool {
        &&& 0 < self.capacity == self.buffer@.len()
        &&& self.count <= self.capacity
        &&& self.write_pos < self.capacity
    }

    /// Where the `i`-th oldest value stands in the buffer.
    spec fn slot(self, i: int) -> int {
        let at = self.write_pos - self.count + i;
        if at < 0 {
            at + self.capacity
        } else {
            at
        }
    }

    pub closed spec fn view(self) -> Stats {
        Stats {
            window: Seq::new(self.count as nat, |i: int| self.buffer@[self.slot(i)]),
            capacity: self.capacity as nat,
            sum: self.sum,
            m2: self.m2,
            mean: self.cached_mean,
            deviation: self.cached_std,
        }
    }

    /// The window never holds more values than its capacity, which is not zero.
    pub proof fn lemma_window_bounded(&self)
        requires
            self.wf(),
        ensures
            self@.window.len() <= self@.capacity,
            0 < self@.capacity <= usize::MAX,
    {
    }

    pub fn new(capacity: usize) -> (r: RollingStats)
        requires
            capacity > 0,
        ensures
            r.wf(),
            r@ == Stats::empty(capacity as nat),
    {
        RollingStats {
            buffer: vec![Double::zero(); capacity],
            capacity,
            write_pos: 0,
            count: 0,
            sum: Double::zero(),
            m2: Double::zero(),
            cached_mean: Double::zero(),
            cached_std: Double::zero(),
        }
    }

    /// Removes the oldest value: Welford's update run backwards.
    fn evict<A: Arithmetic>(&mut self, ops: &A)
        requires
            old(self).wf(),
            old(self)@.is_full(),
        ensures
            final(self).wf(),
            final(self).write_pos == old(self).write_pos,
            evicts(ops, old(self)@, final(self)@),
            final(self)@.window.len() == old(self)@.window.len() - 1,
            final(self)@.capacity == old(self)@.capacity,
    {
        let old_value = self.buffer[self.write_pos];
        let n = self.count;
        let old_mean = self.cached_mean;
        let ghost zero = Double::zero();
        let ghost mut w = EvictSteps {
            gap: zero,
            count: zero,
            rest: zero,
            correction: zero,
            mean: zero,
            from_old_mean: zero,
            from_new_mean: zero,
            spread: zero,
            m2: zero,
            sum: zero,
        };
        let new_mean = if n > 1 {
            let gap = ops.minus(old_mean, old_value);
            let count = ops.from_integer(n as u64);
            let rest = ops.minus(count, Double::one());
            let correction = ops.over(gap, rest);
            let mean = ops.plus(old_mean, correction);
            proof {
                w.gap = gap;
                w.count = count;
                w.rest = rest;
                w.correction = correction;
            }
            mean
        } else {
            Double::zero()
        };
        let from_old_mean = ops.minus(old_value, old_mean);
        let from_new_mean = ops.minus(old_value, new_mean);
        let spread = ops.times(from_old_mean, from_new_mean);
        let m2 = ops.minus(self.m2, spread);
        let sum = ops.minus(self.sum, old_value);
        self.m2 = m2.max(Double::zero());
        self.sum = sum;
        self.count -= 1;
        self.cached_mean = new_mean;
        proof {
            w.mean = new_mean;
            w.from_old_mean = from_old_mean;
            w.from_new_mean = from_new_mean;
            w.spread = spread;
            w.m2 = m2;
            w.sum = sum;
            assert(old(self)@.window.first() == old_value);
            assert(self@.window =~= old(self)@.window.drop_first());
            assert(evicts_by(ops, old(self)@, w, self@));
        }
    }

    pub fn push<A: Arithmetic>(&mut self, ops: &A, value: Double)
        requires
            old(self).wf(),
        ensures
            final(self).wf(),
            pushes(ops, old(self)@, value, final(self)@),
    {
        if self.count >= self.capacity {
            self.evict(ops);
        }
        let ghost mid = *self;

        let idx = self.write_pos;
        self.buffer[idx] = value;
        let sum = ops.plus(self.sum, value);
        self.sum = sum;
        self.count += 1;
        self.write_pos = if idx + 1 == self.capacity {
            0
        } else {
            idx + 1
        };
        let n = ops.from_integer(self.count as u64);
        let old_mean = self.cached_mean;
        let new_mean = ops.over(sum, n);
        let from_old_mean = ops.minus(value, old_mean);
        let from_new_mean = ops.minus(value, new_mean);
        let spread = ops.times(from_old_mean, from_new_mean);
        let m2 = ops.plus(self.m2, spread);
        self.m2 = m2.max(Double::zero());
        self.cached_mean = new_mean;
        let ghost mut variance = Double::zero();
        let ghost mut root = Double::zero();
        self.cached_std = if self.count >= 2 {
            let v = ops.over(self.m2, n);
            let r = ops.root(v);
            proof {
                variance = v;
                root = r;
            }
            r
        } else {
            Double::zero()
        };
        proof {
            let w = AdmitSteps {
                sum,
                count: n,
                mean: new_mean,
                from_old_mean,
                from_new_mean,
                spread,
                m2,
                variance,
                root,
            };
            assert(self@.window =~= mid@.window.push(value));
            assert(admits_by(ops, mid@, value, w, self@));
            assert(admits(ops, mid@, value, self@));
        }
    }

    pub fn clear(&mut self)
        requires
            old(self).wf(),
        ensures
            final(self).wf(),
            final(self)@ == old(self)@.after_clear(),
    {
        self.write_pos = 0;
        self.count = 0;
        self.sum = Double::zero();
        self.m2 = Double::zero();
        self.cached_mean = Double::zero();
        self.cached_std = Double::zero();
    }

    pub fn count(&self) -> (r: usize)
        ensures
            r == self@.window.len(),
    {
        self.count
    }

    pub fn mean(&self) -> (r: Double)
        ensures
            r == self@.mean,
    {
        self.cached_mean
    }

    pub fn std_dev(&self) -> (r: Double)
        ensures
            r == self@.deviation,
    {
        self.cached_std
    }

    pub fn zscore<A: Arithmetic>(&self, ops: &A, value: Double) -> (r: Double)
        ensures
            is_zscore(ops, self@, value, r),
    {
        if self.cached_std.lt(Double::tiny()) {
            return Double::zero();
        }
        let gap = ops.minus(value, self.cached_mean);
        let r = ops.over(gap, self.cached_std);
        assert(arithmetic::is_difference(ops, value, self@.mean, gap));
        r
    }
}

/// The window after a push is the old one with the new value behind it, less
/// its oldest value where it was full.
pub open spec fn slides(window: Seq<Double>, capacity: nat, value: Double) -> Seq<Double> {
    if window.len() >= capacity {
        window.drop_first().push(value)
    } else {
        window.push(value)
    }
}

/// The parts of a push: what the window holds when the value enters, the numbers
/// computed while the oldest value leaves, where it does, and those computed
/// while the value enters.
pub proof fn lemma_push_has_parts<A: Arithmetic>(
    ops: &A,
    s: Stats,
    value: Double,
    t: Stats,
) -> (parts: (Stats, EvictSteps, AdmitSteps))
    requires
        pushes(ops, s, value, t),
    ensures
        admits_by(ops, parts.0, value, parts.2, t),
        s.is_full() ==> evicts_by(ops, s, parts.1, parts.0),
        !s.is_full() ==> parts.0 == s,
{
    let from = if s.is_full() {
        choose|mid: Stats| evicts(ops, s, mid) && #[trigger] admits(ops, mid, value, t)
    } else {
        s
    };
    let e = choose|e: EvictSteps| evicts_by(ops, s, e, from);
    let a = choose|a: AdmitSteps| admits_by(ops, from, value, a, t);
    (from, e, a)
}

/// A push slides the window, whatever the arithmetic gives, and keeps the
/// capacity.
pub proof fn law_push_slides_window<A: Arithmetic>(ops: &A, s: Stats, value: Double, t: Stats)
    requires
        pushes(ops, s, value, t),
        0 < s.capacity,
        s.window.len() <= s.capacity,
    ensures
        t.window == slides(s.window, s.capacity, value),
        t.capacity == s.capacity,
        t.window.len() == if s.window.len() < s.capacity {
            s.window.len() + 1
        } else {
            s.capacity
        },
{
    let parts = lemma_push_has_parts(ops, s, value, t);
}

/// With fewer than two values in the window the deviation is zero, and so is
/// every z-score.
pub proof fn law_single_value_has_no_deviation<A: Arithmetic>(
    ops: &A,
    s: Stats,
    value: Double,
    t: Stats,
    other: Double,
    z: Double,
)
    requires
        pushes(ops, s, value, t),
        0 < s.capacity,
        s.window.len() <= s.capacity,
        t.window.len() < 2,
        is_zscore(ops, t, other, z),
    ensures
        t.deviation == Double::zero(),
        z == Double::zero(),
{
    law_push_slides_window(ops, s, value, t);
    let parts = lemma_push_has_parts(ops, s, value, t);
}

/// The sum of squared differences is never negative, however the arithmetic
/// rounds, and never not-a-number.
pub proof fn law_spread_is_never_negative<A: Arithmetic>(
    ops: &A,
    s: Stats,
    value: Double,
    t: Stats,
)
    requires
        pushes(ops, s, value, t),
    ensures
        t.m2.at_least(Double::zero()),
{
    let parts = lemma_push_has_parts(ops, s, value, t);
}

/// It is not negative either between the leaving of the oldest value from a full
/// window and the entering of the newest.
pub proof fn law_spread_is_never_negative_between<A: Arithmetic>(
    ops: &A,
    s: Stats,
    value: Double,
    t: Stats,
)
    requires
        pushes(ops, s, value, t),
        s.window.len() >= s.capacity,
        s.window.len() > 0,
    ensures
        exists|mid: Stats|
            #![trigger admits(ops, mid, value, t)]
            admits(ops, mid, value, t) && mid.m2.at_least(Double::zero()) && mid.window
                == s.window.skip(1),
{
    let mid = choose|mid: Stats| evicts(ops, s, mid) && #[trigger] admits(ops, mid, value, t);
    assert(mid.window =~= s.window.skip(1));
}

/// The states a stream of values drives a window through, from first to last.
pub open spec fn push_run<A: Arithmetic>(
    ops: &A,
    states: Seq<Stats>,
    values: Seq<Double>,
) -> bool {
    &&& states.len() == values.len() + 1
    &&& forall|i: int|
        #![trigger values[i]]
        0 <= i < values.len() ==> pushes(ops, states[i], values[i], states[i + 1])
}

/// `s` is where a stream of values takes an empty window.
pub open spec fn holds_stream<A: Arithmetic>(
    ops: &A,
    capacity: nat,
    values: Seq<Double>,
    s: Stats,
) -> bool {
    exists|states: Seq<Stats>| #[trigger]
        push_run(ops, states, values) && states[0] == Stats::empty(capacity) && states.last() == s
}

/// One more value of a stream.
pub proof fn lemma_stream_grows<A: Arithmetic>(
    ops: &A,
    capacity: nat,
    values: Seq<Double>,
    s: Stats,
    value: Double,
    t: Stats,
)
    requires
        holds_stream(ops, capacity, values, s),
        pushes(ops, s, value, t),
    ensures
        holds_stream(ops, capacity, values.push(value), t),
{
    let states = choose|states: Seq<Stats>| #[trigger]
        push_run(ops, states, values) && states[0] == Stats::empty(capacity) && states.last() == s;
    lemma_run_grows(ops, states, values, value, t);
}

/// A run of pushes with one more.
pub proof fn lemma_run_grows<A: Arithmetic>(
    ops: &A,
    states: Seq<Stats>,
    values: Seq<Double>,
    value: Double,
    t: Stats,
)
    requires
        push_run(ops, states, values),
        pushes(ops, states.last(), value, t),
    ensures
        push_run(ops, states.push(t), values.push(value)),
{
    let longer = values.push(value);
    assert forall|i: int| #![trigger longer[i]] 0 <= i < longer.len() implies pushes(
        ops,
        states.push(t)[i],
        longer[i],
        states.push(t)[i + 1],
    ) by {
        if i < values.len() {
            assert(longer[i] == values[i]);
        }
    }
}

/// The last `n` values of a stream.
pub open spec fn last_of(values: Seq<Double>, n: nat) -> Seq<Double> {
    if values.len() <= n {
        values
    } else {
        values.skip(values.len() - n)
    }
}

/// After any stream of pushes into an empty window, it holds exactly the most
/// recent values of the stream, as many as fit, in order.
pub proof fn law_window_is_tail_of_stream<A: Arithmetic>(
    ops: &A,
    states: Seq<Stats>,
    values: Seq<Double>,
    capacity: nat,
)
    requires
        0 < capacity,
        push_run(ops, states, values),
        states[0] == Stats::empty(capacity),
    ensures
        states.last().window == last_of(values, capacity),
        states.last().capacity == capacity,
    decreases values.len(),
{
    if values.len() == 0 {
        assert(states.last().window =~= last_of(values, capacity));
    } else {
        let before = values.drop_last();
        assert forall|i: int| #![trigger before[i]] 0 <= i < before.len() implies pushes(
            ops,
            states.drop_last()[i],
            before[i],
            states.drop_last()[i + 1],
        ) by {
            assert(before[i] == values[i]);
        }
        law_window_is_tail_of_stream(ops, states.drop_last(), before, capacity);
        let s = states.drop_last().last();
        assert(values[values.len() - 1] == values.last());
        assert(pushes(ops, s, values.last(), states.last()));
        law_push_slides_window(ops, s, values.last(), states.last());
        assert(states.last().window =~= last_of(values, capacity));
    }
}

/// A push keeps the capacity.
pub proof fn lemma_capacity_is_kept<A: Arithmetic>(ops: &A, s: Stats, value: Double, t: Stats)
    requires
        pushes(ops, s, value, t),
    ensures
        t.capacity == s.capacity,
{
    let parts = lemma_push_has_parts(ops, s, value, t);
}

/// Values that are alike, one by one.
pub open spec fn values_alike(a: Seq<Double>, b: Seq<Double>) -> bool {
    &&& a.len() == b.len()
    &&& forall|i: int|
        #![trigger a[i]]
        #![trigger b[i]]
        0 <= i < a.len() ==> a[i].alike(b[i])
}

/// Windows that are alike: the same numbers everywhere, whatever the bits of
/// what is not a number.
pub open spec fn stats_alike(s: Stats, t: Stats) -> bool {
    &&& s.capacity == t.capacity
    &&& values_alike(s.window, t.window)
    &&& s.sum.alike(t.sum)
    &&& s.m2.alike(t.m2)
    &&& s.mean.alike(t.mean)
    &&& s.deviation.alike(t.deviation)
}

/// With an arithmetic that agrees with itself, a push has one outcome.
pub proof fn lemma_pushes_agree<A: Arithmetic>(
    ops: &A,
    r: Stats,
    s: Stats,
    one: Double,
    other: Double,
    t: Stats,
    u: Stats,
)
    requires
        arithmetic::is_repeatable(ops),
        stats_alike(r, s),
        one.alike(other),
        pushes(ops, r, one, t),
        pushes(ops, s, other, u),
        0 < r.capacity,
    ensures
        stats_alike(t, u),
{
    let (m, x, v) = lemma_push_has_parts(ops, r, one, t);
    let (n, y, w) = lemma_push_has_parts(ops, s, other, u);
    if r.is_full() {
        assert(r.window[0].alike(s.window[0]));
        assert(x.mean.alike(y.mean));
        assert(x.spread.alike(y.spread));
        assert(stats_alike(m, n)) by {
            assert forall|i: int| 0 <= i < m.window.len() implies m.window[i].alike(
                n.window[i],
            ) by {
                assert(r.window[i + 1].alike(s.window[i + 1]));
            }
        }
    }
    lemma_admits_agree(ops, m, n, one, other, v, w, t, u);
}

proof fn lemma_admits_agree<A: Arithmetic>(
    ops: &A,
    r: Stats,
    s: Stats,
    one: Double,
    other: Double,
    v: AdmitSteps,
    w: AdmitSteps,
    t: Stats,
    u: Stats,
)
    requires
        arithmetic::is_repeatable(ops),
        r.capacity == s.capacity,
        values_alike(r.window, s.window),
        r.sum.alike(s.sum),
        r.m2.alike(s.m2),
        r.mean.alike(s.mean),
        one.alike(other),
        admits_by(ops, r, one, v, t),
        admits_by(ops, s, other, w, u),
    ensures
        stats_alike(t, u),
{
    assert(v.mean.alike(w.mean));
    assert(v.spread.alike(w.spread));
    assert(v.m2.alike(w.m2));
    assert forall|i: int| 0 <= i < t.window.len() implies t.window[i].alike(u.window[i]) by {
        if i < r.window.len() {
            assert(r.window[i].alike(s.window[i]));
        }
    }
}

/// A z-score has one outcome.
pub proof fn lemma_zscores_agree<A: Arithmetic>(
    ops: &A,
    s: Stats,
    t: Stats,
    one: Double,
    other: Double,
    y: Double,
    z: Double,
)
    requires
        arithmetic::is_repeatable(ops),
        stats_alike(s, t),
        one.alike(other),
        is_zscore(ops, s, one, y),
        is_zscore(ops, t, other, z),
    ensures
        y.alike(z),
{
}

/// Windows that are alike stay so, push by push.
proof fn lemma_runs_agree<A: Arithmetic>(
    ops: &A,
    values: Seq<Double>,
    a: Seq<Stats>,
    b: Seq<Stats>,
    i: int,
)
    requires
        arithmetic::is_repeatable(ops),
        push_run(ops, a, values),
        push_run(ops, b, values),
        stats_alike(a[0], b[0]),
        0 < a[0].capacity,
        0 <= i <= values.len(),
    ensures
        stats_alike(a[i], b[i]),
        a[i].capacity == a[0].capacity,
    decreases i,
{
    if i > 0 {
        lemma_runs_agree(ops, values, a, b, i - 1);
        let value = values[i - 1];
        assert(pushes(ops, a[i - 1], value, a[i]));
        assert(pushes(ops, b[i - 1], value, b[i]));
        lemma_pushes_agree(ops, a[i - 1], b[i - 1], value, value, a[i], b[i]);
        lemma_capacity_is_kept(ops, a[i - 1], value, a[i]);
    }
}

/// A window that has been cleared is a new one of its capacity. With an
/// arithmetic that agrees with itself, the same values pushed into both give the
/// same window, mean, deviation and z-scores at every point, so nothing from
/// before comes back.
pub proof fn law_cleared_window_is_like_new<A: Arithmetic>(
    ops: &A,
    before: Stats,
    values: Seq<Double>,
    cleared: Seq<Stats>,
    fresh: Seq<Stats>,
)
    requires
        0 < before.capacity,
        push_run(ops, cleared, values),
        push_run(ops, fresh, values),
        cleared[0] == before.after_clear(),
        fresh[0] == Stats::empty(before.capacity),
    ensures
        cleared[0] == fresh[0],
        forall|i: int|
            0 <= i <= values.len() ==> (#[trigger] cleared[i]).window == fresh[i].window
                && cleared[i].capacity == fresh[i].capacity,
        arithmetic::is_repeatable(ops) ==> {
            &&& forall|i: int|
                0 <= i <= values.len() ==> stats_alike(#[trigger] cleared[i], fresh[i])
            &&& forall|i: int, value: Double, y: Double, z: Double|
                0 <= i <= values.len() && #[trigger] is_zscore(ops, cleared[i], value, y)
                    && #[trigger] is_zscore(ops, fresh[i], value, z) ==> y.alike(z)
        },
{
    assert forall|i: int| 0 <= i <= values.len() implies (#[trigger] cleared[i]).window
        == fresh[i].window && cleared[i].capacity == fresh[i].capacity by {
        lemma_windows_are_equal(ops, values, cleared, fresh, i);
    }
    if arithmetic::is_repeatable(ops) {
        assert forall|i: int| 0 <= i <= values.len() implies stats_alike(
            #[trigger] cleared[i],
            fresh[i],
        ) by {
            lemma_runs_agree(ops, values, cleared, fresh, i);
        }
        assert forall|i: int, value: Double, y: Double, z: Double|
            0 <= i <= values.len() && #[trigger] is_zscore(ops, cleared[i], value, y)
                && #[trigger] is_zscore(ops, fresh[i], value, z) implies y.alike(z) by {
            lemma_zscores_agree(ops, cleared[i], fresh[i], value, value, y, z);
        }
    }
}

/// The same values slide equal windows alike, whatever the arithmetic gives.
proof fn lemma_windows_are_equal<A: Arithmetic>(
    ops: &A,
    values: Seq<Double>,
    a: Seq<Stats>,
    b: Seq<Stats>,
    i: int,
)
    requires
        push_run(ops, a, values),
        push_run(ops, b, values),
        a[0] == b[0],
        0 < a[0].capacity,
        a[0].window.len() <= a[0].capacity,
        0 <= i <= values.len(),
    ensures
        a[i].window == b[i].window,
        a[i].capacity == a[0].capacity,
        b[i].capacity == a[0].capacity,
        a[i].window.len() <= a[0].capacity,
    decreases i,
{
    if i > 0 {
        lemma_windows_are_equal(ops, values, a, b, i - 1);
        assert(pushes(ops, a[i - 1], values[i - 1], a[i]));
        assert(pushes(ops, b[i - 1], values[i - 1], b[i]));
        law_push_slides_window(ops, a[i - 1], values[i - 1], a[i]);
        law_push_slides_window(ops, b[i - 1], values[i - 1], b[i]);
    }
}

/// The deviation is never negative and never not-a-number, whatever values are
/// pushed, with an arithmetic in which roots and quotients of what is not
/// negative are not.
pub proof fn law_deviation_is_never_negative<A: Arithmetic>(
    ops: &A,
    s: Stats,
    value: Double,
    t: Stats,
)
    requires
        arithmetic::roots_of_shares_keep_sign(ops),
        pushes(ops, s, value, t),
        0 < s.capacity <= usize::MAX,
        s.window.len() <= s.capacity,
    ensures
        t.deviation.is_non_negative(),
{
    let (from, _, v) = lemma_push_has_parts(ops, s, value, t);
    let n = from.window.len() + 1;
    assert(n <= usize::MAX);
    assert(arithmetic::is_number_of(ops, n as u64, v.count));
    assert(v.count.is_positive());
}

/// Z-scores rise with the value, and the mean itself has a z-score of zero, with
/// an arithmetic that keeps the order and the sign of numbers.
pub proof fn law_zscores_rise_with_value<A: Arithmetic>(
    ops: &A,
    s: Stats,
    low: Double,
    high: Double,
    y: Double,
    z: Double,
    at_mean: Double,
)
    requires
        arithmetic::keeps_order(ops),
        arithmetic::keeps_sign(ops),
        s.mean.is_finite_spec(),
        s.deviation.is_finite_spec(),
        low.is_finite_spec(),
        high.is_finite_spec(),
        high.at_least(low),
        is_zscore(ops, s, low, y),
        is_zscore(ops, s, high, z),
        is_zscore(ops, s, s.mean, at_mean),
    ensures
        z.at_least(y),
        at_mean.equals(Double::zero()),
{
    if !s.deviation.below(Double::tiny()) {
        assert(s.deviation.is_positive());
        let a = choose|a: Double| #[trigger] arithmetic::is_difference(ops, low, s.mean, a)
            && arithmetic::is_quotient(ops, a, s.deviation, y);
        let b = choose|b: Double| #[trigger] arithmetic::is_difference(ops, high, s.mean, b)
            && arithmetic::is_quotient(ops, b, s.deviation, z);
        assert(b.at_least(a));
    }
}

/// A window that holds a stream holds its latest values.
pub proof fn lemma_stream_is_held<A: Arithmetic>(
    ops: &A,
    capacity: nat,
    values: Seq<Double>,
    s: Stats,
)
    requires
        holds_stream(ops, capacity, values, s),
        0 < capacity,
    ensures
        s.window == last_of(values, capacity),
        s.capacity == capacity,
        s.window.len() <= capacity,
{
    let states = choose|states: Seq<Stats>| #[trigger]
        push_run(ops, states, values) && states[0] == Stats::empty(capacity) && states.last() == s;
    law_window_is_tail_of_stream(ops, states, values, capacity);
}

} // verus!
