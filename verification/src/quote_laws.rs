//! What holds of a calculator of quotes over several calls, with an arithmetic
//! that agrees with itself; and of its numbers, with one that also keeps the
//! order of numbers.
use crate::arithmetic;
use crate::arithmetic::Arithmetic;
use crate::double;
use crate::double::Double;
use crate::exact_stats;
use crate::imbalance;
use crate::orderbook::Level;
use crate::rolling_stats;
use crate::rolling_stats::Stats;
use crate::vol_obi;
use crate::vol_obi::{QuoteSteps, Settings, VolObi, VolObiConfig};
use vstd::prelude::*;

verus! {

/// A call that changes a calculator.
pub enum Call {
    Update { mid_price: Double, bids: Map<i64, Level>, asks: Map<i64, Level> },
    SetAlphaOverride(Option<Double>),
    SetMaxPositionDollar(Double),
    Reset,
}

/// `t` is `s` after a call.
pub open spec fn leads<A: Arithmetic>(ops: &A, s: VolObi, call: Call, t: VolObi) -> bool {
    match call {
        Call::Update { mid_price, bids, asks } => vol_obi::updates(
            ops,
            s,
            mid_price,
            bids,
            asks,
            t,
        ),
        Call::SetAlphaOverride(alpha) => t == (VolObi { alpha_override: alpha, ..s }),
        Call::SetMaxPositionDollar(value) => t == s.limited(value),
        Call::Reset => t == s.after_reset(),
    }
}

/// The states that calls drive a calculator through.
pub open spec fn call_run<A: Arithmetic>(ops: &A, states: Seq<VolObi>, calls: Seq<Call>) -> bool {
    &&& states.len() == calls.len() + 1
    &&& forall|i: int|
        #![trigger calls[i]]
        0 <= i < calls.len() ==> leads(ops, states[i], calls[i], states[i + 1])
}

/// Calculators that are alike: the same numbers everywhere, whatever the bits of
/// what is not a number.
pub open spec fn calculators_alike(s: VolObi, t: VolObi) -> bool {
    &&& rolling_stats::stats_alike(s.mid_stats, t.mid_stats)
    &&& rolling_stats::stats_alike(s.imb_stats, t.imb_stats)
    &&& double::options_alike(s.prev_mid, t.prev_mid)
    &&& s.volatility.alike(t.volatility)
    &&& s.alpha.alike(t.alpha)
    &&& double::options_alike(s.alpha_override, t.alpha_override)
    &&& s.warmed_up == t.warmed_up
    &&& s.total_samples == t.total_samples
    &&& t.config == (VolObiConfig { vol_scale: t.config.vol_scale, c1: t.config.c1, ..s.config })
    &&& s.config.vol_scale.alike(t.config.vol_scale)
    &&& s.config.c1.alike(t.config.c1)
}

/// Quotes that are alike.
pub open spec fn quotes_alike(q: Option<(Double, Double)>, r: Option<(Double, Double)>) -> bool {
    match (q, r) {
        (Some(a), Some(b)) => a.0.alike(b.0) && a.1.alike(b.1),
        (None, None) => true,
        _ => false,
    }
}

/// Two runs agree: their states are alike at every point, and so is every quote.
pub open spec fn runs_agree<A: Arithmetic>(ops: &A, a: Seq<VolObi>, b: Seq<VolObi>) -> bool {
    &&& a.len() == b.len()
    &&& forall|i: int| 0 <= i < a.len() ==> calculators_alike(#[trigger] a[i], b[i])
    &&& forall|i: int, mid: Double, pos: Double, q: Option<(Double, Double)>, r: Option<
        (Double, Double),
    >|
        0 <= i < a.len() && #[trigger] vol_obi::is_quote(ops, a[i], mid, pos, q)
            && #[trigger] vol_obi::is_quote(ops, b[i], mid, pos, r) ==> quotes_alike(q, r)
}

/// Both windows have the same capacity, which is not zero.
pub open spec fn is_sized(s: VolObi) -> bool {
    0 < s.mid_stats.capacity == s.imb_stats.capacity
}

/// A book update has one outcome.
proof fn lemma_updates_agree<A: Arithmetic>(
    ops: &A,
    r: VolObi,
    s: VolObi,
    mid_price: Double,
    bids: Map<i64, Level>,
    asks: Map<i64, Level>,
    t: VolObi,
    u: VolObi,
)
    requires
        arithmetic::is_repeatable(ops),
        calculators_alike(r, s),
        is_sized(r),
        vol_obi::updates(ops, r, mid_price, bids, asks, t),
        vol_obi::updates(ops, s, mid_price, bids, asks, u),
    ensures
        calculators_alike(t, u),
{
    let (c, i) = choose|c: Double, i: Double|
        vol_obi::updates_by(ops, r, mid_price, bids, asks, c, i, t);
    let (d, j) = choose|d: Double, j: Double|
        vol_obi::updates_by(ops, s, mid_price, bids, asks, d, j, u);
    assert(vol_obi::updates_by(ops, r, mid_price, bids, asks, c, i, t));
    assert(vol_obi::updates_by(ops, s, mid_price, bids, asks, d, j, u));
    imbalance::law_imbalance_is_fixed_by_book(
        ops,
        bids,
        asks,
        mid_price,
        r.config.looking_depth,
        i,
        j,
    );
    rolling_stats::lemma_pushes_agree(
        ops,
        r.imb_stats,
        s.imb_stats,
        i,
        j,
        t.imb_stats,
        u.imb_stats,
    );
    if r.prev_mid is Some {
        assert(c.alike(d));
        rolling_stats::lemma_pushes_agree(
            ops,
            r.mid_stats,
            s.mid_stats,
            c,
            d,
            t.mid_stats,
            u.mid_stats,
        );
    }
    if t.total_samples >= r.config.min_warmup_samples && r.alpha_override is None {
        rolling_stats::lemma_zscores_agree(
            ops,
            t.imb_stats,
            u.imb_stats,
            i,
            j,
            t.alpha,
            u.alpha,
        );
    }
}

/// Two positions that enter a quote as the same share are quoted alike.
proof fn lemma_quotes_agree<A: Arithmetic>(
    ops: &A,
    s: VolObi,
    t: VolObi,
    mid: Double,
    p: Double,
    q: Double,
    x: QuoteSteps,
    y: QuoteSteps,
)
    requires
        arithmetic::is_repeatable(ops),
        calculators_alike(s, t),
        vol_obi::quotes_by(ops, s, mid, p, x),
        vol_obi::quotes_by(ops, t, mid, q, y),
        x.norm_pos(s.config).alike(y.norm_pos(t.config)),
    ensures
        x.bid.alike(y.bid),
        x.ask.alike(y.ask),
{
    assert(x.half_spread_tick.alike(y.half_spread_tick));
    assert(x.fair_price.alike(y.fair_price));
    assert(x.bid_depth.alike(y.bid_depth));
    assert(x.ask_depth.alike(y.ask_depth));
    assert(x.raw_bid.alike(y.raw_bid));
    assert(x.raw_ask.alike(y.raw_ask));
    assert(x.floored_bid(s.config).alike(y.floored_bid(t.config)));
    assert(x.floored_ask(s.config).alike(y.floored_ask(t.config)));
}

/// The steps of a quote.
proof fn lemma_quote_has_steps<A: Arithmetic>(
    ops: &A,
    s: VolObi,
    mid: Double,
    pos: Double,
    q: Option<(Double, Double)>,
) -> (w: QuoteSteps)
    requires
        s.warmed_up,
        vol_obi::is_quote(ops, s, mid, pos, q),
    ensures
        vol_obi::quotes_by(ops, s, mid, pos, w),
        q == if w.bid.at_least(w.ask) {
            None
        } else {
            Some((w.bid, w.ask))
        },
{
    choose|w: QuoteSteps| #[trigger]
        vol_obi::quotes_by(ops, s, mid, pos, w) && q == if w.bid.at_least(w.ask) {
            None
        } else {
            Some((w.bid, w.ask))
        }
}

/// The same question, put to calculators that are alike, has one quote for an
/// answer.
pub proof fn law_quote_is_fixed_by_state<A: Arithmetic>(
    ops: &A,
    s: VolObi,
    t: VolObi,
    mid: Double,
    pos: Double,
    q: Option<(Double, Double)>,
    r: Option<(Double, Double)>,
)
    requires
        arithmetic::is_repeatable(ops),
        calculators_alike(s, t),
        vol_obi::is_quote(ops, s, mid, pos, q),
        vol_obi::is_quote(ops, t, mid, pos, r),
    ensures
        quotes_alike(q, r),
{
    if s.warmed_up {
        let x = lemma_quote_has_steps(ops, s, mid, pos, q);
        let y = lemma_quote_has_steps(ops, t, mid, pos, r);
        assert(x.load.alike(y.load) || !Double::zero().below(s.config.max_position_dollar));
        lemma_quotes_agree(ops, s, t, mid, pos, pos, x, y);
    }
}

/// Without a positive position limit a quote does not depend on the position:
/// every quote for one position is a quote for any other. With an arithmetic
/// that agrees with itself there is one quote for both.
pub proof fn law_position_is_ignored_without_limit<A: Arithmetic>(
    ops: &A,
    s: VolObi,
    mid: Double,
    one_position: Double,
    other_position: Double,
    q: Option<(Double, Double)>,
    r: Option<(Double, Double)>,
)
    requires
        !Double::zero().below(s.config.max_position_dollar),
        vol_obi::is_quote(ops, s, mid, one_position, q),
        vol_obi::is_quote(ops, s, mid, other_position, r),
    ensures
        vol_obi::is_quote(ops, s, mid, other_position, q),
        arithmetic::is_repeatable(ops) ==> quotes_alike(q, r),
{
    if s.warmed_up {
        let x = lemma_quote_has_steps(ops, s, mid, one_position, q);
        assert(vol_obi::quotes_by(ops, s, mid, other_position, x));
    }
    if arithmetic::is_repeatable(ops) {
        law_quote_is_fixed_by_state(ops, s, s, mid, other_position, q, r);
    }
}

/// Calculators that are alike stay so under the same calls.
pub proof fn law_like_calculators_stay_alike<A: Arithmetic>(
    ops: &A,
    calls: Seq<Call>,
    a: Seq<VolObi>,
    b: Seq<VolObi>,
)
    requires
        arithmetic::is_repeatable(ops),
        call_run(ops, a, calls),
        call_run(ops, b, calls),
        calculators_alike(a[0], b[0]),
        is_sized(a[0]),
    ensures
        runs_agree(ops, a, b),
{
    assert forall|i: int| 0 <= i < a.len() implies calculators_alike(#[trigger] a[i], b[i]) by {
        lemma_states_agree(ops, calls, a, b, i);
    }
    assert forall|i: int, mid: Double, pos: Double, q: Option<(Double, Double)>, r: Option<
        (Double, Double),
    >|
        0 <= i < a.len() && #[trigger] vol_obi::is_quote(ops, a[i], mid, pos, q)
            && #[trigger] vol_obi::is_quote(ops, b[i], mid, pos, r) implies quotes_alike(q, r) by {
        law_quote_is_fixed_by_state(ops, a[i], b[i], mid, pos, q, r);
    }
}

proof fn lemma_states_agree<A: Arithmetic>(
    ops: &A,
    calls: Seq<Call>,
    a: Seq<VolObi>,
    b: Seq<VolObi>,
    i: int,
)
    requires
        arithmetic::is_repeatable(ops),
        call_run(ops, a, calls),
        call_run(ops, b, calls),
        calculators_alike(a[0], b[0]),
        is_sized(a[0]),
        0 <= i < a.len(),
    ensures
        calculators_alike(a[i], b[i]),
    decreases i,
{
    if i > 0 {
        lemma_states_agree(ops, calls, a, b, i - 1);
        law_calls_keep_parameters(ops, calls, a, i - 1);
        assert(leads(ops, a[i - 1], calls[i - 1], a[i]));
        assert(leads(ops, b[i - 1], calls[i - 1], b[i]));
        if let Call::Update { mid_price, bids, asks } = calls[i - 1] {
            lemma_updates_agree(ops, a[i - 1], b[i - 1], mid_price, bids, asks, a[i], b[i]);
        }
    }
}

/// Whatever is called, a calculator keeps its windows and all of its parameters
/// but the position limit.
pub proof fn law_calls_keep_parameters<A: Arithmetic>(
    ops: &A,
    calls: Seq<Call>,
    states: Seq<VolObi>,
    i: int,
)
    requires
        call_run(ops, states, calls),
        0 <= i < states.len(),
    ensures
        states[i].mid_stats.capacity == states[0].mid_stats.capacity,
        is_sized(states[0]) ==> is_sized(states[i]),
        states[i].config == (VolObiConfig {
            max_position_dollar: states[i].config.max_position_dollar,
            ..states[0].config
        }),
    decreases i,
{
    if i > 0 {
        law_calls_keep_parameters(ops, calls, states, i - 1);
        let s = states[i - 1];
        let t = states[i];
        assert(leads(ops, s, calls[i - 1], t));
        if let Call::Update { mid_price, bids, asks } = calls[i - 1] {
            let (c, j) = choose|c: Double, j: Double|
                vol_obi::updates_by(ops, s, mid_price, bids, asks, c, j, t);
            assert(vol_obi::updates_by(ops, s, mid_price, bids, asks, c, j, t));
            rolling_stats::lemma_capacity_is_kept(ops, s.imb_stats, j, t.imb_stats);
            if s.prev_mid is Some {
                rolling_stats::lemma_capacity_is_kept(ops, s.mid_stats, c, t.mid_stats);
            }
        }
    }
}

/// A calculator that has been reset is a new one, made from the same settings
/// with the position limit that it has now: warmed up by nothing, without an
/// override, and with no trace of what it was fed. With an arithmetic that agrees
/// with itself, it and any other that is made so agree under the same later
/// calls, in every state and in every quote.
pub proof fn law_reset_is_like_new<A: Arithmetic>(
    ops: &A,
    with: Settings,
    earlier_calls: Seq<Call>,
    before: Seq<VolObi>,
    calls: Seq<Call>,
    reset: Seq<VolObi>,
    made: Seq<VolObi>,
)
    requires
        0 < with.window_steps,
        call_run(ops, before, earlier_calls),
        vol_obi::is_new(ops, with, before[0]),
        call_run(ops, reset, calls),
        reset[0] == before.last().after_reset(),
        call_run(ops, made, calls),
        vol_obi::is_new(
            ops,
            (Settings {
                max_position_dollar: before.last().config.max_position_dollar,
                ..with
            }),
            made[0],
        ),
    ensures
        vol_obi::is_new(
            ops,
            (Settings {
                max_position_dollar: before.last().config.max_position_dollar,
                ..with
            }),
            reset[0],
        ),
        !reset[0].warmed_up && reset[0].total_samples == 0 && reset[0].alpha_override is None,
        reset[0].volatility == Double::zero() && reset[0].alpha == Double::zero(),
        arithmetic::is_repeatable(ops) ==> runs_agree(ops, reset, made),
{
    law_calls_keep_parameters(ops, earlier_calls, before, before.len() - 1);
    if arithmetic::is_repeatable(ops) {
        assert(made[0].config.vol_scale.alike(before[0].config.vol_scale));
        assert(made[0].config.c1.alike(before[0].config.c1));
        assert(calculators_alike(reset[0], made[0]));
        law_like_calculators_stay_alike(ops, calls, reset, made);
    }
}

/// A price move per unit of alpha that is derived from ticks is the same as that
/// move given outright: what is made with the one is also made with the other.
/// With an arithmetic that agrees with itself both quote alike under the same
/// calls.
pub proof fn law_derived_c1_quotes_like_given<A: Arithmetic>(
    ops: &A,
    derived: Settings,
    given: Settings,
    calls: Seq<Call>,
    a: Seq<VolObi>,
    b: Seq<VolObi>,
)
    requires
        0 < derived.window_steps,
        !Double::zero().below(derived.c1),
        Double::zero().below(given.c1),
        arithmetic::is_product(ops, derived.c1_ticks, derived.tick_size, given.c1),
        given == (Settings { c1: given.c1, c1_ticks: given.c1_ticks, ..derived }),
        call_run(ops, a, calls),
        vol_obi::is_new(ops, derived, a[0]),
        call_run(ops, b, calls),
        vol_obi::is_new(ops, given, b[0]),
    ensures
        vol_obi::is_new(ops, derived, b[0]),
        arithmetic::is_repeatable(ops) ==> runs_agree(ops, a, b),
{
    if arithmetic::is_repeatable(ops) {
        assert(a[0].config.vol_scale.alike(b[0].config.vol_scale));
        assert(a[0].config.c1.alike(b[0].config.c1));
        assert(calculators_alike(a[0], b[0]));
        law_like_calculators_stay_alike(ops, calls, a, b);
    }
}

/// The worth of a position is at the limit or beyond, long or short, whatever
/// product of position and price is taken.
pub open spec fn is_beyond_limit<A: Arithmetic>(
    ops: &A,
    limit: Double,
    position: Double,
    mid: Double,
    long: bool,
) -> bool {
    forall|worth: Double| #[trigger]
        arithmetic::is_product(ops, position, mid, worth) ==> if long {
            worth.at_least(limit)
        } else {
            !worth.is_nan_spec() && worth.rank() <= -limit.rank()
        }
}

/// The skew saturates at the position limit: where the worth of two positions is
/// at or beyond it, on the same side, every quote for the one is a quote for the
/// other. With an arithmetic that agrees with itself there is one quote for
/// both.
pub proof fn law_skew_saturates_at_limit<A: Arithmetic>(
    ops: &A,
    s: VolObi,
    mid: Double,
    long: bool,
    one_position: Double,
    other_position: Double,
    q: Option<(Double, Double)>,
    r: Option<(Double, Double)>,
)
    requires
        arithmetic::keeps_proportion(ops),
        Double::zero().below(s.config.max_position_dollar),
        is_beyond_limit(ops, s.config.max_position_dollar, one_position, mid, long),
        is_beyond_limit(ops, s.config.max_position_dollar, other_position, mid, long),
        vol_obi::is_quote(ops, s, mid, one_position, q),
        vol_obi::is_quote(ops, s, mid, other_position, r),
    ensures
        vol_obi::is_quote(ops, s, mid, other_position, q),
        arithmetic::is_repeatable(ops) ==> quotes_alike(q, r),
{
    if s.warmed_up {
        let x = lemma_quote_has_steps(ops, s, mid, one_position, q);
        let y = lemma_quote_has_steps(ops, s, mid, other_position, r);
        let limit = s.config.max_position_dollar;
        assert(arithmetic::is_product(ops, one_position, mid, x.exposure));
        assert(arithmetic::is_product(ops, other_position, mid, y.exposure));
        if limit.is_positive() {
            if long {
                assert(x.load.at_least(Double::one()) && y.load.at_least(Double::one()));
            } else {
                assert(Double::minus_one().at_least(x.load));
                assert(Double::minus_one().at_least(y.load));
            }
            let w = QuoteSteps { exposure: y.exposure, load: y.load, ..x };
            assert(w.norm_pos(s.config) == x.norm_pos(s.config));
            assert(w.floored_bid(s.config) == x.floored_bid(s.config));
            assert(w.floored_ask(s.config) == x.floored_ask(s.config));
            assert(vol_obi::quotes_by(ops, s, mid, other_position, w));
        } else {
            // An infinite limit is reached by an infinite worth alone
            assert(x.exposure.rank() == y.exposure.rank());
            assert(x.exposure == y.exposure);
            assert(vol_obi::quotes_by(ops, s, mid, other_position, x));
        }
    }
    if arithmetic::is_repeatable(ops) {
        law_quote_is_fixed_by_state(ops, s, s, mid, other_position, q, r);
    }
}

/// A longer position leans further.
proof fn lemma_shares_are_ordered<A: Arithmetic>(
    ops: &A,
    s: VolObi,
    mid: Double,
    p: Double,
    q: Double,
    x: QuoteSteps,
    y: QuoteSteps,
)
    requires
        arithmetic::keeps_order(ops),
        arithmetic::keeps_sign(ops),
        vol_obi::quotes_by(ops, s, mid, p, x),
        vol_obi::quotes_by(ops, s, mid, q, y),
        mid.is_positive(),
        p.is_finite_spec(),
        q.is_finite_spec(),
        q.at_least(p),
        Double::zero().below(s.config.max_position_dollar)
            ==> s.config.max_position_dollar.is_finite_spec(),
        s.config.skew.is_finite_spec() && s.config.skew.is_non_negative(),
    ensures
        y.bid_lean.at_least(x.bid_lean),
        y.ask_lean.at_least(x.ask_lean),
        y.bid_factor.at_least(x.bid_factor),
        x.ask_factor.at_least(y.ask_factor),
{
    let c = s.config;
    if Double::zero().below(c.max_position_dollar) {
        assert(y.exposure.at_least(x.exposure));
        assert(y.load.at_least(x.load));
    }
    assert(y.norm_pos(c).at_least(x.norm_pos(c)));
    assert(x.norm_pos(c).is_finite_spec() && y.norm_pos(c).is_finite_spec());
    assert(Double::one().is_finite_spec());
    assert(y.bid_lean.at_least(x.bid_lean));
    assert(y.ask_lean.at_least(x.ask_lean));
}

/// A longer position never raises either price of a quote, with an arithmetic
/// that agrees with itself and keeps the order of numbers. The quotes are
/// numbers, and so are the parameters; a limit, where there is one, is finite.
pub proof fn law_longer_position_never_raises_price<A: Arithmetic>(
    ops: &A,
    s: VolObi,
    mid: Double,
    shorter: Double,
    longer: Double,
    bid: Double,
    ask: Double,
    longer_bid: Double,
    longer_ask: Double,
)
    requires
        arithmetic::is_repeatable(ops),
        arithmetic::spreads_nan(ops),
        arithmetic::keeps_order(ops),
        arithmetic::keeps_sign(ops),
        s.config.tick_size.is_positive(),
        s.config.skew.is_finite_spec() && s.config.skew.is_non_negative(),
        s.config.vol_to_half_spread.is_non_negative(),
        s.volatility.is_non_negative(),
        Double::zero().below(s.config.max_position_dollar)
            ==> s.config.max_position_dollar.is_finite_spec(),
        mid.is_positive(),
        shorter.is_finite_spec(),
        longer.is_finite_spec(),
        longer.at_least(shorter),
        vol_obi::is_quote(ops, s, mid, shorter, Some((bid, ask))),
        vol_obi::is_quote(ops, s, mid, longer, Some((longer_bid, longer_ask))),
        !bid.is_nan_spec() && !ask.is_nan_spec(),
        !longer_bid.is_nan_spec() && !longer_ask.is_nan_spec(),
    ensures
        bid.at_least(longer_bid),
        ask.at_least(longer_ask),
{
    let x = lemma_quote_has_steps(ops, s, mid, shorter, Some((bid, ask)));
    let y = lemma_quote_has_steps(ops, s, mid, longer, Some((longer_bid, longer_ask)));
    lemma_shares_are_ordered(ops, s, mid, shorter, longer, x, y);
    lemma_common_steps(ops, s, mid, shorter, longer, x, y);
    lemma_bids_are_ordered(ops, s, mid, shorter, longer, x, y);
    lemma_asks_are_ordered(ops, s, mid, shorter, longer, x, y);
}

/// What does not depend on the position.
proof fn lemma_common_steps<A: Arithmetic>(
    ops: &A,
    s: VolObi,
    mid: Double,
    p: Double,
    q: Double,
    x: QuoteSteps,
    y: QuoteSteps,
)
    requires
        arithmetic::is_repeatable(ops),
        arithmetic::spreads_nan(ops),
        arithmetic::keeps_sign(ops),
        vol_obi::quotes_by(ops, s, mid, p, x),
        vol_obi::quotes_by(ops, s, mid, q, y),
        s.config.tick_size.is_positive(),
        s.config.vol_to_half_spread.is_non_negative(),
        s.volatility.is_non_negative(),
    ensures
        x.half_spread_tick.alike(y.half_spread_tick),
        x.half_spread_tick.is_nan_spec() || x.half_spread_tick.is_non_negative(),
        x.fair_price.alike(y.fair_price),
        Double::zero().below(s.config.min_half_spread_bps) ==> x.min_bid.alike(y.min_bid)
            && x.min_ask.alike(y.min_ask),
{
    assert(x.half_spread_price.alike(y.half_spread_price));
    if !x.half_spread_price.is_nan_spec() {
        assert(x.half_spread_price.is_non_negative());
    }
}

proof fn lemma_bids_are_ordered<A: Arithmetic>(
    ops: &A,
    s: VolObi,
    mid: Double,
    p: Double,
    q: Double,
    x: QuoteSteps,
    y: QuoteSteps,
)
    requires
        arithmetic::spreads_nan(ops),
        arithmetic::keeps_order(ops),
        arithmetic::keeps_sign(ops),
        vol_obi::quotes_by(ops, s, mid, p, x),
        vol_obi::quotes_by(ops, s, mid, q, y),
        s.config.tick_size.is_positive(),
        x.half_spread_tick.alike(y.half_spread_tick),
        x.half_spread_tick.is_nan_spec() || x.half_spread_tick.is_non_negative(),
        x.fair_price.alike(y.fair_price),
        Double::zero().below(s.config.min_half_spread_bps) ==> x.min_bid.alike(y.min_bid),
        y.bid_factor.at_least(x.bid_factor),
        !x.bid.is_nan_spec(),
        !y.bid.is_nan_spec(),
    ensures
        x.bid.at_least(y.bid),
{
    let c = s.config;
    let zero = Double::zero();
    assert(y.bid_depth.larger(zero).at_least(x.bid_depth.larger(zero)));
    assert(!x.bid_offset.is_nan_spec() && !y.bid_offset.is_nan_spec());
    assert(y.bid_offset.at_least(x.bid_offset));
    assert(!x.bid_whole.is_nan_spec() && !y.bid_whole.is_nan_spec());
    assert(!x.bid_ticks.is_nan_spec() && !y.bid_ticks.is_nan_spec());
    assert(!x.floored_bid(c).is_nan_spec() && !y.floored_bid(c).is_nan_spec());
    assert(!x.raw_bid.is_nan_spec() && !y.raw_bid.is_nan_spec());
    assert(x.raw_bid.at_least(y.raw_bid));
    assert(x.floored_bid(c).at_least(y.floored_bid(c)));
    assert(x.bid_ticks.at_least(y.bid_ticks));
    assert(x.bid_whole.at_least(y.bid_whole));
}

proof fn lemma_asks_are_ordered<A: Arithmetic>(
    ops: &A,
    s: VolObi,
    mid: Double,
    p: Double,
    q: Double,
    x: QuoteSteps,
    y: QuoteSteps,
)
    requires
        arithmetic::spreads_nan(ops),
        arithmetic::keeps_order(ops),
        arithmetic::keeps_sign(ops),
        vol_obi::quotes_by(ops, s, mid, p, x),
        vol_obi::quotes_by(ops, s, mid, q, y),
        s.config.tick_size.is_positive(),
        x.half_spread_tick.alike(y.half_spread_tick),
        x.half_spread_tick.is_nan_spec() || x.half_spread_tick.is_non_negative(),
        x.fair_price.alike(y.fair_price),
        Double::zero().below(s.config.min_half_spread_bps) ==> x.min_ask.alike(y.min_ask),
        x.ask_factor.at_least(y.ask_factor),
        !x.ask.is_nan_spec(),
        !y.ask.is_nan_spec(),
    ensures
        x.ask.at_least(y.ask),
{
    let c = s.config;
    let zero = Double::zero();
    assert(x.ask_depth.larger(zero).at_least(y.ask_depth.larger(zero)));
    assert(!x.ask_offset.is_nan_spec() && !y.ask_offset.is_nan_spec());
    assert(x.ask_offset.at_least(y.ask_offset));
    assert(!x.ask_whole.is_nan_spec() && !y.ask_whole.is_nan_spec());
    assert(!x.ask_ticks.is_nan_spec() && !y.ask_ticks.is_nan_spec());
    assert(!x.floored_ask(c).is_nan_spec() && !y.floored_ask(c).is_nan_spec());
    assert(!x.raw_ask.is_nan_spec() && !y.raw_ask.is_nan_spec());
    assert(x.raw_ask.at_least(y.raw_ask));
    assert(x.floored_ask(c).at_least(y.floored_ask(c)));
    assert(x.ask_ticks.at_least(y.ask_ticks));
    assert(x.ask_whole.at_least(y.ask_whole));
}

/// What is kept of the changes of the mid-price.
spec fn is_sound(s: VolObi) -> bool {
    &&& 0 < s.mid_stats.capacity <= usize::MAX
    &&& s.mid_stats.window.len() <= s.mid_stats.capacity
    &&& s.mid_stats.deviation.is_non_negative()
    &&& s.volatility.is_non_negative()
}

/// The volatility of a calculator is never negative and never not-a-number,
/// whatever it is fed, with an arithmetic that keeps the sign of numbers.
pub proof fn law_volatility_is_never_negative<A: Arithmetic>(
    ops: &A,
    with: Settings,
    calls: Seq<Call>,
    states: Seq<VolObi>,
    i: int,
)
    requires
        arithmetic::keeps_sign(ops),
        arithmetic::keeps_proportion(ops),
        with.step_ns > 0,
        0 < with.window_steps <= usize::MAX,
        vol_obi::is_new(ops, with, states[0]),
        call_run(ops, states, calls),
        0 <= i < states.len(),
    ensures
        states[i].volatility.is_non_negative(),
{
    let scale = states[0].config.vol_scale;
    let (step, per_second) = choose|step: Double, per_second: Double|
        #[trigger] arithmetic::is_number_of(ops, with.step_ns, step)
            && #[trigger] arithmetic::is_quotient(
            ops,
            Double::nanos_per_second(),
            step,
            per_second,
        ) && arithmetic::is_root(ops, per_second, scale);
    assert(per_second.is_positive());
    assert(scale.is_positive());
    lemma_states_are_sound(ops, calls, states, i);
}

proof fn lemma_states_are_sound<A: Arithmetic>(
    ops: &A,
    calls: Seq<Call>,
    states: Seq<VolObi>,
    i: int,
)
    requires
        arithmetic::keeps_sign(ops),
        is_sound(states[0]),
        states[0].config.vol_scale.is_positive(),
        call_run(ops, states, calls),
        0 <= i < states.len(),
    ensures
        is_sound(states[i]),
    decreases i,
{
    if i > 0 {
        lemma_states_are_sound(ops, calls, states, i - 1);
        law_calls_keep_parameters(ops, calls, states, i - 1);
        let s = states[i - 1];
        let t = states[i];
        assert(leads(ops, s, calls[i - 1], t));
        if let Call::Update { mid_price, bids, asks } = calls[i - 1] {
            let (c, j) = choose|c: Double, j: Double|
                vol_obi::updates_by(ops, s, mid_price, bids, asks, c, j, t);
            assert(vol_obi::updates_by(ops, s, mid_price, bids, asks, c, j, t));
            if s.prev_mid is Some {
                rolling_stats::law_push_slides_window(ops, s.mid_stats, c, t.mid_stats);
                rolling_stats::law_deviation_is_never_negative(ops, s.mid_stats, c, t.mid_stats);
            }
        }
    }
}

/// A mid-price with the book it was taken from.
pub struct Book {
    pub mid_price: Double,
    pub bids: Map<i64, Level>,
    pub asks: Map<i64, Level>,
}

/// The books that calls feed to a calculator, in order.
pub open spec fn books_in(calls: Seq<Call>) -> Seq<Book>
    decreases calls.len(),
{
    if calls.len() == 0 {
        Seq::empty()
    } else {
        match calls.last() {
            Call::Update { mid_price, bids, asks } => books_in(calls.drop_last()).push(
                Book { mid_price, bids, asks },
            ),
            _ => books_in(calls.drop_last()),
        }
    }
}

/// No call is a reset.
pub open spec fn no_reset(calls: Seq<Call>) -> bool {
    forall|i: int| 0 <= i < calls.len() ==> !((#[trigger] calls[i]) is Reset)
}

/// What a calculator gathers from books.
pub struct Gathered {
    /// The changes of the mid-price from one book to the next.
    pub changes: Seq<Double>,
    /// The imbalance of each book.
    pub imbalances: Seq<Double>,
    /// What the window of changes went through.
    pub change_stats: Seq<Stats>,
    /// What the window of imbalances went through.
    pub imbalance_stats: Seq<Stats>,
}

/// `g` is what `s` has gathered from books.
pub open spec fn gathers<A: Arithmetic>(
    ops: &A,
    window_steps: nat,
    books: Seq<Book>,
    s: VolObi,
    g: Gathered,
) -> bool {
    &&& g.imbalances.len() == books.len()
    &&& g.changes.len() == if books.len() == 0 {
        0
    } else {
        books.len() - 1
    }
    &&& forall|i: int|
        0 <= i < g.changes.len() ==> arithmetic::is_difference(
            ops,
            books[i + 1].mid_price,
            books[i].mid_price,
            #[trigger] g.changes[i],
        )
    &&& forall|i: int|
        0 <= i < books.len() ==> imbalance::is_imbalance(
            ops,
            (#[trigger] books[i]).bids,
            books[i].asks,
            books[i].mid_price,
            s.config.looking_depth,
            g.imbalances[i],
        )
    &&& rolling_stats::push_run(ops, g.change_stats, g.changes)
    &&& g.change_stats[0] == Stats::empty(window_steps)
    &&& g.change_stats.last() == s.mid_stats
    &&& rolling_stats::push_run(ops, g.imbalance_stats, g.imbalances)
    &&& g.imbalance_stats[0] == Stats::empty(window_steps)
    &&& g.imbalance_stats.last() == s.imb_stats
    &&& s.total_samples == g.changes.len()
    &&& s.prev_mid == if books.len() == 0 {
        None
    } else {
        Some(books.last().mid_price)
    }
}

/// The last call is a book update.
pub open spec fn ends_in_update(calls: Seq<Call>) -> bool {
    calls.len() > 0 && calls.last() is Update
}

/// Volatility and alpha of `s` follow from what it has gathered, where that is
/// enough.
pub open spec fn shows<A: Arithmetic>(ops: &A, s: VolObi, g: Gathered) -> bool {
    g.changes.len() >= s.config.min_warmup_samples ==> {
        &&& s.warmed_up
        &&& arithmetic::is_product(ops, s.mid_stats.deviation, s.config.vol_scale, s.volatility)
        &&& match s.alpha_override {
            Some(alpha) => s.alpha == alpha,
            None => rolling_stats::is_zscore(ops, s.imb_stats, g.imbalances.last(), s.alpha),
        }
    }
}

proof fn lemma_calculator_gathers<A: Arithmetic>(
    ops: &A,
    window_steps: nat,
    calls: Seq<Call>,
    states: Seq<VolObi>,
) -> (g: Gathered)
    requires
        call_run(ops, states, calls),
        no_reset(calls),
        states[0] == VolObi::fresh(window_steps, states[0].config),
    ensures
        gathers(ops, window_steps, books_in(calls), states.last(), g),
        ends_in_update(calls) ==> shows(ops, states.last(), g),
    decreases calls.len(),
{
    if calls.len() == 0 {
        Gathered {
            changes: Seq::empty(),
            imbalances: Seq::empty(),
            change_stats: seq![Stats::empty(window_steps)],
            imbalance_stats: seq![Stats::empty(window_steps)],
        }
    } else {
        let n = calls.len() - 1;
        let before = calls.drop_last();
        assert forall|i: int| #![trigger before[i]] 0 <= i < before.len() implies leads(
            ops,
            states.drop_last()[i],
            before[i],
            states.drop_last()[i + 1],
        ) && !(before[i] is Reset) by {
            assert(before[i] == calls[i]);
        }
        let old = lemma_calculator_gathers(ops, window_steps, before, states.drop_last());
        let s = states[n];
        let t = states.last();
        assert(states.drop_last().last() == s);
        assert(leads(ops, s, calls[n], t));
        assert(!(calls[n] is Reset));
        let books = books_in(before);
        if let Call::Update { mid_price, bids, asks } = calls[n] {
            let (c, j) = choose|c: Double, j: Double|
                vol_obi::updates_by(ops, s, mid_price, bids, asks, c, j, t);
            assert(vol_obi::updates_by(ops, s, mid_price, bids, asks, c, j, t));
            let more = books.push(Book { mid_price, bids, asks });
            assert(books_in(calls) == more);
            rolling_stats::lemma_run_grows(ops, old.imbalance_stats, old.imbalances, j, t.imb_stats);
            let g = if books.len() == 0 {
                Gathered {
                    imbalances: old.imbalances.push(j),
                    imbalance_stats: old.imbalance_stats.push(t.imb_stats),
                    ..old
                }
            } else {
                rolling_stats::lemma_run_grows(ops, old.change_stats, old.changes, c, t.mid_stats);
                Gathered {
                    changes: old.changes.push(c),
                    imbalances: old.imbalances.push(j),
                    change_stats: old.change_stats.push(t.mid_stats),
                    imbalance_stats: old.imbalance_stats.push(t.imb_stats),
                }
            };
            assert forall|i: int| 0 <= i < g.changes.len() implies arithmetic::is_difference(
                ops,
                more[i + 1].mid_price,
                more[i].mid_price,
                #[trigger] g.changes[i],
            ) by {
                if i < old.changes.len() {
                    assert(g.changes[i] == old.changes[i]);
                }
            }
            assert forall|i: int| 0 <= i < more.len() implies imbalance::is_imbalance(
                ops,
                (#[trigger] more[i]).bids,
                more[i].asks,
                more[i].mid_price,
                t.config.looking_depth,
                g.imbalances[i],
            ) by {
                if i < books.len() {
                    assert(more[i] == books[i]);
                }
            }
            g
        } else {
            old
        }
    }
}

/// Since it was made or reset, a calculator has gathered the changes of the
/// mid-price from book to book and the imbalance of every book; its windows hold
/// the latest of these, as many as fit. After a book update with enough samples
/// the volatility is the deviation of that window of changes, scaled, and alpha
/// is the override, where one is set, else the z-score of this book's imbalance
/// in that window of imbalances.
pub proof fn law_windows_hold_latest_books<A: Arithmetic>(
    ops: &A,
    window_steps: nat,
    calls: Seq<Call>,
    states: Seq<VolObi>,
)
    requires
        call_run(ops, states, calls),
        no_reset(calls),
        0 < window_steps,
        states[0] == VolObi::fresh(window_steps, states[0].config),
    ensures
        exists|g: Gathered|
            {
                &&& #[trigger] gathers(ops, window_steps, books_in(calls), states.last(), g)
                &&& states.last().mid_stats.window == rolling_stats::last_of(
                    g.changes,
                    window_steps,
                )
                &&& states.last().imb_stats.window == rolling_stats::last_of(
                    g.imbalances,
                    window_steps,
                )
                &&& ends_in_update(calls) ==> shows(ops, states.last(), g)
            },
{
    let g = lemma_calculator_gathers(ops, window_steps, calls, states);
    rolling_stats::law_window_is_tail_of_stream(ops, g.change_stats, g.changes, window_steps);
    rolling_stats::law_window_is_tail_of_stream(
        ops,
        g.imbalance_stats,
        g.imbalances,
        window_steps,
    );
}

/// The scale of a volatility, where no operation rounds, is the root of the
/// number of steps in a second.
pub proof fn law_scale_is_root_of_steps_per_second<A: Arithmetic>(
    ops: &A,
    v: spec_fn(Double) -> real,
    step_ns: u64,
    step: Double,
    per_second: Double,
    scale: Double,
)
    requires
        arithmetic::is_number_of(ops, step_ns, step),
        v(step) == (step_ns as int) as real,
        v(Double::nanos_per_second()) == 1_000_000_000 as real,
        arithmetic::is_quotient(ops, Double::nanos_per_second(), step, per_second),
        v(per_second) * v(step) == v(Double::nanos_per_second()),
        arithmetic::is_root(ops, per_second, scale),
        v(scale) * v(scale) == v(per_second),
    ensures
        vol_obi::is_vol_scale(ops, step_ns, scale),
        v(scale) * v(scale) * ((step_ns as int) as real) == 1_000_000_000 as real,
{
}

/// The operations that give volatility and alpha after a book update are exact.
pub open spec fn readings_are_exact<A: Arithmetic>(
    ops: &A,
    v: spec_fn(Double) -> real,
    s: VolObi,
    g: Gathered,
) -> bool {
    &&& v(Double::zero()) == 0 as real
    &&& exact_stats::exact_run(ops, v, g.change_stats, g.changes)
    &&& exact_stats::exact_run(ops, v, g.imbalance_stats, g.imbalances)
    &&& v(s.volatility) == v(s.mid_stats.deviation) * v(s.config.vol_scale)
    &&& forall|gap: Double|
        #![trigger arithmetic::is_difference(ops, g.imbalances.last(), s.imb_stats.mean, gap)]
        arithmetic::is_difference(ops, g.imbalances.last(), s.imb_stats.mean, gap)
            && arithmetic::is_quotient(ops, gap, s.imb_stats.deviation, s.alpha) ==> v(gap) == v(
            g.imbalances.last(),
        ) - v(s.imb_stats.mean) && v(s.alpha) * v(s.imb_stats.deviation) == v(gap)
}

/// Where no operation rounds, the volatility after a book update with enough
/// samples is the population standard deviation of the latest changes of the
/// mid-price, as many as the window holds, times the scale that the calculator
/// was made with. Without an override alpha is how many standard deviations of the
/// latest imbalances this book's imbalance lies from their mean, zero where they
/// hardly deviate.
pub proof fn law_readings_are_those_of_latest_books<A: Arithmetic>(
    ops: &A,
    v: spec_fn(Double) -> real,
    window_steps: nat,
    books: Seq<Book>,
    s: VolObi,
    g: Gathered,
)
    requires
        0 < window_steps,
        gathers(ops, window_steps, books, s, g),
        shows(ops, s, g),
        g.changes.len() >= s.config.min_warmup_samples,
        readings_are_exact(ops, v, s, g),
    ensures
        exact_stats::is_mean_and_deviation(
            v,
            rolling_stats::last_of(g.changes, window_steps),
            v(s.mid_stats.mean),
            v(s.mid_stats.deviation),
        ),
        v(s.volatility) == v(s.mid_stats.deviation) * v(s.config.vol_scale),
        exact_stats::is_mean_and_deviation(
            v,
            rolling_stats::last_of(g.imbalances, window_steps),
            v(s.imb_stats.mean),
            v(s.imb_stats.deviation),
        ),
        s.alpha_override is None ==> if s.imb_stats.deviation.below(Double::tiny()) {
            v(s.alpha) == 0 as real
        } else {
            v(s.alpha) * v(s.imb_stats.deviation) == v(g.imbalances.last()) - v(s.imb_stats.mean)
        },
        s.alpha_override matches Some(alpha) ==> s.alpha == alpha,
{
    exact_stats::law_statistics_are_those_of_window(
        ops,
        v,
        g.change_stats,
        g.changes,
        window_steps,
    );
    exact_stats::law_statistics_are_those_of_window(
        ops,
        v,
        g.imbalance_stats,
        g.imbalances,
        window_steps,
    );
}

} // verus!
