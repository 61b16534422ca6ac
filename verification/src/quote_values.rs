//! Quotes as real numbers, where the arithmetic does not round.
use crate::arithmetic;
use crate::arithmetic::Arithmetic;
use crate::double::Double;
use crate::imbalance;
use crate::orderbook::BookSide;
use crate::rolling_stats;
use crate::values;
use crate::vol_obi;
use crate::vol_obi::{QuoteSteps, VolObi, VolObiCalculator, VolObiConfig};
use vstd::prelude::*;

verus! {

/// `share` is the worth of a position as a share of the limit, held between -1
/// and 1; without a positive limit it is zero.
pub open spec fn is_share(position: real, mid: real, limit: real, share: real) -> bool {
    if limit > 0 as real {
        exists|ratio: real|
            #[trigger] is_ratio(position * mid, limit, ratio) && share == values::clamped_real(
                ratio,
                0 as real - 1 as real,
                1 as real,
            )
    } else {
        share == 0 as real
    }
}

/// `ratio` is `a` over `b`.
pub open spec fn is_ratio(a: real, b: real, ratio: real) -> bool {
    ratio * b == a
}

/// The price without a spread: the mid-price, moved by alpha.
pub open spec fn fair(mid: real, c1: real, alpha: real) -> real {
    mid + c1 * alpha
}

/// The bid before it is snapped to the grid: the half-spread, stretched by the
/// skew, below the fair price, and at least the floor below the mid-price.
pub open spec fn bid_target(
    mid: real,
    fair: real,
    half_spread: real,
    lean: real,
    floor_bps: real,
) -> real {
    let open = fair - values::larger_real(half_spread * (1 as real + lean), 0 as real);
    if floor_bps > 0 as real {
        values::smaller_real(open, mid - mid * floor_bps / 10_000 as real)
    } else {
        open
    }
}

/// The ask before it is snapped to the grid.
pub open spec fn ask_target(
    mid: real,
    fair: real,
    half_spread: real,
    lean: real,
    floor_bps: real,
) -> real {
    let open = fair + values::larger_real(half_spread * (1 as real - lean), 0 as real);
    if floor_bps > 0 as real {
        values::larger_real(open, mid + mid * floor_bps / 10_000 as real)
    } else {
        open
    }
}

/// `r` is the highest multiple of the tick that is not above `x`.
pub open spec fn is_grid_below(tick: real, x: real, r: real) -> bool {
    &&& exists|k: int| r == #[trigger] values::whole(k) * tick
    &&& r <= x < r + tick
}

/// `r` is the lowest multiple of the tick that is not below `x`.
pub open spec fn is_grid_above(tick: real, x: real, r: real) -> bool {
    &&& exists|k: int| r == #[trigger] values::whole(k) * tick
    &&& r - tick < x <= r
}

/// All numbers that a quote is computed from are finite, and the tick is
/// positive.
pub open spec fn is_finite_calculator(s: VolObi) -> bool {
    &&& values::finite(s.volatility) && values::finite(s.alpha)
    &&& values::finite(s.config.tick_size) && values::value(s.config.tick_size) > 0 as real
    &&& values::finite(s.config.vol_to_half_spread) && values::finite(s.config.min_half_spread_bps)
    &&& values::finite(s.config.c1) && values::finite(s.config.skew)
    &&& values::finite(s.config.max_position_dollar)
}

/// What a position enters a quote as.
proof fn lemma_share<A: Arithmetic>(
    ops: &A,
    s: VolObi,
    mid: Double,
    position: Double,
    w: QuoteSteps,
)
    requires
        values::is_exact(ops),
        is_finite_calculator(s),
        values::finite(mid) && values::finite(position),
        vol_obi::quotes_by(ops, s, mid, position, w),
    ensures
        values::finite(w.norm_pos(s.config)),
        is_share(
            values::value(position),
            values::value(mid),
            values::value(s.config.max_position_dollar),
            values::value(w.norm_pos(s.config)),
        ),
{
    values::law_named_numbers_have_their_values();
    let limit = s.config.max_position_dollar;
    values::law_order_is_that_of_values(Double::zero(), limit);
    if values::value(limit) > 0 as real {
        values::law_choices_are_those_of_values(w.load, Double::minus_one(), Double::one());
        assert(is_ratio(
            values::value(position) * values::value(mid),
            values::value(limit),
            values::value(w.load),
        ));
    }
}

/// A depth in ticks, cut at zero and turned back into money.
proof fn lemma_depth(ticks: real, factor: real, tick: real, price: real)
    requires
        tick > 0 as real,
        ticks * tick == price,
    ensures
        values::larger_real(ticks * factor, 0 as real) * tick == values::larger_real(
            price * factor,
            0 as real,
        ),
{
    let p = ticks * factor;
    values::lemma_associate(ticks, factor, tick);
    assert(p * tick == price * factor);
    values::lemma_product_sign(p, tick);
    values::lemma_product_sign(0 as real, tick);
}

/// The bid and the ask before they are snapped.
proof fn lemma_targets<A: Arithmetic>(
    ops: &A,
    s: VolObi,
    mid: Double,
    position: Double,
    w: QuoteSteps,
)
    requires
        values::is_exact(ops),
        is_finite_calculator(s),
        values::finite(mid) && values::finite(position),
        vol_obi::quotes_by(ops, s, mid, position, w),
    ensures
        values::finite(w.floored_bid(s.config)) && values::finite(w.floored_ask(s.config)),
        values::value(w.floored_bid(s.config)) == bid_target(
            values::value(mid),
            fair(values::value(mid), values::value(s.config.c1), values::value(s.alpha)),
            values::value(s.volatility) * values::value(s.config.vol_to_half_spread),
            values::value(s.config.skew) * values::value(w.norm_pos(s.config)),
            values::value(s.config.min_half_spread_bps),
        ),
        values::value(w.floored_ask(s.config)) == ask_target(
            values::value(mid),
            fair(values::value(mid), values::value(s.config.c1), values::value(s.alpha)),
            values::value(s.volatility) * values::value(s.config.vol_to_half_spread),
            values::value(s.config.skew) * values::value(w.norm_pos(s.config)),
            values::value(s.config.min_half_spread_bps),
        ),
{
    values::law_named_numbers_have_their_values();
    lemma_share(ops, s, mid, position, w);
    let c = s.config;
    let zero = Double::zero();
    let t = values::value(c.tick_size);
    let m = values::value(mid);
    values::law_choices_are_those_of_values(w.bid_depth, zero, zero);
    values::law_choices_are_those_of_values(w.ask_depth, zero, zero);
    lemma_depth(
        values::value(w.half_spread_tick),
        values::value(w.bid_factor),
        t,
        values::value(w.half_spread_price),
    );
    lemma_depth(
        values::value(w.half_spread_tick),
        values::value(w.ask_factor),
        t,
        values::value(w.half_spread_price),
    );
    values::law_order_is_that_of_values(zero, c.min_half_spread_bps);
    if values::value(c.min_half_spread_bps) > 0 as real {
        let bf = values::value(w.bid_floor);
        let af = values::value(w.ask_floor);
        let bps = values::value(c.min_half_spread_bps);
        let n = 10_000 as real;
        values::lemma_distribute(m, 1 as real, bf);
        values::lemma_distribute(m, 1 as real, af);
        values::lemma_associate(m, bf, n);
        values::lemma_associate(m, af, n);
        values::lemma_distribute(m, bf * n, bf * n);
        assert(m * (1 as real) == m) by (nonlinear_arith);
        assert((m * bf) * n == m * bps);
        assert((m * af) * n == m * bps);
        assert(m * bps / n == m * bf);
        assert(m * bps / n == m * af);
        values::law_order_is_that_of_values(w.min_bid, w.raw_bid);
        values::law_order_is_that_of_values(w.raw_ask, w.min_ask);
    }
}

proof fn lemma_snap(x: real, tick: real, ticks: real, k: real)
    requires
        tick > 0 as real,
        ticks * tick == x,
    ensures
        values::is_floor_of(ticks, k) ==> is_grid_below(tick, x, k * tick),
        values::is_ceiling_of(ticks, k) ==> is_grid_above(tick, x, k * tick),
{
    values::lemma_distribute(tick, k, 1 as real);
    assert((1 as real) * tick == tick) by (nonlinear_arith);
    values::lemma_scaled_order(k, ticks, tick);
    values::lemma_scaled_order(ticks, k + 1 as real, tick);
    values::lemma_scaled_order(ticks, k, tick);
    values::lemma_scaled_order(k - 1 as real, ticks, tick);
    if values::is_whole(k) {
        let n = choose|n: int| k == #[trigger] values::whole(n);
        assert(k * tick == values::whole(n) * tick);
    }
}

/// `bid` and `ask` stand on the grid about the fair price.
pub open spec fn is_spread(
    s: VolObi,
    mid: real,
    position: real,
    share: real,
    bid: real,
    ask: real,
) -> bool {
    let f = fair(mid, values::value(s.config.c1), values::value(s.alpha));
    let half = values::value(s.volatility) * values::value(s.config.vol_to_half_spread);
    let lean = values::value(s.config.skew) * share;
    let bps = values::value(s.config.min_half_spread_bps);
    let tick = values::value(s.config.tick_size);
    &&& is_share(position, mid, values::value(s.config.max_position_dollar), share)
    &&& is_grid_below(tick, bid_target(mid, f, half, lean, bps), bid)
    &&& is_grid_above(tick, ask_target(mid, f, half, lean, bps), ask)
}

/// What is quoted, where the arithmetic does not round. The half-spread is the
/// volatility times `vol_to_half_spread`. The bid stands that much below the fair
/// price, stretched by one plus the skewed share of the position, the ask as much
/// above it, shrunk by the same; neither depth is negative, and a floor in basis
/// points keeps both away from the mid-price. The bid is then the next multiple
/// of the tick downwards, the ask the next upwards. There is no quote before
/// warm-up, nor where the bid would reach the ask.
pub proof fn law_quote_is_spread_about_fair_price<A: Arithmetic>(
    ops: &A,
    calc: &VolObiCalculator,
    mid: Double,
    position: Double,
    q: Option<(Double, Double)>,
)
    requires
        call_ensures(VolObiCalculator::quote::<A>, (calc, ops, mid, position), q),
        calc@.warmed_up ==> values::is_exact(ops) && is_finite_calculator(calc@),
        values::finite(mid) && values::finite(position),
    ensures
        !calc@.warmed_up ==> q is None,
        calc@.warmed_up ==> exists|share: real, bid: real, ask: real| #[trigger]
            is_spread(
                calc@,
                values::value(mid),
                values::value(position),
                share,
                bid,
                ask,
            ) && (bid >= ask <==> q is None) && (q matches Some(p) ==> values::value(p.0) == bid
                && values::value(p.1) == ask),
{
    if calc@.warmed_up {
        let s = calc@;
        let w = choose|w: QuoteSteps| #[trigger]
            vol_obi::quotes_by(ops, s, mid, position, w) && q == if w.bid.at_least(w.ask) {
                None
            } else {
                Some((w.bid, w.ask))
            };
        lemma_share(ops, s, mid, position, w);
        lemma_targets(ops, s, mid, position, w);
        let tick = values::value(s.config.tick_size);
        lemma_snap(
            values::value(w.floored_bid(s.config)),
            tick,
            values::value(w.bid_ticks),
            values::value(w.bid_whole),
        );
        lemma_snap(
            values::value(w.floored_ask(s.config)),
            tick,
            values::value(w.ask_ticks),
            values::value(w.ask_whole),
        );
        values::law_order_is_that_of_values(w.bid, w.ask);
        assert(is_spread(
            s,
            values::value(mid),
            values::value(position),
            values::value(w.norm_pos(s.config)),
            values::value(w.bid),
            values::value(w.ask),
        ));
    }
}

/// Twice the `vol_to_half_spread` is twice the half-spread: with no floor, the
/// targets lie twice as far from the fair price on both sides.
pub proof fn law_targets_scale_with_half_spread(mid: real, fair: real, half: real, lean: real)
    ensures
        fair - bid_target(mid, fair, half + half, lean, 0 as real) == (fair - bid_target(
            mid,
            fair,
            half,
            lean,
            0 as real,
        )) + (fair - bid_target(mid, fair, half, lean, 0 as real)),
        ask_target(mid, fair, half + half, lean, 0 as real) - fair == (ask_target(
            mid,
            fair,
            half,
            lean,
            0 as real,
        ) - fair) + (ask_target(mid, fair, half, lean, 0 as real) - fair),
{
    values::lemma_distribute(1 as real + lean, half, half);
    values::lemma_distribute(1 as real - lean, half, half);
}

/// A new calculator has the parameters that it was asked for. The scale of its
/// volatility squared, times the length of a step, is one second; the price move
/// per unit of alpha is `c1` where that is positive, else `c1_ticks` ticks.
pub proof fn law_new_calculator_is_as_asked<A: Arithmetic>(
    ops: &A,
    tick_size: Double,
    window_steps: usize,
    step_ns: u64,
    vol_to_half_spread: Double,
    min_half_spread_bps: Double,
    c1_ticks: Double,
    c1: Double,
    skew: Double,
    looking_depth: Double,
    min_warmup_samples: u64,
    max_position_dollar: Double,
    r: VolObiCalculator,
)
    requires
        Double::zero().below(tick_size),
        window_steps > 0,
        call_ensures(
            VolObiCalculator::new::<A>,
            (
                ops,
                tick_size,
                window_steps,
                step_ns,
                vol_to_half_spread,
                min_half_spread_bps,
                c1_ticks,
                c1,
                skew,
                looking_depth,
                min_warmup_samples,
                max_position_dollar,
            ),
            r,
        ),
    ensures
        r@.config.tick_size == tick_size,
        r@.config.vol_to_half_spread == vol_to_half_spread,
        r@.config.min_half_spread_bps == min_half_spread_bps,
        r@.config.skew == skew,
        r@.config.looking_depth == looking_depth,
        r@.config.min_warmup_samples == min_warmup_samples,
        r@.config.max_position_dollar == max_position_dollar,
        r@.mid_stats.capacity == window_steps && r@.imb_stats.capacity == window_steps,
        r@.mid_stats.window.len() == 0 && r@.imb_stats.window.len() == 0,
        r@.prev_mid is None && r@.alpha_override is None,
        !r@.warmed_up && r@.total_samples == 0,
        r@.volatility == Double::zero() && r@.alpha == Double::zero(),
        Double::zero().below(c1) ==> r@.config.c1 == c1,
        values::is_exact(ops) && step_ns > 0 ==> values::value(r@.config.vol_scale) * values::value(
            r@.config.vol_scale,
        ) * values::whole(step_ns as int) == 1_000_000_000 as real && values::value(
            r@.config.vol_scale,
        ) >= 0 as real,
        values::is_exact(ops) && !Double::zero().below(c1) && values::finite(c1_ticks)
            && values::finite(tick_size) ==> values::value(r@.config.c1) == values::value(c1_ticks)
            * values::value(tick_size),
{
    if values::is_exact(ops) && step_ns > 0 {
        values::law_named_numbers_have_their_values();
        let scale = r@.config.vol_scale;
        let (step, per_second) = choose|step: Double, per_second: Double|
            #[trigger] arithmetic::is_number_of(ops, step_ns, step)
                && #[trigger] arithmetic::is_quotient(
                ops,
                Double::nanos_per_second(),
                step,
                per_second,
            ) && arithmetic::is_root(ops, per_second, scale);
        assert(values::value(step) == values::whole(step_ns as int));
        assert(values::value(step) > 0 as real);
        values::lemma_product_sign(values::value(per_second), values::value(step));
        assert(values::value(per_second) > 0 as real);
        assert(values::value(scale) * values::value(scale) == values::value(per_second));
    }
}

/// A book update counts one sample for every mid-price but the first, remembers
/// the mid-price, and enters its change and the book's imbalance in the two
/// windows. With enough samples the calculator is warmed up, its volatility is
/// the deviation of the changes times the scale, and alpha is the override or
/// the z-score of this book's imbalance; with fewer nothing is shown yet. The
/// parameters stay.
pub proof fn law_update_feeds_both_windows<A: Arithmetic>(
    ops: &A,
    calc: &mut VolObiCalculator,
    mid: Double,
    bids: &BookSide,
    asks: &BookSide,
)
    requires
        old(calc).wf(),
        bids.wf(),
        asks.wf(),
        old(calc)@.prev_mid is Some ==> old(calc)@.total_samples < u64::MAX,
        call_ensures(VolObiCalculator::on_book_update::<A>, (calc, ops, mid, bids, asks), ()),
    ensures
        final(calc)@.prev_mid == Some(mid),
        final(calc)@.total_samples == old(calc)@.total_samples + if old(calc)@.prev_mid is Some {
            1int
        } else {
            0int
        },
        final(calc)@.config == old(calc)@.config,
        final(calc)@.alpha_override == old(calc)@.alpha_override,
        exists|imbalance: Double|
            {
                &&& #[trigger] imbalance::is_imbalance(
                    ops,
                    bids@,
                    asks@,
                    mid,
                    old(calc)@.config.looking_depth,
                    imbalance,
                )
                &&& rolling_stats::pushes(
                    ops,
                    old(calc)@.imb_stats,
                    imbalance,
                    final(calc)@.imb_stats,
                )
                &&& final(calc)@.total_samples >= old(calc)@.config.min_warmup_samples
                    && old(calc)@.alpha_override is None ==> rolling_stats::is_zscore(
                    ops,
                    final(calc)@.imb_stats,
                    imbalance,
                    final(calc)@.alpha,
                )
            },
        old(calc)@.prev_mid is None ==> final(calc)@.mid_stats == old(calc)@.mid_stats,
        old(calc)@.prev_mid matches Some(prev) ==> exists|change: Double|
            #[trigger] arithmetic::is_difference(ops, mid, prev, change) && rolling_stats::pushes(
                ops,
                old(calc)@.mid_stats,
                change,
                final(calc)@.mid_stats,
            ),
        final(calc)@.total_samples >= old(calc)@.config.min_warmup_samples ==> {
            &&& final(calc)@.warmed_up
            &&& old(calc)@.alpha_override matches Some(alpha) ==> final(calc)@.alpha == alpha
            &&& values::is_exact(ops) && values::finite(final(calc)@.mid_stats.deviation)
                && values::finite(old(calc)@.config.vol_scale) ==> values::value(
                final(calc)@.volatility,
            ) == values::value(final(calc)@.mid_stats.deviation) * values::value(
                old(calc)@.config.vol_scale,
            )
        },
        final(calc)@.total_samples < old(calc)@.config.min_warmup_samples ==> final(calc)@.warmed_up
            == old(calc)@.warmed_up && final(calc)@.volatility == old(calc)@.volatility
            && final(calc)@.alpha == old(calc)@.alpha,
{
    let s = old(calc)@;
    let t = final(calc)@;
    let (c, i) = choose|c: Double, i: Double|
        vol_obi::updates_by(ops, s, mid, bids@, asks@, c, i, t);
    assert(vol_obi::updates_by(ops, s, mid, bids@, asks@, c, i, t));
}

/// The settings that can be changed later change what they name and nothing
/// else; a negative limit counts as none. A reset keeps the parameters alone.
pub proof fn law_setters_change_what_they_name(
    a: &mut VolObiCalculator,
    alpha: Option<Double>,
    b: &mut VolObiCalculator,
    limit: Double,
    c: &mut VolObiCalculator,
)
    requires
        old(a).wf() && old(b).wf() && old(c).wf(),
        call_ensures(VolObiCalculator::set_alpha_override, (a, alpha), ()),
        call_ensures(VolObiCalculator::set_max_position_dollar, (b, limit), ()),
        call_ensures(VolObiCalculator::reset, (c,), ()),
    ensures
        final(a)@ == (VolObi { alpha_override: alpha, ..old(a)@ }),
        final(b)@ == (VolObi {
            config: VolObiConfig {
                max_position_dollar: final(b)@.config.max_position_dollar,
                ..old(b)@.config
            },
            ..old(b)@
        }),
        limit.at_least(Double::zero()) ==> final(b)@.config.max_position_dollar == limit,
        !limit.at_least(Double::zero()) ==> final(b)@.config.max_position_dollar == Double::zero(),
        final(c)@.config == old(c)@.config,
        final(c)@.mid_stats.window.len() == 0 && final(c)@.imb_stats.window.len() == 0,
        final(c)@.mid_stats.capacity == old(c)@.mid_stats.capacity,
        final(c)@.imb_stats.capacity == old(c)@.mid_stats.capacity,
        final(c)@.prev_mid is None && final(c)@.alpha_override is None,
        !final(c)@.warmed_up && final(c)@.total_samples == 0,
        final(c)@.volatility == Double::zero() && final(c)@.alpha == Double::zero(),
{
}

/// What is read off a calculator is what it holds.
pub proof fn law_readings_of_calculator(
    x: &VolObiCalculator,
    warmed_up: bool,
    volatility: Double,
    alpha: Double,
    alpha_override: Option<Double>,
    total_samples: u64,
)
    requires
        call_ensures(VolObiCalculator::warmed_up, (x,), warmed_up),
        call_ensures(VolObiCalculator::volatility, (x,), volatility),
        call_ensures(VolObiCalculator::alpha, (x,), alpha),
        call_ensures(VolObiCalculator::alpha_override, (x,), alpha_override),
        call_ensures(VolObiCalculator::total_samples, (x,), total_samples),
    ensures
        warmed_up == x@.warmed_up,
        volatility == x@.volatility,
        alpha == x@.alpha,
        alpha_override == x@.alpha_override,
        total_samples == x@.total_samples,
{
}

/// What is not a number is not hidden: a warmed-up calculator that is asked about
/// a mid-price, or holds an alpha, that is not a number answers with two prices
/// that are not numbers either.
pub proof fn law_no_number_is_quoted_as_none<A: Arithmetic>(
    ops: &A,
    calc: &VolObiCalculator,
    mid: Double,
    position: Double,
    q: Option<(Double, Double)>,
)
    requires
        call_ensures(VolObiCalculator::quote::<A>, (calc, ops, mid, position), q),
        arithmetic::spreads_nan(ops),
        calc@.warmed_up,
        mid.is_nan_spec() || calc@.alpha.is_nan_spec(),
    ensures
        q matches Some((bid, ask)) && bid.is_nan_spec() && ask.is_nan_spec(),
{
    let s = calc@;
    let w = choose|w: QuoteSteps| #[trigger]
        vol_obi::quotes_by(ops, s, mid, position, w) && q == if w.bid.at_least(w.ask) {
            None
        } else {
            Some((w.bid, w.ask))
        };
    assert(w.fair_price.is_nan_spec());
    assert(w.raw_bid.is_nan_spec() && w.raw_ask.is_nan_spec());
    assert(w.bid.is_nan_spec() && w.ask.is_nan_spec());
}

/// Volatility and `vol_to_half_spread` enter a quote as their product, and alpha
/// and `c1` as theirs, however the arithmetic rounds: calculators that differ in
/// the factors but not in the products have the same quotes. So a calculator with
/// half the volatility and twice the `vol_to_half_spread` quotes as before.
pub proof fn law_factors_enter_quote_as_products<A: Arithmetic>(
    ops: &A,
    s: VolObi,
    t: VolObi,
    mid: Double,
    position: Double,
    q: Option<(Double, Double)>,
)
    requires
        s.warmed_up == t.warmed_up,
        t.config == (VolObiConfig {
            vol_to_half_spread: t.config.vol_to_half_spread,
            c1: t.config.c1,
            ..s.config
        }),
        forall|h: Double| #[trigger]
            arithmetic::is_product(ops, s.volatility, s.config.vol_to_half_spread, h)
                ==> arithmetic::is_product(ops, t.volatility, t.config.vol_to_half_spread, h),
        forall|h: Double| #[trigger]
            arithmetic::is_product(ops, s.config.c1, s.alpha, h) ==> arithmetic::is_product(
                ops,
                t.config.c1,
                t.alpha,
                h,
            ),
        vol_obi::is_quote(ops, s, mid, position, q),
    ensures
        vol_obi::is_quote(ops, t, mid, position, q),
{
    if s.warmed_up {
        let w = choose|w: QuoteSteps| #[trigger]
            vol_obi::quotes_by(ops, s, mid, position, w) && q == if w.bid.at_least(w.ask) {
                None
            } else {
                Some((w.bid, w.ask))
            };
        assert(w.norm_pos(t.config) == w.norm_pos(s.config));
        assert(w.floored_bid(t.config) == w.floored_bid(s.config));
        assert(w.floored_ask(t.config) == w.floored_ask(s.config));
        assert(vol_obi::quotes_by(ops, t, mid, position, w));
    }
}

} // verus!
