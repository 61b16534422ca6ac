//! Quotes from volatility and order book imbalance.
use crate::arithmetic;
use crate::arithmetic::Arithmetic;
use crate::double::Double;
use crate::imbalance;
use crate::orderbook::{BookSide, Level};
use crate::rolling_stats;
use crate::rolling_stats::{RollingStats, Stats};
use vstd::prelude::*;

verus! {

/// What a calculator is set up with.
#[derive(Clone, Copy, Debug, PartialEq, Eq, Structural)]
pub struct VolObiConfig {
    pub tick_size: Double,
    /// What turns a deviation per step into one per second.
    pub vol_scale: Double,
    pub vol_to_half_spread: Double,
    pub min_half_spread_bps: Double,
    pub c1: Double,
    pub skew: Double,
    pub looking_depth: Double,
    pub min_warmup_samples: u64,
    pub max_position_dollar: Double,
}

/// What a [`VolObiCalculator`] holds.
#[verifier::ext_equal]
pub struct VolObi {
    /// The changes of the mid-price.
    pub mid_stats: Stats,
    /// The order book imbalances.
    pub imb_stats: Stats,
    pub prev_mid: Option<Double>,
    pub volatility: Double,
    pub alpha: Double,
    pub alpha_override: Option<Double>,
    pub warmed_up: bool,
    pub total_samples: nat,
    pub config: VolObiConfig,
}

impl VolObi {
    /// The calculator as it was made, with the position limit it has now.
    pub open spec fn after_reset(self) -> VolObi {
        VolObi::fresh(self.mid_stats.capacity, self.config)
    }

    /// The calculator with another position limit; a negative one counts as
    /// none.
    pub open spec fn limited(self, value: Double) -> VolObi {
        VolObi {
            config: VolObiConfig {
                max_position_dollar: value.larger(Double::zero()),
                ..self.config
            },
            ..self
        }
    }

    /// A calculator that has seen nothing.
    pub open spec fn fresh(window_steps: nat, config: VolObiConfig) -> VolObi {
        VolObi {
            mid_stats: Stats::empty(window_steps),
            imb_stats: Stats::empty(window_steps),
            prev_mid: None,
            volatility: Double::zero(),
            alpha: Double::zero(),
            alpha_override: None,
            warmed_up: false,
            total_samples: 0,
            config,
        }
    }
}

/// `scale` is a result of the square root of the number of steps in a second.
pub open spec fn is_vol_scale<A: Arithmetic>(ops: &A, step_ns: u64, scale: Double) -> bool {
    exists|step: Double, per_second: Double|
        #[trigger] arithmetic::is_number_of(ops, step_ns, step) && #[trigger] arithmetic::is_quotient(
            ops,
            Double::nanos_per_second(),
            step,
            per_second,
        ) && arithmetic::is_root(ops, per_second, scale)
}

/// `r` is the price move per unit of alpha: `c1` where it is positive, else
/// `c1_ticks` ticks.
pub open spec fn is_c1<A: Arithmetic>(
    ops: &A,
    tick_size: Double,
    c1_ticks: Double,
    c1: Double,
    r: Double,
) -> bool {
    if Double::zero().below(c1) {
        r == c1
    } else {
        arithmetic::is_product(ops, c1_ticks, tick_size, r)
    }
}

/// What a calculator is made from.
pub struct Settings {
    pub tick_size: Double,
    pub window_steps: nat,
    pub step_ns: u64,
    pub vol_to_half_spread: Double,
    pub min_half_spread_bps: Double,
    pub c1_ticks: Double,
    pub c1: Double,
    pub skew: Double,
    pub looking_depth: Double,
    pub min_warmup_samples: u64,
    pub max_position_dollar: Double,
}

/// `r` is a new calculator.
pub open spec fn is_new<A: Arithmetic>(ops: &A, with: Settings, r: VolObi) -> bool {
    &&& is_vol_scale(ops, with.step_ns, r.config.vol_scale)
    &&& is_c1(ops, with.tick_size, with.c1_ticks, with.c1, r.config.c1)
    &&& r == VolObi::fresh(
        with.window_steps,
        VolObiConfig {
            tick_size: with.tick_size,
            vol_scale: r.config.vol_scale,
            vol_to_half_spread: with.vol_to_half_spread,
            min_half_spread_bps: with.min_half_spread_bps,
            c1: r.config.c1,
            skew: with.skew,
            looking_depth: with.looking_depth,
            min_warmup_samples: with.min_warmup_samples,
            max_position_dollar: with.max_position_dollar,
        },
    )
}

/// `t` is `s` after a book update, in which the mid-price moved by `change` and
/// the imbalance was `imbalance`.
pub open spec fn updates_by<A: Arithmetic>(
    ops: &A,
    s: VolObi,
    mid_price: Double,
    bids: Map<i64, Level>,
    asks: Map<i64, Level>,
    change: Double,
    imbalance: Double,
    t: VolObi,
) -> bool {
    // The mid-price change
    &&& match s.prev_mid {
        Some(prev) => {
            &&& arithmetic::is_difference(ops, mid_price, prev, change)
            &&& rolling_stats::pushes(ops, s.mid_stats, change, t.mid_stats)
            &&& t.total_samples == s.total_samples + 1
        },
        None => t.mid_stats == s.mid_stats && t.total_samples == s.total_samples,
    }
    &&& t.prev_mid == Some(mid_price)
    // The imbalance
    &&& imbalance::is_imbalance(ops, bids, asks, mid_price, s.config.looking_depth, imbalance)
    &&& rolling_stats::pushes(ops, s.imb_stats, imbalance, t.imb_stats)
    // Volatility and alpha, once there are enough samples
    &&& if t.total_samples >= s.config.min_warmup_samples {
        &&& t.warmed_up
        &&& arithmetic::is_product(ops, t.mid_stats.deviation, s.config.vol_scale, t.volatility)
        &&& match s.alpha_override {
            Some(alpha) => t.alpha == alpha,
            None => rolling_stats::is_zscore(ops, t.imb_stats, imbalance, t.alpha),
        }
    } else {
        t.warmed_up == s.warmed_up && t.volatility == s.volatility && t.alpha == s.alpha
    }
    &&& t.alpha_override == s.alpha_override
    &&& t.config == s.config
}

/// `t` is `s` after a book update.
pub open spec fn updates<A: Arithmetic>(
    ops: &A,
    s: VolObi,
    mid_price: Double,
    bids: Map<i64, Level>,
    asks: Map<i64, Level>,
    t: VolObi,
) -> bool {
    exists|change: Double, imbalance: Double|
        updates_by(ops, s, mid_price, bids, asks, change, imbalance, t)
}

/// The numbers that are computed on the way to a quote.
pub struct QuoteSteps {
    pub half_spread_price: Double,
    pub half_spread_tick: Double,
    pub shift: Double,
    pub fair_price: Double,
    pub exposure: Double,
    pub load: Double,
    pub bid_lean: Double,
    pub bid_factor: Double,
    pub bid_depth: Double,
    pub ask_lean: Double,
    pub ask_factor: Double,
    pub ask_depth: Double,
    pub bid_offset: Double,
    pub raw_bid: Double,
    pub ask_offset: Double,
    pub raw_ask: Double,
    pub bid_floor: Double,
    pub bid_floor_factor: Double,
    pub min_bid: Double,
    pub ask_floor: Double,
    pub ask_floor_factor: Double,
    pub min_ask: Double,
    pub bid_ticks: Double,
    pub bid_whole: Double,
    pub bid: Double,
    pub ask_ticks: Double,
    pub ask_whole: Double,
    pub ask: Double,
}

impl QuoteSteps {
    /// The position as a share of the largest, from -1 to 1.
    pub open spec fn norm_pos(self, config: VolObiConfig) -> Double {
        if Double::zero().below(config.max_position_dollar) {
            self.load.clamped(Double::minus_one(), Double::one())
        } else {
            Double::zero()
        }
    }

    /// The bid after the floor on the half-spread: never above the lowest bid
    /// that the floor asks for.
    pub open spec fn floored_bid(self, config: VolObiConfig) -> Double {
        if Double::zero().below(config.min_half_spread_bps) && self.min_bid.below(self.raw_bid) {
            self.min_bid
        } else {
            self.raw_bid
        }
    }

    /// The ask after the floor on the half-spread.
    pub open spec fn floored_ask(self, config: VolObiConfig) -> Double {
        if Double::zero().below(config.min_half_spread_bps) && self.raw_ask.below(self.min_ask) {
            self.min_ask
        } else {
            self.raw_ask
        }
    }
}

/// `w` holds what is computed for a quote.
pub open spec fn quotes_by<A: Arithmetic>(
    ops: &A,
    s: VolObi,
    mid_price: Double,
    position_size: Double,
    w: QuoteSteps,
) -> bool {
    let c = s.config;
    let tick = c.tick_size;
    // Half-spread in dollars, then in ticks
    &&& arithmetic::is_product(ops, s.volatility, c.vol_to_half_spread, w.half_spread_price)
    &&& arithmetic::is_quotient(ops, w.half_spread_price, tick, w.half_spread_tick)
    // Fair price
    &&& arithmetic::is_product(ops, c.c1, s.alpha, w.shift)
    &&& arithmetic::is_sum(ops, mid_price, w.shift, w.fair_price)
    // Position skew
    &&& Double::zero().below(c.max_position_dollar) ==> {
        &&& arithmetic::is_product(ops, position_size, mid_price, w.exposure)
        &&& arithmetic::is_quotient(ops, w.exposure, c.max_position_dollar, w.load)
    }
    &&& arithmetic::is_product(ops, c.skew, w.norm_pos(c), w.bid_lean)
    &&& arithmetic::is_sum(ops, Double::one(), w.bid_lean, w.bid_factor)
    &&& arithmetic::is_product(ops, w.half_spread_tick, w.bid_factor, w.bid_depth)
    &&& arithmetic::is_product(ops, c.skew, w.norm_pos(c), w.ask_lean)
    &&& arithmetic::is_difference(ops, Double::one(), w.ask_lean, w.ask_factor)
    &&& arithmetic::is_product(ops, w.half_spread_tick, w.ask_factor, w.ask_depth)
    // Depths back in dollars
    &&& arithmetic::is_product(ops, w.bid_depth.larger(Double::zero()), tick, w.bid_offset)
    &&& arithmetic::is_difference(ops, w.fair_price, w.bid_offset, w.raw_bid)
    &&& arithmetic::is_product(ops, w.ask_depth.larger(Double::zero()), tick, w.ask_offset)
    &&& arithmetic::is_sum(ops, w.fair_price, w.ask_offset, w.raw_ask)
    // Floor on the half-spread in basis points
    &&& Double::zero().below(c.min_half_spread_bps) ==> {
        &&& arithmetic::is_quotient(
            ops,
            c.min_half_spread_bps,
            Double::basis_points(),
            w.bid_floor,
        )
        &&& arithmetic::is_difference(ops, Double::one(), w.bid_floor, w.bid_floor_factor)
        &&& arithmetic::is_product(ops, mid_price, w.bid_floor_factor, w.min_bid)
        &&& arithmetic::is_quotient(
            ops,
            c.min_half_spread_bps,
            Double::basis_points(),
            w.ask_floor,
        )
        &&& arithmetic::is_sum(ops, Double::one(), w.ask_floor, w.ask_floor_factor)
        &&& arithmetic::is_product(ops, mid_price, w.ask_floor_factor, w.min_ask)
    }
    // Snap to the tick grid
    &&& arithmetic::is_quotient(ops, w.floored_bid(c), tick, w.bid_ticks)
    &&& arithmetic::is_floor(ops, w.bid_ticks, w.bid_whole)
    &&& arithmetic::is_product(ops, w.bid_whole, tick, w.bid)
    &&& arithmetic::is_quotient(ops, w.floored_ask(c), tick, w.ask_ticks)
    &&& arithmetic::is_ceil(ops, w.ask_ticks, w.ask_whole)
    &&& arithmetic::is_product(ops, w.ask_whole, tick, w.ask)
}

/// `r` is a quote: none before warm-up, none where bid and ask would cross,
/// else the pair of bid and ask.
pub open spec fn is_quote<A: Arithmetic>(
    ops: &A,
    s: VolObi,
    mid_price: Double,
    position_size: Double,
    r: Option<(Double, Double)>,
) -> bool {
    if !s.warmed_up {
        r is None
    } else {
        exists|w: QuoteSteps| #[trigger]
            quotes_by(ops, s, mid_price, position_size, w) && r == if w.bid.at_least(w.ask) {
                None
            } else {
                Some((w.bid, w.ask))
            }
    }
}

/// Volatility + OBI spread calculator.
pub struct VolObiCalculator {
    mid_stats: RollingStats,
    imb_stats: RollingStats,
    prev_mid: Option<Double>,
    volatility: Double,
    alpha: Double,
    alpha_override: Option<Double>,
    warmed_up: bool,
    total_samples: u64,
    config: VolObiConfig,
}

impl VolObiCalculator {
    pub closed spec fn wf(self) -> bool {
        &&& self.mid_stats.wf()
        &&& self.imb_stats.wf()
        &&& self.mid_stats@.capacity == self.imb_stats@.capacity
    }

    pub closed spec fn view(self) -> VolObi {
        VolObi {
            mid_stats: self.mid_stats@,
            imb_stats: self.imb_stats@,
            prev_mid: self.prev_mid,
            volatility: self.volatility,
            alpha: self.alpha,
            alpha_override: self.alpha_override,
            warmed_up: self.warmed_up,
            total_samples: self.total_samples as nat,
            config: self.config,
        }
    }

    #[allow(clippy::too_many_arguments)]
    pub fn new<A: Arithmetic>(
        ops: &A,
        tick_size: Double,
        window_steps: usize,
        step_ns: u64,
        vol_to_half_spread: Double,
        min_half_spread_bps: Double,
        c1_ticks: Double,
        c1: Double,
        skew: Double,
        looking_depth: Double,
        min_warmup_samples: u64,
        max_position_dollar: Double,
    ) -> (r: VolObiCalculator)
        requires
            Double::zero().below(tick_size),
            window_steps > 0,
        ensures
            r.wf(),
            is_new(
                ops,
                (Settings {
                    tick_size,
                    window_steps: window_steps as nat,
                    step_ns,
                    vol_to_half_spread,
                    min_half_spread_bps,
                    c1_ticks,
                    c1,
                    skew,
                    looking_depth,
                    min_warmup_samples,
                    max_position_dollar,
                }),
                r@,
            ),
    {
        let step = ops.from_integer(step_ns);
        let per_second = ops.over(Double::nanos_per_second(), step);
        let vol_scale = ops.root(per_second);
        let c1_val = if c1.gt(Double::zero()) {
            c1
        } else {
            ops.times(c1_ticks, tick_size)
        };
        proof {
            assert(arithmetic::is_number_of(ops, step_ns, step));
            assert(arithmetic::is_quotient(ops, Double::nanos_per_second(), step, per_second));
        }
        VolObiCalculator {
            mid_stats: RollingStats::new(window_steps),
            imb_stats: RollingStats::new(window_steps),
            prev_mid: None,
            volatility: Double::zero(),
            alpha: Double::zero(),
            alpha_override: None,
            warmed_up: false,
            total_samples: 0,
            config: VolObiConfig {
                tick_size,
                vol_scale,
                vol_to_half_spread,
                min_half_spread_bps,
                c1: c1_val,
                skew,
                looking_depth,
                min_warmup_samples,
                max_position_dollar,
            },
        }
    }

    /// Feed a new mid-price and orderbook sides.
    pub fn on_book_update<A: Arithmetic>(
        &mut self,
        ops: &A,
        mid_price: Double,
        bids: &BookSide,
        asks: &BookSide,
    )
        requires
            old(self).wf(),
            bids.wf(),
            asks.wf(),
            old(self)@.prev_mid is Some ==> old(self)@.total_samples < u64::MAX,
        ensures
            final(self).wf(),
            updates(ops, old(self)@, mid_price, bids@, asks@, final(self)@),
    {
        let ghost mut change = Double::zero();
        // 1. Mid-price change -> volatility [dollars]
        if let Some(prev) = self.prev_mid {
            let moved = ops.minus(mid_price, prev);
            self.mid_stats.push(ops, moved);
            self.total_samples += 1;
            proof {
                change = moved;
            }
        }
        self.prev_mid = Some(mid_price);

        // 2. Order book imbalance -> alpha [quantity units]
        let imbalance = imbalance::compute_imbalance(
            ops,
            bids,
            asks,
            mid_price,
            self.config.looking_depth,
        );
        self.imb_stats.push(ops, imbalance);

        // 3. Update cached volatility & alpha once warmed up
        if self.total_samples >= self.config.min_warmup_samples {
            self.warmed_up = true;
            self.volatility = ops.times(self.mid_stats.std_dev(), self.config.vol_scale);
            if let Some(alpha) = self.alpha_override {
                self.alpha = alpha;
            } else {
                self.alpha = self.imb_stats.zscore(ops, imbalance);
            }
        }
        proof {
            if old(self).prev_mid is Some {
                old(self).mid_stats.lemma_window_bounded();
                rolling_stats::law_push_slides_window(
                    ops,
                    old(self)@.mid_stats,
                    change,
                    self@.mid_stats,
                );
            }
            old(self).imb_stats.lemma_window_bounded();
            rolling_stats::law_push_slides_window(
                ops,
                old(self)@.imb_stats,
                imbalance,
                self@.imb_stats,
            );
            assert(updates_by(ops, old(self)@, mid_price, bids@, asks@, change, imbalance, self@));
        }
    }

    /// Calculate bid/ask prices. Returns None if not warmed up or crossed.
    pub fn quote<A: Arithmetic>(
        &self,
        ops: &A,
        mid_price: Double,
        position_size: Double,
    ) -> (r: Option<(Double, Double)>)
        ensures
            is_quote(ops, self@, mid_price, position_size, r),
    {
        if !self.warmed_up {
            return None;
        }
        let c = self.config;
        let tick = c.tick_size;
        let zero = Double::zero();
        let one = Double::one();

        // Half-spread in dollars -> ticks
        let half_spread_price = ops.times(self.volatility, c.vol_to_half_spread);
        let half_spread_tick = ops.over(half_spread_price, tick);

        // Fair price
        let shift = ops.times(c.c1, self.alpha);
        let fair_price = ops.plus(mid_price, shift);

        // Position skew in ticks
        let ghost mut exposure_seen = zero;
        let ghost mut load_seen = zero;
        let norm_pos = if c.max_position_dollar.gt(zero) {
            let exposure = ops.times(position_size, mid_price);
            let load = ops.over(exposure, c.max_position_dollar);
            proof {
                exposure_seen = exposure;
                load_seen = load;
            }
            load.clamp(Double::minus_one(), one)
        } else {
            zero
        };

        let bid_lean = ops.times(c.skew, norm_pos);
        let bid_factor = ops.plus(one, bid_lean);
        let bid_depth = ops.times(half_spread_tick, bid_factor);
        let ask_lean = ops.times(c.skew, norm_pos);
        let ask_factor = ops.minus(one, ask_lean);
        let ask_depth = ops.times(half_spread_tick, ask_factor);

        // Convert depths back to dollars
        let bid_offset = ops.times(bid_depth.max(zero), tick);
        let raw_bid = ops.minus(fair_price, bid_offset);
        let ask_offset = ops.times(ask_depth.max(zero), tick);
        let raw_ask = ops.plus(fair_price, ask_offset);

        // Min spread floor in bps
        let mut floored_bid = raw_bid;
        let mut floored_ask = raw_ask;
        let ghost mut floor = (zero, zero, zero, zero, zero, zero);
        if c.min_half_spread_bps.gt(zero) {
            let bid_floor = ops.over(c.min_half_spread_bps, Double::basis_points());
            let bid_floor_factor = ops.minus(one, bid_floor);
            let min_bid = ops.times(mid_price, bid_floor_factor);
            if raw_bid.gt(min_bid) {
                floored_bid = min_bid;
            }
            let ask_floor = ops.over(c.min_half_spread_bps, Double::basis_points());
            let ask_floor_factor = ops.plus(one, ask_floor);
            let min_ask = ops.times(mid_price, ask_floor_factor);
            if raw_ask.lt(min_ask) {
                floored_ask = min_ask;
            }
            proof {
                floor =
                (bid_floor, bid_floor_factor, min_bid, ask_floor, ask_floor_factor, min_ask);
            }
        }

        // Snap to tick grid
        let bid_ticks = ops.over(floored_bid, tick);
        let bid_whole = ops.floor(bid_ticks);
        let bid = ops.times(bid_whole, tick);
        let ask_ticks = ops.over(floored_ask, tick);
        let ask_whole = ops.ceil(ask_ticks);
        let ask = ops.times(ask_whole, tick);

        proof {
            let w = QuoteSteps {
                half_spread_price,
                half_spread_tick,
                shift,
                fair_price,
                exposure: exposure_seen,
                load: load_seen,
                bid_lean,
                bid_factor,
                bid_depth,
                ask_lean,
                ask_factor,
                ask_depth,
                bid_offset,
                raw_bid,
                ask_offset,
                raw_ask,
                bid_floor: floor.0,
                bid_floor_factor: floor.1,
                min_bid: floor.2,
                ask_floor: floor.3,
                ask_floor_factor: floor.4,
                min_ask: floor.5,
                bid_ticks,
                bid_whole,
                bid,
                ask_ticks,
                ask_whole,
                ask,
            };
            assert(w.norm_pos(c) == norm_pos);
            assert(w.floored_bid(c) == floored_bid);
            assert(w.floored_ask(c) == floored_ask);
            assert(quotes_by(ops, self@, mid_price, position_size, w));
        }

        // Guard: never return crossed quotes
        if bid.ge(ask) {
            return None;
        }
        Some((bid, ask))
    }

    pub fn set_alpha_override(&mut self, alpha: Option<Double>)
        requires
            old(self).wf(),
        ensures
            final(self).wf(),
            final(self)@ == (VolObi { alpha_override: alpha, ..old(self)@ }),
    {
        self.alpha_override = alpha;
    }

    pub fn alpha_override(&self) -> (r: Option<Double>)
        ensures
            r == self@.alpha_override,
    {
        self.alpha_override
    }

    pub fn warmed_up(&self) -> (r: bool)
        ensures
            r == self@.warmed_up,
    {
        self.warmed_up
    }

    pub fn volatility(&self) -> (r: Double)
        ensures
            r == self@.volatility,
    {
        self.volatility
    }

    pub fn alpha(&self) -> (r: Double)
        ensures
            r == self@.alpha,
    {
        self.alpha
    }

    pub fn total_samples(&self) -> (r: u64)
        ensures
            r == self@.total_samples,
    {
        self.total_samples
    }

    /// Forgets everything but the configuration.
    pub fn reset(&mut self)
        requires
            old(self).wf(),
        ensures
            final(self).wf(),
            final(self)@ == old(self)@.after_reset(),
    {
        self.mid_stats.clear();
        self.imb_stats.clear();
        self.prev_mid = None;
        self.volatility = Double::zero();
        self.alpha = Double::zero();
        self.alpha_override = None;
        self.warmed_up = false;
        self.total_samples = 0;
    }

    pub fn set_max_position_dollar(&mut self, value: Double)
        requires
            old(self).wf(),
        ensures
            final(self).wf(),
            final(self)@ == old(self)@.limited(value),
    {
        self.config.max_position_dollar = value.max(Double::zero());
    }
}

/// A quote is never crossed: where both prices are numbers, the bid is below
/// the ask. Before warm-up there is no quote.
pub proof fn law_quotes_never_cross<A: Arithmetic>(
    ops: &A,
    s: VolObi,
    mid_price: Double,
    position_size: Double,
    bid: Double,
    ask: Double,
)
    requires
        is_quote(ops, s, mid_price, position_size, Some((bid, ask))),
    ensures
        s.warmed_up,
        !bid.at_least(ask),
        !bid.is_nan_spec() && !ask.is_nan_spec() ==> bid.below(ask),
{
}

/// With a floor on the half-spread, the prices that are snapped to the grid
/// keep at least that distance from the mid-price on both sides.
pub proof fn law_half_spread_floor_holds<A: Arithmetic>(
    ops: &A,
    s: VolObi,
    mid_price: Double,
    position_size: Double,
    w: QuoteSteps,
)
    requires
        quotes_by(ops, s, mid_price, position_size, w),
        Double::zero().below(s.config.min_half_spread_bps),
    ensures
        !w.min_bid.below(w.floored_bid(s.config)),
        !w.floored_ask(s.config).below(w.min_ask),
{
}

/// Snapping to the grid moved neither price towards the other: the bid is no
/// higher than before, the ask no lower. A price that stands a rounding error
/// below a multiple of the tick can be snapped up onto it.
pub open spec fn snaps_outward(w: QuoteSteps, config: VolObiConfig) -> bool {
    w.floored_bid(config).at_least(w.bid) && w.ask.at_least(w.floored_ask(config))
}

/// With a floor on the half-spread, the prices that are quoted keep at least that
/// distance from the mid-price on both sides, where snapping to the grid moves
/// neither inward.
pub proof fn law_quoted_prices_keep_floor<A: Arithmetic>(
    ops: &A,
    s: VolObi,
    mid_price: Double,
    position_size: Double,
    w: QuoteSteps,
)
    requires
        s.warmed_up,
        quotes_by(ops, s, mid_price, position_size, w),
        Double::zero().below(s.config.min_half_spread_bps),
        snaps_outward(w, s.config),
        !w.min_bid.is_nan_spec() && !w.min_ask.is_nan_spec(),
    ensures
        w.min_bid.at_least(w.bid),
        w.ask.at_least(w.min_ask),
        is_quote(
            ops,
            s,
            mid_price,
            position_size,
            if w.bid.at_least(w.ask) {
                None
            } else {
                Some((w.bid, w.ask))
            },
        ),
{
}

/// The position enters a quote as a share between -1 and 1, whatever its size.
pub proof fn law_position_share_is_bounded(w: QuoteSteps, config: VolObiConfig)
    requires
        !w.load.is_nan_spec(),
    ensures
        !w.norm_pos(config).below(Double::minus_one()),
        !Double::one().below(w.norm_pos(config)),
{
}

/// A warmed-up calculator stays so, and an override that is set is the alpha
/// from then on.
pub proof fn law_warm_up_lasts<A: Arithmetic>(
    ops: &A,
    s: VolObi,
    mid_price: Double,
    bids: Map<i64, Level>,
    asks: Map<i64, Level>,
    t: VolObi,
)
    requires
        updates(ops, s, mid_price, bids, asks, t),
    ensures
        s.warmed_up ==> t.warmed_up,
        t.total_samples >= s.config.min_warmup_samples && s.alpha_override is Some ==> t.alpha
            == s.alpha_override->0,
{
}

/// The states that a run of book updates drives a calculator through.
pub open spec fn update_run<A: Arithmetic>(
    ops: &A,
    states: Seq<VolObi>,
    mids: Seq<Double>,
    bids: Seq<Map<i64, Level>>,
    asks: Seq<Map<i64, Level>>,
) -> bool {
    &&& states.len() == mids.len() + 1
    &&& bids.len() == mids.len()
    &&& asks.len() == mids.len()
    &&& forall|i: int|
        #![trigger mids[i]]
        0 <= i < mids.len() ==> updates(ops, states[i], mids[i], bids[i], asks[i], states[i + 1])
}

/// A fresh calculator counts one sample for every update but the first, and is
/// warmed up exactly when that count has reached the configured minimum.
pub proof fn law_warm_up_needs_enough_samples<A: Arithmetic>(
    ops: &A,
    states: Seq<VolObi>,
    mids: Seq<Double>,
    bids: Seq<Map<i64, Level>>,
    asks: Seq<Map<i64, Level>>,
    window_steps: nat,
    config: VolObiConfig,
)
    requires
        update_run(ops, states, mids, bids, asks),
        states[0] == VolObi::fresh(window_steps, config),
    ensures
        states.last().config == config,
        mids.len() == 0 ==> states.last().prev_mid is None && states.last().total_samples == 0
            && !states.last().warmed_up,
        mids.len() > 0 ==> states.last().prev_mid == Some(mids.last())
            && states.last().total_samples == mids.len() - 1 && states.last().warmed_up == (
        mids.len() - 1 >= config.min_warmup_samples),
    decreases mids.len(),
{
    if mids.len() > 0 {
        let n = mids.len() - 1;
        assert forall|i: int| #![trigger mids.drop_last()[i]] 0 <= i < n implies updates(
            ops,
            states.drop_last()[i],
            mids.drop_last()[i],
            bids.drop_last()[i],
            asks.drop_last()[i],
            states.drop_last()[i + 1],
        ) by {
            assert(mids.drop_last()[i] == mids[i]);
        }
        law_warm_up_needs_enough_samples(
            ops,
            states.drop_last(),
            mids.drop_last(),
            bids.drop_last(),
            asks.drop_last(),
            window_steps,
            config,
        );
        assert(states[n] == states.drop_last().last());
        assert(mids[n] == mids.last());
        assert(updates(ops, states[n], mids[n], bids[n], asks[n], states[n + 1]));
    }
}

} // verus!
