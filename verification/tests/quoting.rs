//! Numbers, windows, order books and quotes.
use marketmaker::arithmetic::Arithmetic;
use marketmaker::double::Double;
use marketmaker::imbalance::compute_imbalance;
use marketmaker::orderbook::{BookSide, Orderbook};
use marketmaker::rolling_stats::RollingStats;
use marketmaker::vol_obi::VolObiCalculator;
use ordered_float::OrderedFloat;

/// Doubles computed by the machine.
struct Machine;

fn d(x: f64) -> Double {
    Double::from_bits(x.to_bits())
}

fn f(x: Double) -> f64 {
    f64::from_bits(x.to_bits())
}

impl Arithmetic for Machine {
    fn plus(&self, a: Double, b: Double) -> Double {
        d(f(a) + f(b))
    }

    fn minus(&self, a: Double, b: Double) -> Double {
        d(f(a) - f(b))
    }

    fn times(&self, a: Double, b: Double) -> Double {
        d(f(a) * f(b))
    }

    fn over(&self, a: Double, b: Double) -> Double {
        d(f(a) / f(b))
    }

    fn root(&self, a: Double) -> Double {
        d(f(a).sqrt())
    }

    fn floor(&self, a: Double) -> Double {
        d(f(a).floor())
    }

    fn ceil(&self, a: Double) -> Double {
        d(f(a).ceil())
    }

    fn from_integer(&self, n: u64) -> Double {
        d(n as f64)
    }

    fn power_of_ten(&self, exponent: i32) -> Double {
        d(10.0_f64.powi(exponent))
    }

    fn parse(&self, text: &str) -> Option<Double> {
        text.parse::<f64>().ok().map(d)
    }

    fn fixed(&self, a: Double, decimals: usize) -> String {
        format!("{:.*}", decimals, f(a))
    }
}

fn levels(list: &[(f64, f64)]) -> Vec<(Double, Double)> {
    list.iter().map(|&(p, s)| (d(p), d(s))).collect()
}

fn side(list: &[(f64, f64)]) -> BookSide {
    let mut side = BookSide::new();
    for &(p, s) in list {
        side.insert(d(p), d(s));
    }
    side
}

// ---------------------------------------------------------------------------
// Numbers
// ---------------------------------------------------------------------------

const SAMPLES: [f64; 14] = [
    f64::NEG_INFINITY,
    f64::MIN,
    -87000.5,
    -1.0,
    -1e-310,
    -0.0,
    0.0,
    1e-310,
    1e-10,
    0.1,
    1.0,
    87000.1,
    f64::MAX,
    f64::INFINITY,
];

#[test]
fn comparisons_agree_with_the_machine() {
    let mut all: Vec<f64> = SAMPLES.to_vec();
    all.push(f64::NAN);
    all.push(-f64::NAN);
    for &x in &all {
        assert_eq!(d(x).is_nan(), x.is_nan());
        for &y in &all {
            assert_eq!(d(x).lt(d(y)), x < y, "{} < {}", x, y);
            assert_eq!(d(x).gt(d(y)), x > y, "{} > {}", x, y);
            assert_eq!(d(x).ge(d(y)), x >= y, "{} >= {}", x, y);
            assert_eq!(d(x).same_number(d(y)), x == y, "{} == {}", x, y);
        }
    }
}

#[test]
fn order_keys_agree_with_ordered_floats() {
    let mut all: Vec<f64> = SAMPLES.to_vec();
    all.push(f64::NAN);
    all.push(-f64::NAN);
    for &x in &all {
        for &y in &all {
            let keys = d(x).order_key().cmp(&d(y).order_key());
            assert_eq!(keys, OrderedFloat(x).cmp(&OrderedFloat(y)), "{} {}", x, y);
        }
    }
}

#[test]
fn max_and_clamp_agree_with_the_machine() {
    let mut all: Vec<f64> = SAMPLES.to_vec();
    all.push(f64::NAN);
    for &x in &all {
        let top = f(d(x).max(Double::zero()));
        assert_eq!(top, x.max(0.0));
        let held = f(d(x).clamp(Double::minus_one(), Double::one()));
        if x.is_nan() {
            assert!(held.is_nan());
        } else {
            assert_eq!(held, x.clamp(-1.0, 1.0));
        }
    }
    assert_eq!(f(d(2.0).max(d(f64::NAN))), 2.0);
}

#[test]
fn named_numbers_have_their_values() {
    assert_eq!(f(Double::zero()), 0.0);
    assert_eq!(f(Double::half()), 0.5);
    assert_eq!(f(Double::one()), 1.0);
    assert_eq!(f(Double::minus_one()), -1.0);
    assert_eq!(f(Double::two()), 2.0);
    assert_eq!(f(Double::basis_points()), 10000.0);
    assert_eq!(f(Double::nanos_per_second()), 1_000_000_000.0);
    assert_eq!(f(Double::tiny()), 1e-10);
}

// ---------------------------------------------------------------------------
// Order books
// ---------------------------------------------------------------------------

#[test]
fn test_snapshot() {
    let mut ob = Orderbook::new();
    let bids = levels(&[(100.0, 1.0), (99.0, 2.0)]);
    let asks = levels(&[(101.0, 1.5), (102.0, 3.0)]);
    let is_snap = ob.apply_update(&bids, &asks, 100);
    assert!(is_snap);
    assert!(ob.initialized);
    assert_eq!(ob.best_bid(), Some(d(100.0)));
    assert_eq!(ob.best_ask(), Some(d(101.0)));
    assert!((f(ob.mid(&Machine).unwrap()) - 100.5).abs() < 1e-10);
}

#[test]
fn test_delta() {
    let mut ob = Orderbook::new();
    // First update = snapshot
    ob.apply_update(&levels(&[(100.0, 1.0)]), &levels(&[(101.0, 1.0)]), 100);
    // Delta: update bid, remove ask, add new ask
    ob.apply_update(&levels(&[(100.0, 2.0)]), &levels(&[(101.0, 0.0), (101.5, 1.0)]), 100);
    assert_eq!(f(ob.bids.get(d(100.0)).unwrap()), 2.0);
    assert!(!ob.asks.contains_key(d(101.0)));
    assert_eq!(ob.best_ask(), Some(d(101.5)));
}

#[test]
fn test_zero_size_ignored_on_snapshot() {
    let mut ob = Orderbook::new();
    ob.apply_update(&levels(&[(100.0, 0.0), (99.0, 1.0)]), &levels(&[]), 100);
    assert!(!ob.bids.contains_key(d(100.0)));
    assert_eq!(ob.best_bid(), Some(d(99.0)));
}

#[test]
fn long_updates_replace_the_book() {
    let mut ob = Orderbook::new();
    assert!(ob.apply_update(&levels(&[(100.0, 1.0)]), &levels(&[(101.0, 1.0)]), 2));
    assert!(!ob.apply_update(&levels(&[(99.0, 1.0), (98.0, 1.0)]), &levels(&[]), 2));
    assert_eq!(ob.bids.len(), 3);
    let long = levels(&[(50.0, 1.0), (51.0, 1.0), (52.0, 1.0)]);
    assert!(ob.apply_update(&long, &levels(&[]), 2));
    assert_eq!(ob.bids.len(), 3);
    assert_eq!(ob.best_bid(), Some(d(52.0)));
    assert_eq!(ob.best_ask(), None);
    assert_eq!(ob.mid(&Machine), None);
    assert!(ob.apply_update(&levels(&[]), &long, 2));
    assert_eq!(ob.best_bid(), None);
    assert_eq!(ob.best_ask(), Some(d(50.0)));
}

#[test]
fn clearing_makes_the_next_update_a_snapshot() {
    let mut ob = Orderbook::new();
    ob.apply_update(&levels(&[(100.0, 1.0)]), &levels(&[(101.0, 1.0)]), 100);
    ob.clear();
    assert!(!ob.initialized);
    assert_eq!(ob.bids.len(), 0);
    assert_eq!(ob.asks.len(), 0);
    assert!(ob.apply_update(&levels(&[(90.0, 1.0)]), &levels(&[]), 100));
    assert_eq!(ob.bids.len(), 1);
}

#[test]
fn last_entry_for_a_price_decides() {
    let mut ob = Orderbook::new();
    // A zero behind a size does not take a level out of a snapshot
    ob.apply_update(&levels(&[(100.0, 1.0), (100.0, 3.0), (100.0, 0.0)]), &levels(&[]), 100);
    assert_eq!(ob.bids.get(d(100.0)), Some(d(3.0)));
    // but it does take it out by a delta
    ob.apply_update(&levels(&[(100.0, 4.0), (100.0, 0.0)]), &levels(&[]), 100);
    assert_eq!(ob.bids.get(d(100.0)), None);
    ob.apply_update(&levels(&[(100.0, 0.0), (100.0, 5.0)]), &levels(&[]), 100);
    assert_eq!(ob.bids.get(d(100.0)), Some(d(5.0)));
}

#[test]
fn repeated_deltas_change_nothing() {
    let delta = levels(&[(100.0, 2.0), (99.0, 0.0), (0.0, 1.0), (-0.0, 2.0), (97.0, -1.0)]);
    let mut ob = Orderbook::new();
    ob.apply_update(&levels(&[(99.0, 1.0), (98.0, 1.0)]), &levels(&[]), 100);
    ob.apply_update(&delta, &levels(&[]), 100);
    let once = ob.bids.ascending();
    ob.apply_update(&delta, &levels(&[]), 100);
    assert_eq!(ob.bids.ascending(), once);
    assert_eq!(once.len(), 4);
    // Equal prices share a level, under the price that came first
    assert_eq!(once[0].price, d(0.0));
    assert_eq!(once[0].size, d(2.0));
}

#[test]
fn negative_sizes_enter_by_deltas_only() {
    let mut ob = Orderbook::new();
    ob.apply_update(&levels(&[(100.0, -1.0), (99.0, 1.0)]), &levels(&[]), 100);
    assert!(!ob.bids.contains_key(d(100.0)));
    ob.apply_update(&levels(&[(100.0, -1.0)]), &levels(&[]), 100);
    assert_eq!(ob.bids.get(d(100.0)), Some(d(-1.0)));
}

#[test]
fn sides_are_listed_in_the_order_of_prices() {
    let s = side(&[(3.0, 1.0), (-1.0, 2.0), (2.5, 3.0), (-7.0, 4.0)]);
    let prices: Vec<f64> = s.ascending().iter().map(|l| f(l.price)).collect();
    assert_eq!(prices, vec![-7.0, -1.0, 2.5, 3.0]);
    assert_eq!(s.lowest(), Some(d(-7.0)));
    assert_eq!(s.highest(), Some(d(3.0)));
    let mut t = side(&[(1.0, 1.0)]);
    t.remove(d(1.0));
    assert_eq!(t.lowest(), None);
    assert_eq!(t.highest(), None);
}

// ---------------------------------------------------------------------------
// Imbalance
// ---------------------------------------------------------------------------

#[test]
fn imbalance_counts_levels_within_depth() {
    let bids = side(&[(99.0, 1.0), (75.0, 2.0), (74.5, 100.0)]);
    let asks = side(&[(101.0, 0.5), (125.0, 0.25), (125.5, 100.0)]);
    let r = compute_imbalance(&Machine, &bids, &asks, d(100.0), d(0.25));
    assert_eq!(f(r), 1.0 + 2.0 - 0.5 - 0.25);
    let none = compute_imbalance(&Machine, &BookSide::new(), &BookSide::new(), d(100.0), d(0.25));
    assert_eq!(f(none), 0.0);
}

#[test]
fn imbalance_stops_at_the_first_level_outside() {
    // An ask without a price stands behind all others
    let asks = side(&[(f64::NAN, 8.0), (101.0, 1.0), (200.0, 4.0)]);
    let r = compute_imbalance(&Machine, &BookSide::new(), &asks, d(100.0), d(0.025));
    assert_eq!(f(r), -1.0);
    // and a bid without a price before all others
    let bids = side(&[(f64::NAN, 8.0), (99.0, 1.0), (50.0, 4.0)]);
    let r = compute_imbalance(&Machine, &bids, &BookSide::new(), d(100.0), d(0.025));
    assert_eq!(f(r), 9.0);
}

// ---------------------------------------------------------------------------
// Rolling statistics
// ---------------------------------------------------------------------------

#[test]
fn test_basic_push_and_stats() {
    let mut rs = RollingStats::new(5);
    for v in [1.0, 2.0, 3.0, 4.0, 5.0] {
        rs.push(&Machine, d(v));
    }
    assert_eq!(rs.count(), 5);
    assert!((f(rs.mean()) - 3.0).abs() < 1e-10);
    // Population std of [1,2,3,4,5] = sqrt(2)
    assert!((f(rs.std_dev()) - 2.0_f64.sqrt()).abs() < 1e-10);
}

#[test]
fn test_eviction() {
    let mut rs = RollingStats::new(3);
    for v in [1.0, 2.0, 3.0] {
        rs.push(&Machine, d(v));
    }
    assert_eq!(rs.count(), 3);
    assert!((f(rs.mean()) - 2.0).abs() < 1e-10);

    // Push 4.0, evicts 1.0 -> window is [2, 3, 4]
    rs.push(&Machine, d(4.0));
    assert_eq!(rs.count(), 3);
    assert!((f(rs.mean()) - 3.0).abs() < 1e-10);
}

#[test]
fn test_zscore() {
    let mut rs = RollingStats::new(100);
    for v in [10.0, 20.0, 30.0, 40.0, 50.0] {
        rs.push(&Machine, d(v));
    }
    // zscore of mean should be 0
    assert!((f(rs.zscore(&Machine, rs.mean()))).abs() < 1e-10);
    // zscore of value above mean should be positive
    assert!(f(rs.zscore(&Machine, d(60.0))) > 0.0);
}

#[test]
fn test_clear() {
    let mut rs = RollingStats::new(5);
    rs.push(&Machine, d(1.0));
    rs.push(&Machine, d(2.0));
    rs.clear();
    assert_eq!(rs.count(), 0);
    assert_eq!(f(rs.mean()), 0.0);
    assert_eq!(f(rs.std_dev()), 0.0);
}

#[test]
fn test_single_value() {
    let mut rs = RollingStats::new(5);
    rs.push(&Machine, d(42.0));
    assert_eq!(rs.count(), 1);
    assert!((f(rs.mean()) - 42.0).abs() < 1e-10);
    assert_eq!(f(rs.std_dev()), 0.0); // need >= 2 samples
}

#[test]
fn windows_hold_the_most_recent_values() {
    let mut rs = RollingStats::new(4);
    for i in 0..103 {
        rs.push(&Machine, d(i as f64));
        assert_eq!(rs.count(), if i < 4 { i + 1 } else { 4 });
    }
    // The last four are 99, 100, 101, 102
    assert!((f(rs.mean()) - 100.5).abs() < 1e-9);
    assert!((f(rs.std_dev()) - 1.25_f64.sqrt()).abs() < 1e-9);
    assert!((f(rs.zscore(&Machine, d(101.5))) - 1.0 / 1.25_f64.sqrt()).abs() < 1e-9);
}

#[test]
fn a_window_of_one_value_has_no_deviation() {
    let mut rs = RollingStats::new(1);
    for v in [5.0, 7.0, -3.0] {
        rs.push(&Machine, d(v));
        assert_eq!(rs.count(), 1);
        assert_eq!(f(rs.mean()), v);
        assert_eq!(f(rs.std_dev()), 0.0);
        assert_eq!(f(rs.zscore(&Machine, d(99.0))), 0.0);
    }
}

#[test]
fn deviations_are_never_negative() {
    let mut rs = RollingStats::new(3);
    for i in 0..1000 {
        rs.push(&Machine, d(0.1 + (i % 2) as f64 * 1e-17));
        assert!(f(rs.std_dev()) >= 0.0);
    }
    rs.push(&Machine, d(1e300));
    for _ in 0..10 {
        rs.push(&Machine, d(-1e-300));
        assert!(f(rs.std_dev()) >= 0.0);
    }
}

#[test]
fn a_cleared_window_fills_again() {
    let mut rs = RollingStats::new(3);
    for v in [1.0, 2.0, 3.0, 4.0] {
        rs.push(&Machine, d(v));
    }
    rs.clear();
    for v in [10.0, 20.0] {
        rs.push(&Machine, d(v));
    }
    assert_eq!(rs.count(), 2);
    assert_eq!(f(rs.mean()), 15.0);
    assert_eq!(f(rs.std_dev()), 5.0);
}

// ---------------------------------------------------------------------------
// Quotes
// ---------------------------------------------------------------------------

fn make_calc() -> VolObiCalculator {
    VolObiCalculator::new(
        &Machine,
        d(0.1),      // tick_size
        6000,        // window_steps
        100_000_000, // step_ns
        d(48.0),     // vol_to_half_spread
        d(8.0),      // min_half_spread_bps
        d(20.0),     // c1_ticks
        d(0.0),      // c1 (auto from c1_ticks)
        d(3.0),      // skew
        d(0.025),    // looking_depth
        100,         // min_warmup_samples
        d(500.0),    // max_position_dollar
    )
}

#[test]
fn test_not_warmed_up() {
    let calc = make_calc();
    assert!(!calc.warmed_up());
    assert!(calc.quote(&Machine, d(87000.0), d(0.0)).is_none());
}

#[test]
fn test_warmup_and_quote() {
    let mut calc = make_calc();
    let mut bids = BookSide::new();
    let mut asks = BookSide::new();

    // Build a simple book
    for i in 0..50 {
        bids.insert(d(87000.0 - i as f64 * 0.1), d(1.0));
        asks.insert(d(87000.1 + i as f64 * 0.1), d(1.0));
    }

    // Feed enough samples to warm up
    for i in 0..110 {
        let mid = 87000.0 + (i as f64 * 0.01).sin() * 0.5;
        calc.on_book_update(&Machine, d(mid), &bids, &asks);
    }

    assert!(calc.warmed_up());
    let result = calc.quote(&Machine, d(87000.0), d(0.0));
    assert!(result.is_some());

    let (bid, ask) = result.unwrap();
    assert!(f(bid) < 87000.0);
    assert!(f(ask) > 87000.0);
    assert!(f(bid) < f(ask));
}

#[test]
fn test_alpha_override() {
    let mut calc = make_calc();
    calc.set_alpha_override(Some(d(1.5)));
    assert_eq!(calc.alpha_override(), Some(d(1.5)));
    calc.set_alpha_override(None);
    assert_eq!(calc.alpha_override(), None);
}

/// A calculator whose numbers come out without rounding.
fn plain_calc(min_half_spread_bps: f64, c1: f64, min_warmup_samples: u64) -> VolObiCalculator {
    VolObiCalculator::new(
        &Machine,
        d(0.5),
        10,
        1_000_000_000,
        d(1.0),
        d(min_half_spread_bps),
        d(4.0),
        d(c1),
        d(2.0),
        d(0.5),
        min_warmup_samples,
        d(100.0),
    )
}

#[test]
fn warm_up_comes_with_enough_samples() {
    let empty = BookSide::new();
    let mut calc = plain_calc(0.0, 0.0, 3);
    for i in 0..6 {
        calc.on_book_update(&Machine, d(100.0 + i as f64), &empty, &empty);
        assert_eq!(calc.total_samples(), i);
        assert_eq!(calc.warmed_up(), i >= 3);
        assert_eq!(calc.quote(&Machine, d(100.0), d(0.0)).is_some(), false);
    }
    // All changes were alike, so there is no spread and the quote would cross
    assert_eq!(f(calc.volatility()), 0.0);
    assert_eq!(f(calc.alpha()), 0.0);
    calc.reset();
    assert_eq!(calc.total_samples(), 0);
    assert!(!calc.warmed_up());
    let mut eager = plain_calc(0.0, 0.0, 0);
    eager.on_book_update(&Machine, d(100.0), &empty, &empty);
    assert!(eager.warmed_up());
}

/// Warmed up with changes of +4 and -4: a deviation of 4 dollars.
fn warm(mut calc: VolObiCalculator, alpha: f64) -> VolObiCalculator {
    let empty = BookSide::new();
    calc.set_alpha_override(Some(d(alpha)));
    for mid in [100.0, 104.0, 100.0] {
        calc.on_book_update(&Machine, d(mid), &empty, &empty);
    }
    assert_eq!(f(calc.volatility()), 4.0);
    assert_eq!(f(calc.alpha()), alpha);
    calc
}

#[test]
fn quotes_follow_the_formula() {
    let calc = warm(plain_calc(0.0, 0.0, 2), 0.0);
    // Half-spread 4 dollars on both sides
    assert_eq!(calc.quote(&Machine, d(100.0), d(0.0)), Some((d(96.0), d(104.0))));
    // A quarter of the largest position: bid depth x 1.5, ask depth x 0.5
    assert_eq!(calc.quote(&Machine, d(100.0), d(0.25)), Some((d(94.0), d(102.0))));
    // Far beyond the largest position: bid depth x 3, ask depth cut at zero
    assert_eq!(calc.quote(&Machine, d(100.0), d(50.0)), Some((d(88.0), d(100.0))));
    assert_eq!(calc.quote(&Machine, d(100.0), d(-50.0)), Some((d(100.0), d(112.0))));
    // Off the grid: the bid is rounded down, the ask up
    assert_eq!(calc.quote(&Machine, d(100.25), d(0.0)), Some((d(96.0), d(104.5))));
}

#[test]
fn alpha_moves_the_fair_price() {
    // c1 of 4 ticks of 0.5
    let calc = warm(plain_calc(0.0, 0.0, 2), 3.0);
    assert_eq!(calc.quote(&Machine, d(100.0), d(0.0)), Some((d(102.0), d(110.0))));
    // c1 given
    let calc = warm(plain_calc(0.0, 0.5, 2), 3.0);
    assert_eq!(calc.quote(&Machine, d(100.0), d(0.0)), Some((d(97.5), d(105.5))));
}

#[test]
fn half_spread_floor_holds_on_both_sides() {
    // 1000 basis points of 100 are 10 dollars
    let calc = warm(plain_calc(1000.0, 0.0, 2), 0.0);
    let (bid, ask) = calc.quote(&Machine, d(100.0), d(0.0)).unwrap();
    assert_eq!(f(bid), 90.0);
    assert!(f(ask) >= 110.0 && f(ask) <= 110.5);
    let calc = warm(plain_calc(1.0, 0.0, 2), 0.0);
    assert_eq!(calc.quote(&Machine, d(100.0), d(0.0)), Some((d(96.0), d(104.0))));
}

#[test]
fn position_limit_is_never_negative() {
    let mut calc = warm(plain_calc(0.0, 0.0, 2), 0.0);
    calc.set_max_position_dollar(d(-5.0));
    // Without a limit the position does not count
    assert_eq!(calc.quote(&Machine, d(100.0), d(50.0)), Some((d(96.0), d(104.0))));
    calc.set_max_position_dollar(d(1000.0));
    assert_eq!(calc.quote(&Machine, d(100.0), d(2.5)), Some((d(94.0), d(102.0))));
}

#[test]
fn alpha_is_the_zscore_of_the_imbalance() {
    let asks = BookSide::new();
    let mut calc = plain_calc(0.0, 0.0, 1);
    for size in [1.0, 3.0] {
        calc.on_book_update(&Machine, d(100.0), &side(&[(99.0, size)]), &asks);
    }
    // Imbalances 1 and 3: mean 2, deviation 1
    assert_eq!(f(calc.alpha()), 1.0);
    assert!(calc.warmed_up());
}

#[test]
fn crossed_quotes_are_withheld() {
    let empty = BookSide::new();
    let mut calc = plain_calc(0.0, 0.0, 1);
    for mid in [100.0, 100.0, 100.0] {
        calc.on_book_update(&Machine, d(mid), &empty, &empty);
    }
    assert!(calc.warmed_up());
    assert_eq!(calc.quote(&Machine, d(100.0), d(0.0)), None);
    assert_eq!(calc.quote(&Machine, d(100.25), d(0.0)), Some((d(100.0), d(100.5))));
}

// ---------------------------------------------------------------------------
// Several runs
// ---------------------------------------------------------------------------

#[test]
fn cleared_windows_are_like_new() {
    let mut used = RollingStats::new(3);
    for i in 0..8 {
        used.push(&Machine, d(1e6 + i as f64));
    }
    used.clear();
    let mut fresh = RollingStats::new(3);
    for i in 0..20 {
        let x = d((i as f64 * 0.7).sin());
        used.push(&Machine, x);
        fresh.push(&Machine, x);
        assert_eq!(used.count(), fresh.count());
        assert_eq!(used.mean(), fresh.mean());
        assert_eq!(used.std_dev(), fresh.std_dev());
        assert_eq!(used.zscore(&Machine, d(0.3)), fresh.zscore(&Machine, d(0.3)));
    }
}

#[test]
fn exact_windows_have_their_mean_and_deviation() {
    let mut rs = RollingStats::new(4);
    for x in [100.0, -7.0, 2.0, 4.0, 4.0, 6.0] {
        rs.push(&Machine, d(x));
    }
    // The window is 2, 4, 4, 6
    assert_eq!(f(rs.mean()), 4.0);
    assert!((f(rs.std_dev()) - 2.0_f64.sqrt()).abs() < 1e-9);
}

#[test]
fn zscores_rise_with_the_value() {
    let mut rs = RollingStats::new(5);
    for x in [0.1, 0.7, -3.0] {
        rs.push(&Machine, d(x));
    }
    let mut last = f64::NEG_INFINITY;
    for x in [-1e300, -5.0, 0.0, 1e-300, 0.1, 7.0, 1e308] {
        let z = f(rs.zscore(&Machine, d(x)));
        assert!(z >= last);
        last = z;
    }
    assert_eq!(f(rs.zscore(&Machine, rs.mean())), 0.0);
}

fn drive(calc: &mut VolObiCalculator, n: usize) {
    let bids = side(&[(99.0, 1.0), (98.0, 2.0)]);
    for i in 0..n {
        let asks = side(&[(101.0, 1.0 + (i as f64).cos())]);
        calc.on_book_update(&Machine, d(100.0 + (i as f64 * 0.3).sin()), &bids, &asks);
    }
}

fn same_readings(a: &VolObiCalculator, b: &VolObiCalculator) {
    assert_eq!(a.warmed_up(), b.warmed_up());
    assert_eq!(a.total_samples(), b.total_samples());
    assert_eq!(a.volatility(), b.volatility());
    assert_eq!(a.alpha(), b.alpha());
    assert_eq!(a.alpha_override(), b.alpha_override());
    for pos in [-3.0, 0.0, 0.5] {
        assert_eq!(
            a.quote(&Machine, d(100.0), d(pos)),
            b.quote(&Machine, d(100.0), d(pos))
        );
    }
}

#[test]
fn reset_calculators_are_like_new() {
    let mut used = plain_calc(8.0, 0.0, 3);
    drive(&mut used, 17);
    used.set_alpha_override(Some(d(2.0)));
    used.reset();
    let mut fresh = plain_calc(8.0, 0.0, 3);
    same_readings(&used, &fresh);
    for n in [1, 2, 5, 30] {
        drive(&mut used, n);
        drive(&mut fresh, n);
        same_readings(&used, &fresh);
    }
}

fn calc_with(c1_ticks: f64, c1: f64, limit: f64) -> VolObiCalculator {
    VolObiCalculator::new(
        &Machine,
        d(0.1),
        10,
        100_000_000,
        d(4.0),
        d(0.0),
        d(c1_ticks),
        d(c1),
        d(1.5),
        d(0.25),
        2,
        d(limit),
    )
}

#[test]
fn derived_c1_quotes_like_the_same_c1_given() {
    let mut derived = calc_with(20.0, -1.0, 500.0);
    let mut given = calc_with(7.0, 20.0 * 0.1, 500.0);
    drive(&mut derived, 12);
    drive(&mut given, 12);
    same_readings(&derived, &given);
    assert!(derived.quote(&Machine, d(100.0), d(0.0)).is_some());
}

#[test]
fn positions_count_up_to_the_limit_only() {
    let mut calc = calc_with(0.0, 1.0, 500.0);
    drive(&mut calc, 12);
    let quote = |pos: f64| calc.quote(&Machine, d(100.0), d(pos)).unwrap();
    assert_eq!(quote(5.0), quote(5000.0));
    assert_eq!(quote(-5.0), quote(-1e300));
    assert_ne!(quote(5.0), quote(-5.0));
    let mut last = quote(-1e300);
    for pos in [-5.0, -4.0, -0.5, 0.0, 0.01, 3.0, 6.0, 1e300] {
        let next = quote(pos);
        assert!(f(next.0) <= f(last.0) && f(next.1) <= f(last.1));
        last = next;
    }
    let mut free = calc_with(0.0, 1.0, 0.0);
    drive(&mut free, 12);
    let here = free.quote(&Machine, d(100.0), d(0.0));
    assert_eq!(free.quote(&Machine, d(100.0), d(1e9)), here);
    assert_eq!(free.quote(&Machine, d(100.0), d(-1e9)), here);
}

#[test]
fn volatilities_are_never_negative() {
    let mut calc = calc_with(0.0, 1.0, 500.0);
    let empty = BookSide::new();
    for mid in [1.0, f64::MAX, f64::NAN, -1.0, f64::INFINITY, 5.0, 5.0] {
        calc.on_book_update(&Machine, d(mid), &empty, &empty);
        assert!(f(calc.volatility()) >= 0.0);
    }
}

#[test]
fn sizes_stay_positive() {
    let mut s = BookSide::new();
    s.load(&levels(&[(1.0, 1.0), (2.0, -1.0), (3.0, f64::NAN)]));
    s.patch(&levels(&[(4.0, 0.5), (1.0, 0.0), (5.0, 1e-300)]));
    let listed = s.ascending();
    assert_eq!(listed.len(), 2);
    assert!(listed.iter().all(|l| f(l.size) > 0.0));
}

/// Numbers of every kind.
fn samples() -> Vec<f64> {
    let mut all = vec![
        0.0,
        -0.0,
        f64::MIN_POSITIVE,
        5e-324,
        1e-10,
        0.1,
        0.5,
        1.0,
        1.5,
        3.0,
        1e9,
        1.8446744073709552e19,
        1e300,
        f64::MAX,
        f64::INFINITY,
    ];
    let negative: Vec<f64> = all.iter().map(|x| -x).collect();
    all.extend(negative);
    all
}

#[test]
fn the_machine_keeps_order_sign_and_proportion() {
    let m = Machine;
    let (zero, one) = (Double::zero(), Double::one());
    for a in samples().into_iter().map(d) {
        assert!(m.plus(a, d(f64::NAN)).is_nan() && m.times(a, d(f64::NAN)).is_nan());
        if a.ge(zero) {
            assert!(m.root(a).ge(zero));
        }
        for b in samples().into_iter().map(d) {
            let finite = f(b).is_finite();
            let quotient = m.over(a, b);
            if b.gt(zero) && finite {
                assert!(!quotient.is_nan());
                assert!(!a.ge(zero) || quotient.ge(zero));
                assert!(!a.ge(b) || quotient.ge(one));
                assert!(f(a) > -f(b) || f(quotient) <= -1.0);
                if a.ge(one) && f(a).is_finite() && b.ge(one) {
                    assert!(quotient.gt(zero) && f(quotient).is_finite());
                }
            }
            for c in samples().into_iter().map(d) {
                if !c.ge(b) {
                    continue;
                }
                let rises = |x: Double, y: Double| x.is_nan() || y.is_nan() || y.ge(x);
                assert!(rises(m.plus(a, b), m.plus(a, c)));
                assert!(rises(m.minus(a, c), m.minus(a, b)));
                assert!(rises(m.minus(b, a), m.minus(c, a)));
                assert!(m.floor(c).ge(m.floor(b)) && m.ceil(c).ge(m.ceil(b)));
                if a.ge(zero) {
                    let (low, high) = (m.times(a, b), m.times(a, c));
                    assert!(rises(low, high) && rises(m.times(b, a), m.times(c, a)));
                    assert!(high.max(zero).ge(low.max(zero)));
                }
                if a.gt(zero) && f(a).is_finite() {
                    assert!(m.over(c, a).ge(m.over(b, a)));
                }
            }
        }
    }
}

#[test]
fn snapping_can_round_a_price_up() {
    // The grid of tenths holds 1.7 as a number above 1.7 itself
    let m = Machine;
    let tick = d(0.1);
    let snapped = m.times(m.floor(m.over(d(1.7), tick)), tick);
    assert!(snapped.gt(d(1.7)));
    let whole = d(0.5);
    assert_eq!(m.times(m.floor(m.over(d(1.7), whole)), whole), d(1.5));
}
