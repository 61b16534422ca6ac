//! Documents and feeds.
use marketmaker::arithmetic::Arithmetic;
use marketmaker::depth::{apply_binance_diff, apply_binance_snapshot, DepthSession, SyncOutcome};
use marketmaker::double::Double;
use marketmaker::frame::Frame;
use marketmaker::json::{parse_json, Json};
use marketmaker::levels::{parse_levels, read_pairs};
use marketmaker::orderbook::BookSide;
use marketmaker::reconnect::Backoff;
use marketmaker::ws_binance::{
    bbo_update, binance_symbol_for, lighter_to_binance_symbol, BboSession, BinanceMsg, FeedAction,
};
use marketmaker::ws_lighter::{
    on_document, on_ticker_prices, restarts_watchdog, subscribe_message, LighterAction,
    LighterSession, LighterWsMsg,
};

/// Doubles computed by the machine.
struct Machine;

fn d(x: f64) -> Double {
    Double::from_bits(x.to_bits())
}

fn f(x: Double) -> f64 {
    f64::from_bits(x.to_bits())
}

impl Arithmetic for Machine {
    fn plus(&self, a: Double, b: Double) -> Double {
        d(f(a) + f(b))
    }

    fn minus(&self, a: Double, b: Double) -> Double {
        d(f(a) - f(b))
    }

    fn times(&self, a: Double, b: Double) -> Double {
        d(f(a) * f(b))
    }

    fn over(&self, a: Double, b: Double) -> Double {
        d(f(a) / f(b))
    }

    fn root(&self, a: Double) -> Double {
        d(f(a).sqrt())
    }

    fn floor(&self, a: Double) -> Double {
        d(f(a).floor())
    }

    fn ceil(&self, a: Double) -> Double {
        d(f(a).ceil())
    }

    fn from_integer(&self, n: u64) -> Double {
        d(n as f64)
    }

    fn power_of_ten(&self, exponent: i32) -> Double {
        d(10.0_f64.powi(exponent))
    }

    fn parse(&self, text: &str) -> Option<Double> {
        text.parse::<f64>().ok().map(d)
    }

    fn fixed(&self, a: Double, decimals: usize) -> String {
        format!("{:.*}", decimals, f(a))
    }
}

fn text(s: &str) -> Frame {
    Frame::Text(s.to_string())
}

fn json(s: &str) -> Json {
    parse_json(s).unwrap()
}

// ---------------------------------------------------------------------------
// Documents
// ---------------------------------------------------------------------------

#[test]
fn documents_are_read() {
    let j = json(r#"{"a": [1, -2, 2.5, 9223372036854775808], "b": {"c": "été"}, "n": null, "t": true}"#);
    let a = j.array_at("a").unwrap();
    assert_eq!(a.len(), 4);
    assert_eq!(a[0].as_i64(), Some(1));
    assert_eq!(a[1].as_i64(), Some(-2));
    assert_eq!(a[2].as_i64(), None);
    assert_eq!(a[3].as_i64(), None);
    assert_eq!(j.get("b").unwrap().str_at("c"), Some("\u{e9}t\u{e9}"));
    assert!(matches!(j.get("n"), Some(Json::Null)));
    assert!(matches!(j.get("t"), Some(Json::Bool(true))));
    assert!(j.get("x").is_none());
    assert!(j.get("a").unwrap().get("0").is_none());
    assert_eq!(j.str_at("a"), None);
    assert_eq!(j.i64_at("b"), None);
    assert!(j.array_at("b").is_none());
}

#[test]
fn what_is_no_document_is_refused() {
    assert!(parse_json("").is_none());
    assert!(parse_json("{").is_none());
    assert!(parse_json("{} x").is_none());
    assert!(parse_json("3").is_some());
}

#[test]
fn the_last_of_equal_members_counts() {
    assert_eq!(json(r#"{"a": 1, "a": 2}"#).i64_at("a"), Some(2));
}

#[test]
fn hand_made_documents_read_alike() {
    let j = Json::Members(vec![
        ("price".to_string(), Json::Text("2.5".to_string())),
        ("size".to_string(), Json::Text("4".to_string())),
    ]);
    assert_eq!(parse_levels(&Machine, &[j]), vec![(d(2.5), d(4.0))]);
}

// ---------------------------------------------------------------------------
// Levels
// ---------------------------------------------------------------------------

#[test]
fn named_levels_without_a_number_are_dropped() {
    let j = json(
        r#"[{"price": "1.5", "size": "2"}, {"price": "x", "size": "2"}, {"price": "1"},
            {"size": "1"}, {"price": 1, "size": 2}, 7, {"price": "3", "size": "0"}]"#,
    );
    let items = j.as_array().unwrap();
    assert_eq!(parse_levels(&Machine, items), vec![(d(1.5), d(2.0)), (d(3.0), d(0.0))]);
}

#[test]
fn paired_levels_take_zero_for_what_cannot_be_read() {
    let j = json(r#"[["1.5", "2"], ["x", "2"], ["1"], [1, 2], ["3", "4", "5"], {"a": 1}]"#);
    let items = j.as_array().unwrap();
    assert_eq!(
        read_pairs(&Machine, items),
        vec![(d(1.5), d(2.0)), (d(0.0), d(2.0)), (d(0.0), d(0.0)), (d(3.0), d(4.0))]
    );
}

// ---------------------------------------------------------------------------
// Backoff
// ---------------------------------------------------------------------------

#[test]
fn delays_double_up_to_the_limit() {
    let mut b = Backoff::new(2, 60);
    let delays: Vec<u64> = (0..7).map(|_| b.next_delay()).collect();
    assert_eq!(delays, vec![2, 4, 8, 16, 32, 60, 60]);
    b.reset();
    assert_eq!(b.next_delay(), 2);
    let mut high = Backoff::new(100, 60);
    assert_eq!(high.next_delay(), 100);
    assert_eq!(high.next_delay(), 60);
}

// ---------------------------------------------------------------------------
// Symbols
// ---------------------------------------------------------------------------

#[test]
fn modest_delays_never_overflow() {
    let mut b = Backoff::new(u64::MAX / 2, u64::MAX / 2);
    for _ in 0..5 {
        assert_eq!(b.next_delay(), u64::MAX / 2);
    }
}

#[test]
fn symbols_are_mapped() {
    for (from, to) in [
        ("BTC", "btcusdt"),
        ("btc", "btcusdt"),
        ("Eth", "ethusdt"),
        ("SOL", "solusdt"),
        ("PAXG", "paxgusdt"),
        ("crv", "crvusdt"),
        ("DOGE", "dogeusdt"),
        ("1000Pepe", "1000pepeusdt"),
        ("", "usdt"),
        ("\u{df}", "ssusdt"),
        ("\u{e9}T\u{c9}", "\u{e9}t\u{e9}usdt"),
    ] {
        assert_eq!(lighter_to_binance_symbol(from), Some(to.to_string()), "{}", from);
    }
    assert_eq!(lighter_to_binance_symbol("ASTER"), None);
    assert_eq!(lighter_to_binance_symbol("aster"), None);
    assert_eq!(binance_symbol_for("XYZ", "xyz"), Some("xyzusdt".to_string()));
    assert_eq!(binance_symbol_for("BTC", "other"), Some("btcusdt".to_string()));
}

// ---------------------------------------------------------------------------
// Best prices
// ---------------------------------------------------------------------------

fn is_receive(a: &FeedAction) -> bool {
    matches!(a, FeedAction::Receive)
}

#[test]
fn best_prices_are_passed_on() {
    let mut s = BboSession::new("btcusdt");
    assert_eq!(s.url(), "wss://fstream.binance.com/ws/btcusdt@bookTicker");
    s.on_connected();
    let a = s.on_frame(
        &Machine,
        &text(r#"{"u": 7, "b": "100.5", "a": "101", "B": "3", "A": "4"}"#),
    );
    match a {
        FeedAction::Deliver(BinanceMsg::BboUpdate {
            best_bid,
            best_ask,
            bid_qty,
            ask_qty,
            update_id,
        }) => {
            assert_eq!((f(best_bid), f(best_ask)), (100.5, 101.0));
            assert_eq!((f(bid_qty), f(ask_qty)), (3.0, 4.0));
            assert_eq!(update_id, 7);
        }
        other => panic!("{:?}", other),
    }
}

#[test]
fn bad_best_prices_are_passed_over() {
    let mut s = BboSession::new("btcusdt");
    for t in [
        "no document",
        r#"{"b": "100.5", "a": "101", "B": "3", "A": "4"}"#,
        r#"{"u": 7, "b": "101", "a": "101", "B": "3", "A": "4"}"#,
        r#"{"u": 7, "b": "102", "a": "101", "B": "3", "A": "4"}"#,
        r#"{"u": 7, "b": "0", "a": "101", "B": "3", "A": "4"}"#,
        r#"{"u": 7, "b": "-2", "a": "-1", "B": "3", "A": "4"}"#,
        r#"{"u": 7, "b": "x", "a": "101", "B": "3", "A": "4"}"#,
        r#"{"u": 7, "b": 100, "a": "101", "B": "3", "A": "4"}"#,
        r#"{"u": "7", "b": "100", "a": "101", "B": "3", "A": "4"}"#,
        r#"{"u": 7, "b": "100", "a": "101", "B": "3"}"#,
    ] {
        assert!(is_receive(&s.on_frame(&Machine, &text(t))), "{}", t);
    }
    assert!(is_receive(&s.on_frame(&Machine, &Frame::Pong)));
    assert!(is_receive(&s.on_frame(&Machine, &Frame::Other)));
    assert!(bbo_update(Some(d(1.0)), Some(d(2.0)), Some(d(1.0)), None, Some(1)).is_none());
    assert!(bbo_update(Some(d(1.0)), Some(d(2.0)), Some(d(-1.0)), Some(d(0.0)), Some(1)).is_some());
}

fn reconnects(a: FeedAction) -> (Option<&'static str>, u64) {
    match a {
        FeedAction::Reconnect { notice: None, delay_secs } => (None, delay_secs),
        FeedAction::Reconnect { notice: Some(BinanceMsg::Disconnected { feed }), delay_secs } => {
            (Some(feed), delay_secs)
        }
        other => panic!("{:?}", other),
    }
}

#[test]
fn lost_best_price_feeds_are_announced() {
    let mut s = BboSession::new("btcusdt");
    assert_eq!(reconnects(s.on_connect_failed()), (None, 2));
    assert_eq!(reconnects(s.on_connect_failed()), (None, 4));
    s.on_connected();
    assert_eq!(reconnects(s.on_frame(&Machine, &Frame::Close)), (Some("bbo"), 2));
    assert_eq!(reconnects(s.on_frame(&Machine, &Frame::Ended)), (Some("bbo"), 4));
    assert_eq!(reconnects(s.on_frame(&Machine, &Frame::Failed)), (Some("bbo"), 8));
    assert_eq!(reconnects(s.on_frame(&Machine, &Frame::Silent)), (Some("bbo"), 16));
}

// ---------------------------------------------------------------------------
// Depth
// ---------------------------------------------------------------------------

#[test]
fn snapshots_replace_a_book() {
    let mut bids = BookSide::new();
    let mut asks = BookSide::new();
    let mut id = 1;
    bids.insert(d(1.0), d(1.0));
    let data = json(
        r#"{"lastUpdateId": 42, "bids": [["100", "1"], ["99", "0"], ["98", "2"], ["97"]],
            "asks": [["101", "3"], ["102", "-1"]]}"#,
    );
    apply_binance_snapshot(&Machine, &data, &mut bids, &mut asks, &mut id);
    assert_eq!(id, 42);
    assert_eq!(bids.len(), 2);
    assert_eq!(bids.get(d(98.0)), Some(d(2.0)));
    assert_eq!(asks.len(), 1);
    apply_binance_snapshot(&Machine, &json("{}"), &mut bids, &mut asks, &mut id);
    assert_eq!((id, bids.len(), asks.len()), (0, 0, 0));
}

#[test]
fn changes_are_applied_to_a_book() {
    let mut bids = BookSide::new();
    let mut asks = BookSide::new();
    bids.insert(d(100.0), d(1.0));
    bids.insert(d(99.0), d(1.0));
    let event = json(r#"{"b": [["100", "0"], ["99", "5"], ["98", "-1"]], "a": [["101", "2"]]}"#);
    apply_binance_diff(&Machine, &event, &mut bids, &mut asks);
    assert_eq!(bids.get(d(100.0)), None);
    assert_eq!(bids.get(d(99.0)), Some(d(5.0)));
    assert_eq!(bids.get(d(98.0)), Some(d(-1.0)));
    assert_eq!(asks.get(d(101.0)), Some(d(2.0)));
    apply_binance_diff(&Machine, &json("{}"), &mut bids, &mut asks);
    assert_eq!((bids.len(), asks.len()), (2, 1));
}

const SNAPSHOT: &str =
    r#"{"lastUpdateId": 10, "bids": [["100", "1"]], "asks": [["102", "1"]]}"#;

fn session() -> DepthSession {
    let mut s = DepthSession::new("BTCusdt", 100, d(0.5), 1000);
    s.begin();
    s.on_connected();
    s
}

#[test]
fn depth_addresses_are_built() {
    let s = session();
    assert_eq!(s.url(), "wss://fstream.binance.com/ws/btcusdt@depth@100ms");
    assert_eq!(
        s.snapshot_url(),
        "https://fapi.binance.com/fapi/v1/depth?symbol=BTCUSDT&limit=1000"
    );
}

#[test]
fn an_empty_buffer_goes_live_at_once() {
    let mut s = session();
    assert_eq!(s.on_snapshot_text(&Machine, Some(SNAPSHOT)), SyncOutcome::Live);
    // Nothing was applied yet, so any event is taken as the first
    let a = s.on_frame(&Machine, &text(r#"{"U": 90, "u": 95, "pu": 89, "b": [["100", "3"]]}"#));
    // A single imbalance has no deviation
    assert!(matches!(a, FeedAction::Deliver(BinanceMsg::AlphaUpdate { alpha }) if f(alpha) == 0.0));
    // From then on the sequence counts
    let a = s.on_frame(&Machine, &text(r#"{"U": 96, "u": 97, "pu": 95, "b": [["100", "5"]]}"#));
    // Imbalances 3 - 1 and 5 - 1: mean 3, deviation 1
    assert!(matches!(a, FeedAction::Deliver(BinanceMsg::AlphaUpdate { alpha }) if f(alpha) == 1.0));
    let a = s.on_frame(&Machine, &text(r#"{"U": 99, "u": 99, "pu": 98}"#));
    assert_eq!(reconnects(a), (Some("depth"), 2));
}

#[test]
fn buffered_events_are_aligned_with_the_snapshot() {
    let mut s = session();
    // Old, then covering the next update, then newer
    for t in [
        r#"{"U": 1, "u": 10, "b": [["100", "50"]]}"#,
        r#"{"U": 9, "u": 12, "b": [["100", "3"]]}"#,
        r#"{"U": 13, "u": 14, "b": [["100", "4"]]}"#,
        r#"{"U": 2, "u": 3, "b": [["100", "60"]]}"#,
        r#"{"other": 1}"#,
    ] {
        assert!(s.on_early_frame(&text(t)));
    }
    assert!(s.on_early_frame(&text("no document")));
    assert!(!s.on_early_frame(&Frame::Silent));
    assert!(!s.on_early_frame(&Frame::Close));
    assert_eq!(s.on_snapshot_text(&Machine, Some(SNAPSHOT)), SyncOutcome::Live);
    // The live stream has to follow on the last event applied
    assert!(is_receive(&s.on_frame(&Machine, &text(r#"{"e": "no event"}"#))));
    assert!(is_receive(&s.on_frame(&Machine, &text("no document"))));
    assert!(is_receive(&s.on_frame(&Machine, &Frame::Other)));
    let a = s.on_frame(&Machine, &text(r#"{"U": 15, "u": 16, "pu": 14, "a": [["102", "0"]]}"#));
    // Without asks there is no alpha
    assert!(is_receive(&a));
    let a = s.on_frame(&Machine, &text(r#"{"U": 17, "u": 17, "pu": 16, "a": [["101", "1"]]}"#));
    assert!(matches!(a, FeedAction::Deliver(BinanceMsg::AlphaUpdate { .. })));
    let a = s.on_frame(&Machine, &text(r#"{"U": 19, "u": 19, "pu": 18, "a": [["101", "1"]]}"#));
    assert_eq!(reconnects(a), (Some("depth"), 2));
}

#[test]
fn a_buffer_that_misses_the_snapshot_restarts() {
    let mut s = session();
    assert!(s.on_early_frame(&text(r#"{"U": 12, "u": 13, "b": [["100", "3"]]}"#)));
    assert_eq!(s.on_snapshot_text(&Machine, Some(SNAPSHOT)), SyncOutcome::Restart);
    // A new attempt knows nothing of the old one
    s.begin();
    assert_eq!(s.on_snapshot_text(&Machine, Some(SNAPSHOT)), SyncOutcome::Live);
}

#[test]
fn nothing_is_carried_over_a_reconnect() {
    let mut s = session();
    let alphas = |s: &mut DepthSession| -> Vec<f64> {
        assert_eq!(s.on_snapshot_text(&Machine, Some(SNAPSHOT)), SyncOutcome::Live);
        assert_eq!((s.last_update_id(), s.level_counts()), (10, (1, 1)));
        (0..4)
            .map(|i| {
                let t = format!(
                    r#"{{"U": {0}, "u": {0}, "pu": {1}, "b": [["100", "{0}"]]}}"#,
                    11 + i * i,
                    s.expected_id()
                );
                match s.on_frame(&Machine, &text(&t)) {
                    FeedAction::Deliver(BinanceMsg::AlphaUpdate { alpha }) => f(alpha),
                    other => panic!("{:?}", other),
                }
            })
            .collect()
    };
    let first = alphas(&mut s);
    assert_eq!(first[0], 0.0);
    assert_eq!(first[1], 1.0);
    s.on_frame(&Machine, &Frame::Ended);
    s.begin();
    s.on_connected();
    assert_eq!(alphas(&mut s), first);
}

#[test]
fn an_event_applied_twice_is_applied_once() {
    let event = json(r#"{"b": [["100", "0"], ["99", "5"], ["99.0", "6"]], "a": [["101", "2"]]}"#);
    let mut bids = BookSide::new();
    let mut asks = BookSide::new();
    bids.insert(d(100.0), d(1.0));
    apply_binance_diff(&Machine, &event, &mut bids, &mut asks);
    let (b, a) = (bids.ascending(), asks.ascending());
    apply_binance_diff(&Machine, &event, &mut bids, &mut asks);
    assert_eq!((bids.ascending(), asks.ascending()), (b, a));
}

#[test]
fn a_missing_snapshot_is_retried_later() {
    let mut s = session();
    assert_eq!(s.on_snapshot_text(&Machine, None), SyncOutcome::Retry { delay_secs: 2 });
    assert_eq!(s.on_snapshot_text(&Machine, Some("x")), SyncOutcome::Retry { delay_secs: 4 });
    assert_eq!(s.on_snapshot(&Machine, None), SyncOutcome::Retry { delay_secs: 8 });
    assert_eq!(reconnects(s.on_connect_failed()), (None, 16));
    s.on_connected();
    assert_eq!(reconnects(s.on_frame(&Machine, &Frame::Ended)), (Some("depth"), 2));
}

#[test]
fn a_book_about_zero_has_no_alpha() {
    let mut s = session();
    let zero = r#"{"lastUpdateId": 1, "bids": [["-1", "1"]], "asks": [["1", "1"]]}"#;
    assert_eq!(s.on_snapshot_text(&Machine, Some(zero)), SyncOutcome::Live);
    assert!(is_receive(&s.on_frame(&Machine, &text(r#"{"U": 2, "u": 2}"#))));
}

#[test]
fn events_made_by_hand_are_taken_alike() {
    let mut s = session();
    let event = Json::Members(vec![
        ("U".to_string(), Json::Number(Some(11))),
        ("u".to_string(), Json::Number(Some(11))),
    ]);
    s.keep(event);
    assert_eq!(s.on_snapshot(&Machine, Some(&json(SNAPSHOT))), SyncOutcome::Live);
    let a = s.on_event(&Machine, &json(r#"{"U": 12, "u": 12, "pu": 10}"#));
    assert_eq!(reconnects(a), (Some("depth"), 2));
}

// ---------------------------------------------------------------------------
// Lighter
// ---------------------------------------------------------------------------

fn lighter(t: &str) -> LighterAction {
    on_document(&Machine, &json(t))
}

#[test]
fn lighter_pings_are_answered() {
    match lighter(r#"{"type": "ping"}"#) {
        LighterAction::Reply(answer) => assert_eq!(answer, r#"{"type":"pong"}"#),
        other => panic!("{:?}", other),
    }
}

#[test]
fn lighter_subscriptions_are_noted() {
    match lighter(r#"{"type": "subscribed", "channel": "ticker/1"}"#) {
        LighterAction::Subscribed { channel } => assert_eq!(channel, "ticker/1"),
        other => panic!("{:?}", other),
    }
    match lighter(r#"{"type": "subscribed"}"#) {
        LighterAction::Subscribed { channel } => assert_eq!(channel, "?"),
        other => panic!("{:?}", other),
    }
}

#[test]
fn lighter_books_are_passed_on() {
    let t = r#"{"type": "update/order_book", "order_book":
        {"bids": [{"price": "1.5", "size": "2"}, {"price": "?"}], "asks": 3}}"#;
    match lighter(t) {
        LighterAction::Deliver(LighterWsMsg::OrderbookUpdate { bids, asks }) => {
            assert_eq!(bids, vec![(d(1.5), d(2.0))]);
            assert_eq!(asks, vec![]);
        }
        other => panic!("{:?}", other),
    }
    assert!(matches!(lighter(r#"{"type": "order_book"}"#), LighterAction::Receive));
}

#[test]
fn lighter_tickers_are_passed_on() {
    match lighter(r#"{"type": "ticker", "ticker": {"best_bid_price": "7", "best_ask_price": "x"}}"#) {
        LighterAction::Deliver(LighterWsMsg::TickerUpdate { best_bid, best_ask }) => {
            assert_eq!((f(best_bid), f(best_ask)), (7.0, 0.0));
        }
        other => panic!("{:?}", other),
    }
    for t in [
        r#"{"type": "ticker", "ticker": {"best_bid_price": "0", "best_ask_price": "-1"}}"#,
        r#"{"type": "ticker", "ticker": 1}"#,
        r#"{"type": "ticker"}"#,
        r#"{"type": "tick", "ticker": {"best_bid_price": "7"}}"#,
        r#"{"type": 1, "ticker": {"best_bid_price": "7"}}"#,
        "[]",
    ] {
        assert!(matches!(lighter(t), LighterAction::Receive), "{}", t);
    }
    assert!(matches!(on_ticker_prices(d(0.0), d(2.0)), LighterAction::Deliver(_)));
    assert!(matches!(on_ticker_prices(d(f64::NAN), d(0.0)), LighterAction::Receive));
}

#[test]
fn lighter_subscribes_to_both_channels() {
    let mut s = LighterSession::new(-3, 1, 8);
    let messages = s.on_connected();
    assert_eq!(messages.len(), 2);
    for (message, channel) in messages.iter().zip(["order_book/-3", "ticker/-3"]) {
        assert_eq!(message, &subscribe_message(channel));
        let j = json(message);
        assert_eq!(j.str_at("type"), Some("subscribe"));
        assert_eq!(j.str_at("channel"), Some(channel));
        let expected: serde_json::Value = serde_json::from_str(message).unwrap();
        assert_eq!(expected.as_object().unwrap().len(), 2);
    }
    assert_eq!(LighterSession::url(), "wss://mainnet.zklighter.elliot.ai/stream");
    let j = json(&subscribe_message("a\"b\\c\n"));
    assert_eq!(j.str_at("channel"), Some("a\"b\\c\n"));
}

fn lighter_reconnects(a: LighterAction) -> (bool, u64) {
    match a {
        LighterAction::Reconnect { notice: None, delay_secs } => (false, delay_secs),
        LighterAction::Reconnect { notice: Some(LighterWsMsg::Disconnected), delay_secs } => {
            (true, delay_secs)
        }
        other => panic!("{:?}", other),
    }
}

#[test]
fn lost_lighter_feeds_are_announced() {
    let mut s = LighterSession::new(1, 1, 8);
    assert_eq!(lighter_reconnects(s.on_connect_failed()), (false, 1));
    assert!(s.can_wait());
    s.on_waited();
    assert_eq!(lighter_reconnects(s.on_send_failed()), (true, 2));
    s.on_waited();
    assert_eq!(lighter_reconnects(s.on_frame(&Machine, &Frame::Close)), (true, 4));
    s.on_waited();
    assert_eq!(lighter_reconnects(s.on_frame(&Machine, &Frame::Silent)), (true, 8));
    s.on_waited();
    assert_eq!(lighter_reconnects(s.on_frame(&Machine, &Frame::Failed)), (true, 8));
    s.on_connected();
    assert!(matches!(s.on_frame(&Machine, &Frame::Pong), LighterAction::Receive));
    assert!(matches!(s.on_frame(&Machine, &text("no document")), LighterAction::Receive));
    assert!(matches!(s.on_frame(&Machine, &text(r#"{"type":"ping"}"#)), LighterAction::Reply(_)));
    assert_eq!(lighter_reconnects(s.on_frame(&Machine, &Frame::Ended)), (true, 1));
    let far = LighterSession::new(1, u64::MAX, 8);
    assert!(!far.can_wait());
    assert_eq!(lighter_reconnects(far.on_frame(&Machine, &Frame::Ended)), (true, u64::MAX));
}

#[test]
fn every_frame_but_a_loss_restarts_the_watchdog() {
    assert!(restarts_watchdog(&text("")));
    assert!(restarts_watchdog(&Frame::Pong));
    assert!(restarts_watchdog(&Frame::Other));
    assert!(!restarts_watchdog(&Frame::Close));
    assert!(!restarts_watchdog(&Frame::Failed));
    assert!(!restarts_watchdog(&Frame::Ended));
    assert!(!restarts_watchdog(&Frame::Silent));
}
