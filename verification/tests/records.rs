//! Orders, the trade log, markets and text.
use marketmaker::arithmetic::Arithmetic;
use marketmaker::double::Double;
use marketmaker::market_info::{
    details_of, fallback_tick_size, find_market, get_market_details, known_tick_size, MarketError,
    OrderBookInfo,
};
use marketmaker::order_manager::{
    Action, BatchOp, OrderManager, OrderState, Side, SideOrderLifecycle, SideStatus,
};
use marketmaker::text::{
    append_decimal, append_signed, chars_of, contains_text, same_ignoring_ascii_case, same_text,
};
use marketmaker::trade_log::{
    continue_clear, file_name, header, needs_header, temp_file_name, ClearStage, Fill, FlushStage,
    TradeLogger,
};
use std::path::{Path, PathBuf};
use std::time::Instant;

/// Doubles computed by the machine.
struct Machine;

fn d(x: f64) -> Double {
    Double::from_bits(x.to_bits())
}

fn f(x: Double) -> f64 {
    f64::from_bits(x.to_bits())
}

impl Arithmetic for Machine {
    fn plus(&self, a: Double, b: Double) -> Double {
        d(f(a) + f(b))
    }

    fn minus(&self, a: Double, b: Double) -> Double {
        d(f(a) - f(b))
    }

    fn times(&self, a: Double, b: Double) -> Double {
        d(f(a) * f(b))
    }

    fn over(&self, a: Double, b: Double) -> Double {
        d(f(a) / f(b))
    }

    fn root(&self, a: Double) -> Double {
        d(f(a).sqrt())
    }

    fn floor(&self, a: Double) -> Double {
        d(f(a).floor())
    }

    fn ceil(&self, a: Double) -> Double {
        d(f(a).ceil())
    }

    fn from_integer(&self, n: u64) -> Double {
        d(n as f64)
    }

    fn power_of_ten(&self, exponent: i32) -> Double {
        d(10.0_f64.powi(exponent))
    }

    fn parse(&self, text: &str) -> Option<Double> {
        text.parse::<f64>().ok().map(d)
    }

    fn fixed(&self, a: Double, decimals: usize) -> String {
        format!("{:.*}", decimals, f(a))
    }
}

// ---------------------------------------------------------------------------
// Orders
// ---------------------------------------------------------------------------

#[test]
fn sides_have_names() {
    assert_eq!(Side::Buy.as_str(), "buy");
    assert_eq!(Side::Sell.as_str(), "sell");
    assert_eq!(Side::Buy.to_string(), "buy");
    assert_eq!(Side::Sell.to_string(), "sell");
    let op = BatchOp {
        side: Side::Sell,
        level: 1,
        action: Action::Modify,
        price: d(1.0),
        size: d(2.0),
        order_id: 3,
        exchange_id: 4,
    };
    assert_eq!(op.action, Action::Modify);
}

#[test]
fn new_managers_are_idle() {
    let m = OrderManager::new(3);
    let o = OrderState::new(3);
    for level in 0..3 {
        for side in [Side::Buy, Side::Sell] {
            let lc = m.lifecycle(side, level);
            assert_eq!(lc.status, SideStatus::Idle);
            assert_eq!(lc.pending_order_id, None);
            assert_eq!(lc.target_price, None);
            assert_eq!(lc.target_size, None);
        }
    }
    assert_eq!(o.bid_order_ids, vec![None; 3]);
    assert_eq!(o.ask_sizes, vec![None; 3]);
    assert_eq!(SideOrderLifecycle::default().status, SideStatus::Idle);
}

#[test]
fn binding_and_clearing_an_order() {
    let mut m = OrderManager::new(2);
    let mut o = OrderState::new(2);
    m.bind_live(&mut o, Side::Sell, 77, d(10.5), d(2.0), 1);
    assert_eq!(o.ask_order_ids, vec![None, Some(77)]);
    assert_eq!(o.ask_prices, vec![None, Some(d(10.5))]);
    assert_eq!(o.ask_sizes, vec![None, Some(d(2.0))]);
    assert_eq!(o.bid_order_ids, vec![None, None]);
    assert_eq!(m.lifecycle(Side::Sell, 1).status, SideStatus::Live);
    assert_eq!(m.lifecycle(Side::Sell, 1).target_price, Some(d(10.5)));
    assert_eq!(m.lifecycle(Side::Sell, 1).target_size, Some(d(2.0)));
    assert_eq!(m.lifecycle(Side::Sell, 0).status, SideStatus::Idle);
    assert_eq!(m.lifecycle(Side::Buy, 1).status, SideStatus::Idle);
    m.clear_live(&mut o, Side::Sell, 1);
    assert_eq!(o.ask_order_ids, vec![None, None]);
    assert_eq!(o.ask_prices, vec![None, None]);
    assert_eq!(o.ask_sizes, vec![None, None]);
    assert_eq!(m.lifecycle(Side::Sell, 1).status, SideStatus::Idle);
    assert_eq!(m.lifecycle(Side::Sell, 1).target_price, None);
}

#[test]
fn clearing_all_levels() {
    let mut m = OrderManager::new(2);
    let mut o = OrderState::new(2);
    for level in 0..2 {
        m.bind_live(&mut o, Side::Buy, level as i64, d(1.0), d(1.0), level);
        m.bind_live(&mut o, Side::Sell, level as i64, d(2.0), d(1.0), level);
    }
    m.clear_all(&mut o);
    assert_eq!(o.bid_order_ids, vec![None, None]);
    assert_eq!(o.bid_prices, vec![None, None]);
    assert_eq!(o.bid_sizes, vec![None, None]);
    assert_eq!(o.ask_order_ids, vec![None, None]);
    for level in 0..2 {
        assert_eq!(m.lifecycle(Side::Buy, level).status, SideStatus::Idle);
        assert_eq!(m.lifecycle(Side::Sell, level).status, SideStatus::Idle);
    }
}

#[test]
fn marking_keeps_the_pending_order_and_takes_the_time() {
    let mut m = OrderManager::new(1);
    m.bids[0].pending_order_id = Some(5);
    let before = Instant::now();
    m.mark_status(Side::Buy, SideStatus::Placing, 0, Some(d(3.0)), None);
    let lc = m.lifecycle(Side::Buy, 0);
    assert_eq!(lc.status, SideStatus::Placing);
    assert_eq!(lc.pending_order_id, Some(5));
    assert_eq!(lc.target_price, Some(d(3.0)));
    assert_eq!(lc.target_size, None);
    assert!(lc.updated_at >= before);
    m.mark_status_at(Side::Buy, SideStatus::Canceling, 0, None, Some(d(1.0)), before);
    assert_eq!(m.lifecycle(Side::Buy, 0).updated_at, before);
    assert_eq!(m.lifecycle(Side::Buy, 0).status, SideStatus::Canceling);
}

// ---------------------------------------------------------------------------
// Trade log
// ---------------------------------------------------------------------------

fn fill() -> Fill {
    Fill {
        price: d(87000.125),
        size: d(0.5),
        level: 12,
        position_after: d(-1.25),
        realized_pnl: d(3.0),
        available_capital: d(1000.006),
        portfolio_value: d(999.0),
        simulated: true,
    }
}

const ROW: &str =
    "BTC,buy,87000.1250000000,0.500000,12,-1.250000,3.0000,1000.01,999.00,true\n";

#[test]
fn rows_are_buffered() {
    let mut log = TradeLogger::new(Path::new("/logs"), "BTC");
    assert_eq!(log.path(), &PathBuf::from("/logs/trades_BTC.csv"));
    assert!(log.pending().is_empty());
    log.log_row(&Machine, "T", "buy", fill());
    assert_eq!(String::from_utf8(log.pending().clone()).unwrap(), format!("T,{}", ROW));
    let columns = header().trim_end().split(',').count();
    assert_eq!(format!("T,{}", ROW).trim_end().split(',').count(), columns);
}

#[test]
fn rows_carry_the_time() {
    let mut log = TradeLogger::new(Path::new("x"), "BTC");
    assert!(log.log_fill_at(&Machine, 947638923004, "buy", fill()));
    let row = String::from_utf8(log.pending().clone()).unwrap();
    assert_eq!(row, format!("2000-01-12T01:02:03.004Z,{}", ROW));
    // Beyond the calendar nothing is written
    assert!(!log.log_fill_at(&Machine, i64::MAX, "buy", fill()));
    assert_eq!(log.pending().len(), row.len());
}

#[test]
fn fills_are_stamped_with_the_present() {
    let mut log = TradeLogger::new(Path::new("x"), "ETH");
    log.log_fill(
        &Machine,
        "sell",
        d(1.0),
        d(2.0),
        3,
        d(4.0),
        d(5.0),
        d(6.0),
        d(7.0),
        false,
    );
    let row = String::from_utf8(log.pending().clone()).unwrap();
    let (time, rest) = row.split_once(',').unwrap();
    assert_eq!(time.len(), "2000-01-12T01:02:03.004Z".len());
    assert!(time.starts_with("20") && time.ends_with('Z'));
    assert_eq!(rest, "ETH,sell,1.0000000000,2.000000,3,4.000000,5.0000,6.00,7.00,false\n");
}

fn logged() -> TradeLogger {
    let mut log = TradeLogger::new(Path::new("x"), "BTC");
    log.log_row(&Machine, "T", "buy", fill());
    log
}

#[test]
fn flushes_go_through_the_temporary_file() {
    let mut log = logged();
    assert_eq!(log.flush(), FlushStage::WriteTemp);
    let bytes = log.with_rows(b"head\n");
    assert_eq!(String::from_utf8(bytes).unwrap(), format!("head\nT,{}", ROW));
    assert_eq!(log.continue_flush(FlushStage::WriteTemp, true), FlushStage::ReplaceLog);
    assert!(!log.pending().is_empty());
    assert_eq!(log.continue_flush(FlushStage::ReplaceLog, true), FlushStage::Finished);
    assert!(log.pending().is_empty());
    assert_eq!(log.flush(), FlushStage::Finished);
    assert_eq!(log.continue_flush(FlushStage::Finished, true), FlushStage::Finished);
    assert_eq!(log.with_rows(b"head\n"), b"head\n".to_vec());
}

#[test]
fn failed_flushes_keep_the_rows() {
    let mut log = logged();
    let rows = log.pending().clone();
    assert_eq!(log.continue_flush(FlushStage::WriteTemp, false), FlushStage::Abandoned);
    assert_eq!(log.pending(), &rows);
    assert_eq!(log.continue_flush(FlushStage::ReplaceLog, false), FlushStage::Abandoned);
    assert_eq!(log.pending(), &rows);
    assert_eq!(log.continue_flush(FlushStage::Abandoned, true), FlushStage::Abandoned);
    assert_eq!(log.pending(), &rows);
}

/// Runs a flush on a log in memory whose temporary file takes `room` bytes at
/// most.
fn flush_into(log: &mut TradeLogger, file: &mut Vec<u8>, room: usize, can_replace: bool) {
    let mut temp: Vec<u8> = Vec::new();
    let mut stage = log.flush();
    loop {
        let succeeded = match stage {
            FlushStage::WriteTemp => {
                let bytes = log.with_rows(file);
                temp = bytes[..bytes.len().min(room)].to_vec();
                temp.len() == bytes.len()
            }
            FlushStage::ReplaceLog => {
                if can_replace {
                    *file = temp.clone();
                }
                can_replace
            }
            FlushStage::Finished | FlushStage::Abandoned => return,
        };
        stage = log.continue_flush(stage, succeeded);
    }
}

#[test]
fn the_log_never_holds_a_part_of_the_rows() {
    let before = header().as_bytes().to_vec();
    let rows = logged().pending().clone();
    let whole = [before.clone(), rows.clone()].concat();
    for room in 0..=whole.len() {
        for can_replace in [true, false] {
            let mut log = logged();
            let mut file = before.clone();
            flush_into(&mut log, &mut file, room, can_replace);
            if room == whole.len() && can_replace {
                assert_eq!(file, whole);
                assert!(log.pending().is_empty());
            } else {
                assert_eq!(file, before);
                assert_eq!(log.pending(), &rows);
                // The next attempt writes each row once
                flush_into(&mut log, &mut file, usize::MAX, true);
                assert_eq!(file, whole);
            }
        }
    }
}

#[test]
fn cleared_logs_hold_the_header_alone() {
    let mut log = logged();
    assert_eq!(log.clear(true), ClearStage::RemoveLog);
    assert!(log.pending().is_empty());
    assert_eq!(log.flush(), FlushStage::Finished);
    assert_eq!(continue_clear(ClearStage::RemoveLog, true), ClearStage::WriteHeader);
    assert_eq!(continue_clear(ClearStage::WriteHeader, true), ClearStage::Finished);
    assert_eq!(log.clear(false), ClearStage::WriteHeader);
    for stage in [ClearStage::RemoveLog, ClearStage::WriteHeader, ClearStage::Abandoned] {
        assert_eq!(continue_clear(stage, false), ClearStage::Abandoned);
    }
    assert_eq!(continue_clear(ClearStage::Finished, false), ClearStage::Finished);
}

#[test]
fn logs_stand_in_their_directory() {
    let mut log = TradeLogger::new(Path::new("logs"), "BTC");
    let path = Path::new("logs").join("trades_BTC.csv");
    assert_eq!(log.path(), &path);
    log.log_row(&Machine, "T", "buy", fill());
    log.continue_flush(FlushStage::ReplaceLog, true);
    log.clear(true);
    assert_eq!(log.path(), &path);
}

#[test]
fn log_files_have_names_and_headers() {
    assert_eq!(file_name("BTC"), "trades_BTC.csv");
    assert_eq!(temp_file_name(4321), ".tmp_trades_4321");
    assert!(needs_header(false, None));
    assert!(needs_header(true, Some(0)));
    assert!(needs_header(true, None));
    assert!(!needs_header(true, Some(1)));
    assert_eq!(
        header(),
        "timestamp,symbol,side,price,size,level,position_after,realized_pnl,available_capital,portfolio_value,simulated\n"
    );
}

// ---------------------------------------------------------------------------
// Markets
// ---------------------------------------------------------------------------

fn book(id: i64, symbol: Option<&str>) -> OrderBookInfo {
    OrderBookInfo {
        market_id: id,
        symbol: symbol.map(|s| s.to_string()),
        supported_price_decimals: None,
        supported_size_decimals: None,
        min_base_amount: None,
        min_quote_amount: None,
    }
}

#[test]
fn listed_markets_are_described() {
    let mut b = book(7, Some("eth"));
    b.supported_price_decimals = Some(2);
    b.supported_size_decimals = Some(-1);
    b.min_base_amount = Some("0.005".to_string());
    b.min_quote_amount = Some("ten".to_string());
    let books = [book(1, None), book(2, Some("BTC")), b, book(8, Some("ETH"))];
    let details = get_market_details(&Machine, "Eth", &books).unwrap();
    assert_eq!(details.market_id, 7);
    assert_eq!(f(details.price_tick), 10.0_f64.powi(-2));
    assert_eq!(f(details.amount_tick), 10.0);
    assert_eq!(f(details.min_base_amount), 0.005);
    assert_eq!(f(details.min_quote_amount), 0.0);
    let plain = get_market_details(&Machine, "btc", &books).unwrap();
    assert_eq!(plain.market_id, 2);
    assert_eq!(f(plain.price_tick), 10.0_f64.powi(-1));
    assert_eq!(f(plain.amount_tick), 10.0_f64.powi(-4));
    assert_eq!(find_market(&books, "ETH"), Some(2));
    assert_eq!(find_market(&books, "XRP"), None);
    assert_eq!(details_of(&Machine, &books[1]), plain);
}

#[test]
fn known_markets_have_fallback_ticks() {
    for (symbol, price, amount) in
        [("btc", 0.1, 0.0001), ("Eth", 0.01, 0.001), ("SOL", 0.001, 0.01)]
    {
        assert_eq!(fallback_tick_size(symbol), Some((d(price), d(amount))));
        let details = get_market_details(&Machine, symbol, &[]).unwrap();
        assert_eq!(details.market_id, 0);
        assert_eq!(f(details.price_tick), price);
        assert_eq!(f(details.amount_tick), amount);
        assert_eq!(f(details.min_base_amount), 0.0);
        assert_eq!(f(details.min_quote_amount), 0.0);
    }
    assert_eq!(fallback_tick_size("DOGE"), None);
    assert_eq!(known_tick_size("btc"), None);
}

#[test]
fn unknown_markets_are_errors() {
    let e = get_market_details(&Machine, "Doge", &[book(1, Some("BTC"))]).unwrap_err();
    assert!(matches!(&e, MarketError::NotFound { symbol } if symbol == "Doge"));
    assert_eq!(e.message(), "Market Doge not found and no fallback available");
}

#[test]
fn unusable_decimals_are_errors() {
    let mut b = book(9, Some("BTC"));
    b.supported_price_decimals = Some(0x1_8000_0000);
    let e = get_market_details(&Machine, "BTC", &[b]).unwrap_err();
    assert!(matches!(e, MarketError::UnusableDecimals { market_id: 9 }));
    assert_eq!(e.message(), "Market 9 is listed with an unusable number of decimals");
    let mut b = book(9, Some("BTC"));
    b.supported_size_decimals = Some(0x1_0000_0002);
    let details = get_market_details(&Machine, "BTC", &[b]).unwrap();
    assert_eq!(f(details.amount_tick), 10.0_f64.powi(-2));
}

// ---------------------------------------------------------------------------
// Text
// ---------------------------------------------------------------------------

#[test]
fn texts_are_compared_and_searched() {
    assert!(same_text("a\u{e9}", "a\u{e9}"));
    assert!(!same_text("a", "ab"));
    assert!(!same_text("ab", "aB"));
    assert!(same_ignoring_ascii_case("aBz", "AbZ"));
    assert!(!same_ignoring_ascii_case("\u{e9}", "\u{c9}"));
    assert!(!same_ignoring_ascii_case("[", "{"));
    for (hay, needle) in [("update/order_book", "order_book"), ("aab", "ab"), ("x", ""), ("", "")] {
        assert!(contains_text(hay, needle));
    }
    for (hay, needle) in [("order-book", "order_book"), ("ab", "abc"), ("", "a"), ("abab", "ba ")] {
        assert!(!contains_text(hay, needle));
    }
    assert_eq!(chars_of("a\u{e9}"), vec!['a', '\u{e9}']);
}

#[test]
fn integers_are_written_in_decimal() {
    for n in [0, 9, 10, 99, 1234567890, u64::MAX] {
        let mut s = "x".to_string();
        append_decimal(&mut s, n);
        assert_eq!(s, format!("x{}", n));
    }
    for n in [0, -1, 42, -987, i64::MIN, i64::MAX] {
        let mut s = String::new();
        append_signed(&mut s, n);
        assert_eq!(s, format!("{}", n));
    }
}
