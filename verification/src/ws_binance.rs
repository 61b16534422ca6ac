//! Binance futures feeds: best prices, and an order book kept in step with the
//! exchange.
//!
//! The connections are the caller's. The sessions here are told what came of
//! connecting and reading, and say what to do next.
use crate::arithmetic::Arithmetic;
use crate::double::Double;
use crate::frame::Frame;
use crate::json;
use crate::json::{Json, Tree};
use crate::levels;
use crate::reconnect::Backoff;
use crate::text;
use vstd::prelude::*;

verus! {

/// The delay before the first attempt to reconnect, in seconds.
pub const FIRST_DELAY: u64 = 2;

/// The longest delay before an attempt to reconnect, in seconds.
pub const LONGEST_DELAY: u64 = 60;

/// The Binance symbol for an upper-case symbol, whose lower-case form is
/// `lower`.
pub open spec fn binance_symbol(upper: Seq<char>, lower: Seq<char>) -> Option<Seq<char>> {
    if upper == "BTC"@ {
        Some("btcusdt"@)
    } else if upper == "ETH"@ {
        Some("ethusdt"@)
    } else if upper == "SOL"@ {
        Some("solusdt"@)
    } else if upper == "PAXG"@ {
        Some("paxgusdt"@)
    } else if upper == "CRV"@ {
        Some("crvusdt"@)
    } else if upper == "ASTER"@ {
        None
    } else {
        Some(lower + "usdt"@)
    }
}

/// The text of an optional string.
pub open spec fn text_of(s: Option<String>) -> Option<Seq<char>> {
    match s {
        Some(s) => Some(s@),
        None => None,
    }
}

/// The Binance symbol for an upper-case symbol, whose lower-case form is
/// `lower`.
pub fn binance_symbol_for(upper: &str, lower: &str) -> (r: Option<String>)
    ensures
        text_of(r) == binance_symbol(upper@, lower@),
{
    if text::same_text(upper, "BTC") {
        Some("btcusdt".to_owned())
    } else if text::same_text(upper, "ETH") {
        Some("ethusdt".to_owned())
    } else if text::same_text(upper, "SOL") {
        Some("solusdt".to_owned())
    } else if text::same_text(upper, "PAXG") {
        Some("paxgusdt".to_owned())
    } else if text::same_text(upper, "CRV") {
        Some("crvusdt".to_owned())
    } else if text::same_text(upper, "ASTER") {
        None
    } else {
        let mut symbol = lower.to_owned();
        symbol.append("usdt");
        Some(symbol)
    }
}

/// The Binance symbol of a symbol, where Binance has it.
pub fn lighter_to_binance_symbol(symbol: &str) -> (r: Option<String>)
    ensures
        text_of(r) == binance_symbol(
            text::uppercase(symbol@),
            text::lowercase(text::uppercase(symbol@)),
        ),
        text::is_ascii_text(symbol@) ==> text_of(r) == binance_symbol(
            text::ascii_uppered(symbol@),
            text::ascii_lowered(symbol@),
        ),
{
    let upper = text::to_uppercase(symbol);
    let lower = text::to_lowercase(upper.as_str());
    proof {
        if text::is_ascii_text(symbol@) {
            assert(text::is_ascii_text(text::ascii_uppered(symbol@)));
            assert(text::ascii_lowered(text::ascii_uppered(symbol@)) =~= text::ascii_lowered(
                symbol@,
            ));
        }
    }
    binance_symbol_for(upper.as_str(), lower.as_str())
}

#[derive(Debug)]
pub enum BinanceMsg {
    BboUpdate {
        best_bid: Double,
        best_ask: Double,
        bid_qty: Double,
        ask_qty: Double,
        update_id: i64,
    },
    AlphaUpdate { alpha: Double },
    Disconnected { feed: &'static str },
}

/// What a session asks of its caller.
#[derive(Debug)]
pub enum FeedAction {
    /// Read on.
    Receive,
    /// Pass a message on, then read on.
    Deliver(BinanceMsg),
    /// Drop the connection, pass the notice on if there is one, wait, and
    /// connect again.
    Reconnect { notice: Option<BinanceMsg>, delay_secs: u64 },
}

/// The action that passes a message on, if there is one.
pub open spec fn delivery(msg: Option<BinanceMsg>) -> FeedAction {
    match msg {
        Some(m) => FeedAction::Deliver(m),
        None => FeedAction::Receive,
    }
}

/// The action for a lost connection: its feed is announced as disconnected.
pub open spec fn is_lost(action: FeedAction, feed: Seq<char>, delay: u64) -> bool {
    match action {
        FeedAction::Reconnect {
            notice: Some(BinanceMsg::Disconnected { feed: named }),
            delay_secs,
        } => named@ == feed && delay_secs == delay,
        _ => false,
    }
}

/// The action for a connection that could not be made.
pub open spec fn unreachable_action(delay: u64) -> FeedAction {
    FeedAction::Reconnect { notice: None, delay_secs: delay }
}

/// A backoff between the first and the longest delay.
pub open spec fn feed_backoff(b: Backoff) -> bool {
    b.base == FIRST_DELAY && b.limit == LONGEST_DELAY && b.current <= LONGEST_DELAY
}

/// The numbers of a best-price message.
pub struct BboNumbers {
    pub bid: Option<Double>,
    pub ask: Option<Double>,
    pub bid_qty: Option<Double>,
    pub ask_qty: Option<Double>,
}

/// `n` is a result of reading the numbers of a best-price message.
pub open spec fn reads_bbo<A: Arithmetic>(ops: &A, t: Tree, n: BboNumbers) -> bool {
    &&& levels::is_number_at(ops, t, "b"@, n.bid)
    &&& levels::is_number_at(ops, t, "a"@, n.ask)
    &&& levels::is_number_at(ops, t, "B"@, n.bid_qty)
    &&& levels::is_number_at(ops, t, "A"@, n.ask_qty)
}

/// The update that a best-price message makes: none unless it is complete, with
/// positive prices and the bid below the ask.
pub open spec fn bbo_of(n: BboNumbers, update_id: Option<i64>) -> Option<BinanceMsg> {
    match (n.bid, n.ask, n.bid_qty, n.ask_qty, update_id) {
        (Some(bid), Some(ask), Some(bid_qty), Some(ask_qty), Some(id)) => if Double::zero().below(
            bid,
        ) && Double::zero().below(ask) && bid.below(ask) {
            Some(
                BinanceMsg::BboUpdate {
                    best_bid: bid,
                    best_ask: ask,
                    bid_qty,
                    ask_qty,
                    update_id: id,
                },
            )
        } else {
            None
        },
        _ => None,
    }
}

/// `r` is a result of reading a best-price message.
pub open spec fn is_bbo<A: Arithmetic>(ops: &A, t: Tree, r: Option<BinanceMsg>) -> bool {
    exists|n: BboNumbers| #[trigger] reads_bbo(ops, t, n) && r == bbo_of(n, t.integer_at("u"@))
}

/// The update that the numbers of a best-price message make.
pub fn bbo_update(
    bid: Option<Double>,
    ask: Option<Double>,
    bid_qty: Option<Double>,
    ask_qty: Option<Double>,
    update_id: Option<i64>,
) -> (r: Option<BinanceMsg>)
    ensures
        r == bbo_of((BboNumbers { bid, ask, bid_qty, ask_qty }), update_id),
{
    match (bid, ask, bid_qty, ask_qty, update_id) {
        (Some(bb), Some(ba), Some(bq), Some(aq), Some(id)) => {
            if bb.gt(Double::zero()) && ba.gt(Double::zero()) && ba.gt(bb) {
                Some(
                    BinanceMsg::BboUpdate {
                        best_bid: bb,
                        best_ask: ba,
                        bid_qty: bq,
                        ask_qty: aq,
                        update_id: id,
                    },
                )
            } else {
                None
            }
        },
        _ => None,
    }
}

/// Reads a best-price message.
pub fn read_bbo<A: Arithmetic>(ops: &A, data: &Json) -> (r: Option<BinanceMsg>)
    ensures
        is_bbo(ops, data@, r),
{
    let bid = levels::number_at(ops, data, "b");
    let ask = levels::number_at(ops, data, "a");
    let bid_qty = levels::number_at(ops, data, "B");
    let ask_qty = levels::number_at(ops, data, "A");
    let update_id = data.i64_at("u");
    assert(reads_bbo(ops, data@, (BboNumbers { bid, ask, bid_qty, ask_qty })));
    bbo_update(bid, ask, bid_qty, ask_qty, update_id)
}

/// An update of best prices is never crossed, and its prices are positive.
pub proof fn law_bbo_is_never_crossed<A: Arithmetic>(ops: &A, t: Tree, r: Option<BinanceMsg>)
    requires
        is_bbo(ops, t, r),
    ensures
        r matches Some(m) ==> m is BboUpdate && m->best_bid.below(m->best_ask)
            && Double::zero().below(m->best_bid) && Double::zero().below(m->best_ask),
{
}

/// `r` is what a best-price session does with a document.
pub open spec fn is_bbo_action<A: Arithmetic>(ops: &A, t: Tree, r: FeedAction) -> bool {
    exists|msg: Option<BinanceMsg>| #[trigger] is_bbo(ops, t, msg) && r == delivery(msg)
}

/// Keeps a feed of best prices going.
pub struct BboSession {
    symbol: String,
    backoff: Backoff,
}

impl BboSession {
    pub closed spec fn wf(self) -> bool {
        feed_backoff(self.backoff)
    }

    pub closed spec fn symbol(self) -> Seq<char> {
        self.symbol@
    }

    pub closed spec fn backoff(self) -> Backoff {
        self.backoff
    }

    pub fn new(binance_symbol: &str) -> (r: BboSession)
        ensures
            r.wf(),
            r.symbol() == binance_symbol@,
            r.backoff() == Backoff::fresh(FIRST_DELAY, LONGEST_DELAY),
    {
        BboSession {
            symbol: binance_symbol.to_owned(),
            backoff: Backoff::new(FIRST_DELAY, LONGEST_DELAY),
        }
    }

    /// Where the feed is.
    pub fn url(&self) -> (r: String)
        ensures
            r@ == "wss://fstream.binance.com/ws/"@ + self.symbol() + "@bookTicker"@,
    {
        let mut url = "wss://fstream.binance.com/ws/".to_owned();
        url.append(self.symbol.as_str());
        url.append("@bookTicker");
        url
    }

    /// The connection has been made.
    pub fn on_connected(&mut self)
        requires
            old(self).wf(),
        ensures
            final(self).wf(),
            final(self).symbol() == old(self).symbol(),
            final(self).backoff() == Backoff::fresh(FIRST_DELAY, LONGEST_DELAY),
    {
        self.backoff.reset();
    }

    /// The connection could not be made.
    pub fn on_connect_failed(&mut self) -> (r: FeedAction)
        requires
            old(self).wf(),
        ensures
            final(self).wf(),
            final(self).symbol() == old(self).symbol(),
            final(self).backoff() == old(self).backoff().doubled(),
            r == unreachable_action(old(self).backoff().current),
    {
        let delay_secs = self.backoff.next_delay();
        FeedAction::Reconnect { notice: None, delay_secs }
    }

    /// What to do with a document.
    pub fn on_document<A: Arithmetic>(&self, ops: &A, data: &Json) -> (r: FeedAction)
        ensures
            is_bbo_action(ops, data@, r),
    {
        let msg = read_bbo(ops, data);
        assert(is_bbo(ops, data@, msg));
        match msg {
            Some(m) => FeedAction::Deliver(m),
            None => FeedAction::Receive,
        }
    }

    /// What to do after reading.
    pub fn on_frame<A: Arithmetic>(&mut self, ops: &A, frame: &Frame) -> (r: FeedAction)
        requires
            old(self).wf(),
        ensures
            final(self).wf(),
            final(self).symbol() == old(self).symbol(),
            final(self).backoff() == if frame.is_loss() {
                old(self).backoff().doubled()
            } else {
                old(self).backoff()
            },
            match frame {
                Frame::Text(t) => match json::text_tree(t@) {
                    Some(tree) => is_bbo_action(ops, tree, r),
                    None => r is Receive,
                },
                _ => if frame.is_loss() {
                    is_lost(r, "bbo"@, old(self).backoff().current)
                } else {
                    r is Receive
                },
            },
    {
        match frame {
            Frame::Text(t) => match json::parse_json(t.as_str()) {
                Some(data) => self.on_document(ops, &data),
                None => FeedAction::Receive,
            },
            Frame::Close | Frame::Failed | Frame::Ended | Frame::Silent => {
                let delay_secs = self.backoff.next_delay();
                FeedAction::Reconnect {
                    notice: Some(BinanceMsg::Disconnected { feed: "bbo" }),
                    delay_secs,
                }
            },
            Frame::Pong | Frame::Other => FeedAction::Receive,
        }
    }
}

/// The delays of a session that is well formed start at two seconds and are never
/// more than a minute.
pub proof fn lemma_feed_delays(session: BboSession)
    requires
        session.wf(),
    ensures
        session.backoff().base == 2,
        session.backoff().limit == 60,
        session.backoff().current <= 60,
{
}

} // verus!
