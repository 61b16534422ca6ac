//! The Lighter feed: order book and ticker of one market.
//!
//! The connection is the caller's. The session here is told what came of
//! connecting and reading, and says what to do next.
use crate::arithmetic::Arithmetic;
use crate::double::Double;
use crate::frame::Frame;
use crate::json;
use crate::json::{Json, Tree};
use crate::levels;
use crate::reconnect::Backoff;
use crate::text;
use vstd::prelude::*;

verus! {

#[derive(Debug)]
pub enum LighterWsMsg {
    OrderbookUpdate { bids: Vec<(Double, Double)>, asks: Vec<(Double, Double)> },
    TickerUpdate { best_bid: Double, best_ask: Double },
    Disconnected,
}

/// What a session asks of its caller.
#[derive(Debug)]
pub enum LighterAction {
    /// Read on.
    Receive,
    /// Send a text, then read on.
    Reply(String),
    /// Note that a channel is subscribed, then read on.
    Subscribed { channel: String },
    /// Pass a message on, then read on.
    Deliver(LighterWsMsg),
    /// Drop the connection, pass the notice on if there is one, wait, and
    /// connect again.
    Reconnect { notice: Option<LighterWsMsg>, delay_secs: u64 },
}

/// The text, or a default where there is none.
pub open spec fn or_default(s: Option<Seq<char>>, default: Seq<char>) -> Seq<char> {
    match s {
        Some(s) => s,
        None => default,
    }
}

/// `levels` are a result of reading the levels of a member; without the member
/// there are none.
pub open spec fn reads_side<A: Arithmetic>(
    ops: &A,
    book: Tree,
    name: Seq<char>,
    levels: Seq<(Double, Double)>,
) -> bool {
    match book.items_at(name) {
        Some(items) => levels::reads_all_named(ops, items, levels),
        None => levels == Seq::<(Double, Double)>::empty(),
    }
}

/// `r` passes on the levels of a book.
pub open spec fn is_book_action<A: Arithmetic>(ops: &A, book: Tree, r: LighterAction) -> bool {
    match r {
        LighterAction::Deliver(LighterWsMsg::OrderbookUpdate { bids, asks }) => reads_side(
            ops,
            book,
            "bids"@,
            bids@,
        ) && reads_side(ops, book, "asks"@, asks@),
        _ => false,
    }
}

/// What is done with the prices of a ticker: they are passed on unless neither
/// is positive.
pub open spec fn ticker_action(best_bid: Double, best_ask: Double) -> LighterAction {
    if Double::zero().below(best_bid) || Double::zero().below(best_ask) {
        LighterAction::Deliver(LighterWsMsg::TickerUpdate { best_bid, best_ask })
    } else {
        LighterAction::Receive
    }
}

/// `r` is what is done with a ticker, in which a price that cannot be read
/// counts as zero.
pub open spec fn is_ticker_action<A: Arithmetic>(ops: &A, ticker: Tree, r: LighterAction) -> bool {
    exists|bid: Option<Double>, ask: Option<Double>| #[trigger]
        levels::is_number_at(ops, ticker, "best_bid_price"@, bid)
            && #[trigger] levels::is_number_at(ops, ticker, "best_ask_price"@, ask) && r
            == ticker_action(levels::or_zero(bid), levels::or_zero(ask))
}

/// The answer to a ping of the application.
pub open spec fn pong_text() -> Seq<char> {
    "{\"type\":\"pong\"}"@
}

/// `r` is what is done with a document, by its type: a ping is answered, a
/// subscription noted, an order book or a ticker passed on.
pub open spec fn is_reaction<A: Arithmetic>(ops: &A, data: Tree, r: LighterAction) -> bool {
    let kind = or_default(data.text_at("type"@), ""@);
    if kind == "ping"@ {
        r matches LighterAction::Reply(answer) && answer@ == pong_text()
    } else if kind == "subscribed"@ {
        r matches LighterAction::Subscribed { channel } && channel@ == or_default(
            data.text_at("channel"@),
            "?"@,
        )
    } else if text::occurs(kind, "order_book"@) {
        match data.get("order_book"@) {
            Some(book) => is_book_action(ops, book, r),
            None => r is Receive,
        }
    } else if text::occurs(kind, "ticker"@) {
        match data.get("ticker"@) {
            Some(ticker) => is_ticker_action(ops, ticker, r),
            None => r is Receive,
        }
    } else {
        r is Receive
    }
}

fn read_side<A: Arithmetic>(ops: &A, book: &Json, name: &str) -> (r: Vec<(Double, Double)>)
    ensures
        reads_side(ops, book@, name@, r@),
{
    match book.array_at(name) {
        Some(items) => levels::parse_levels(ops, items.as_slice()),
        None => Vec::new(),
    }
}

/// What to do with the prices of a ticker.
pub fn on_ticker_prices(best_bid: Double, best_ask: Double) -> (r: LighterAction)
    ensures
        r == ticker_action(best_bid, best_ask),
{
    if best_bid.gt(Double::zero()) || best_ask.gt(Double::zero()) {
        LighterAction::Deliver(LighterWsMsg::TickerUpdate { best_bid, best_ask })
    } else {
        LighterAction::Receive
    }
}

/// What to do with a document.
pub fn on_document<A: Arithmetic>(ops: &A, data: &Json) -> (r: LighterAction)
    ensures
        is_reaction(ops, data@, r),
{
    let kind = match data.str_at("type") {
        Some(s) => s,
        None => "",
    };

    // Application-level ping from the server
    if text::same_text(kind, "ping") {
        return LighterAction::Reply("{\"type\":\"pong\"}".to_owned());
    }
    if text::same_text(kind, "subscribed") {
        let channel = match data.str_at("channel") {
            Some(s) => s.to_owned(),
            None => "?".to_owned(),
        };
        return LighterAction::Subscribed { channel };
    }
    if text::contains_text(kind, "order_book") {
        match data.get("order_book") {
            Some(book) => {
                let bids = read_side(ops, book, "bids");
                let asks = read_side(ops, book, "asks");
                LighterAction::Deliver(LighterWsMsg::OrderbookUpdate { bids, asks })
            },
            None => LighterAction::Receive,
        }
    } else if text::contains_text(kind, "ticker") {
        match data.get("ticker") {
            Some(ticker) => {
                let bid = levels::number_at(ops, ticker, "best_bid_price");
                let ask = levels::number_at(ops, ticker, "best_ask_price");
                assert(levels::is_number_at(ops, ticker@, "best_bid_price"@, bid));
                assert(levels::is_number_at(ops, ticker@, "best_ask_price"@, ask));
                let best_bid = match bid {
                    Some(x) => x,
                    None => Double::zero(),
                };
                let best_ask = match ask {
                    Some(x) => x,
                    None => Double::zero(),
                };
                on_ticker_prices(best_bid, best_ask)
            },
            None => LighterAction::Receive,
        }
    } else {
        LighterAction::Receive
    }
}

/// Whether a frame starts the wait for the next one over.
pub fn restarts_watchdog(frame: &Frame) -> (r: bool)
    ensures
        r == !frame.is_loss(),
{
    match frame {
        Frame::Text(_) | Frame::Pong | Frame::Other => true,
        Frame::Close | Frame::Failed | Frame::Ended | Frame::Silent => false,
    }
}

/// The members of a message that subscribes to a channel.
pub open spec fn subscription(channel: Seq<char>) -> Seq<(Seq<char>, Seq<char>)> {
    seq![("type"@, "subscribe"@), ("channel"@, channel)]
}

/// A text is a document that asks for the subscription of a channel.
pub open spec fn is_subscription(message: Seq<char>, channel: Seq<char>) -> bool {
    match json::text_tree(message) {
        Some(t) => t.text_at("type"@) == Some("subscribe"@) && t.text_at("channel"@) == Some(
            channel,
        ),
        None => false,
    }
}

/// A message that subscribes to a channel.
pub fn subscribe_message(channel: &str) -> (r: String)
    ensures
        r@ == json::object_text(subscription(channel@)),
        is_subscription(r@, channel@),
{
    let mut members: Vec<(String, String)> = Vec::new();
    members.push(("type".to_owned(), "subscribe".to_owned()));
    members.push(("channel".to_owned(), channel.to_owned()));
    proof {
        let pairs = json::text_pairs(members@);
        assert(pairs =~= subscription(channel@));
        reveal_strlit("type");
        reveal_strlit("channel");
        assert("type"@.len() != "channel"@.len());
        assert(json::distinct_names(pairs));
        assert(pairs[0] == ("type"@, "subscribe"@));
        assert(pairs[1] == ("channel"@, channel@));
    }
    json::write_object(members)
}

/// The action for a lost connection.
pub open spec fn lost(delay: u64) -> LighterAction {
    LighterAction::Reconnect { notice: Some(LighterWsMsg::Disconnected), delay_secs: delay }
}

/// Keeps the Lighter feed going.
pub struct LighterSession {
    market_id: i64,
    backoff: Backoff,
}

impl LighterSession {
    pub closed spec fn market_id(self) -> i64 {
        self.market_id
    }

    pub closed spec fn backoff(self) -> Backoff {
        self.backoff
    }

    pub open spec fn book_channel(self) -> Seq<char> {
        "order_book/"@ + text::signed_decimal(self.market_id() as int)
    }

    pub open spec fn ticker_channel(self) -> Seq<char> {
        "ticker/"@ + text::signed_decimal(self.market_id() as int)
    }

    /// `t` is this session after its next delay has been used.
    pub open spec fn delays_to(self, t: LighterSession) -> bool {
        t.market_id() == self.market_id() && t.backoff() == self.backoff().doubled()
    }

    pub fn new(market_id: i64, reconnect_base: u64, reconnect_max: u64) -> (r: LighterSession)
        ensures
            r.market_id() == market_id,
            r.backoff() == Backoff::fresh(reconnect_base, reconnect_max),
    {
        LighterSession { market_id, backoff: Backoff::new(reconnect_base, reconnect_max) }
    }

    /// Where the feed is.
    pub fn url() -> (r: &'static str)
        ensures
            r@ == "wss://mainnet.zklighter.elliot.ai/stream"@,
    {
        "wss://mainnet.zklighter.elliot.ai/stream"
    }

    /// Whether the next delay can be doubled.
    pub fn can_wait(&self) -> (r: bool)
        ensures
            r == self.backoff().can_double(),
    {
        self.backoff.current <= u64::MAX / 2
    }

    /// The connection has been made; these messages are to be sent, in order.
    pub fn on_connected(&mut self) -> (r: Vec<String>)
        ensures
            final(self).market_id() == old(self).market_id(),
            final(self).backoff() == Backoff::fresh(
                old(self).backoff().base,
                old(self).backoff().limit,
            ),
            r@.len() == 2,
            r@[0]@ == json::object_text(subscription(old(self).book_channel())),
            r@[1]@ == json::object_text(subscription(old(self).ticker_channel())),
            is_subscription(r@[0]@, old(self).book_channel()),
            is_subscription(r@[1]@, old(self).ticker_channel()),
    {
        self.backoff.reset();
        let mut book = "order_book/".to_owned();
        text::append_signed(&mut book, self.market_id);
        let mut ticker = "ticker/".to_owned();
        text::append_signed(&mut ticker, self.market_id);
        let mut out: Vec<String> = Vec::new();
        out.push(subscribe_message(book.as_str()));
        out.push(subscribe_message(ticker.as_str()));
        out
    }

    /// The connection could not be made.
    pub fn on_connect_failed(&self) -> (r: LighterAction)
        ensures
            r == (LighterAction::Reconnect { notice: None, delay_secs: self.backoff().current }),
    {
        LighterAction::Reconnect { notice: None, delay_secs: self.backoff.current }
    }

    /// A message could not be sent: a subscription or a ping.
    pub fn on_send_failed(&self) -> (r: LighterAction)
        ensures
            r == lost(self.backoff().current),
    {
        LighterAction::Reconnect {
            notice: Some(LighterWsMsg::Disconnected),
            delay_secs: self.backoff.current,
        }
    }

    /// What to do after reading.
    pub fn on_frame<A: Arithmetic>(&self, ops: &A, frame: &Frame) -> (r: LighterAction)
        ensures
            match frame {
                Frame::Text(t) => match json::text_tree(t@) {
                    Some(data) => is_reaction(ops, data, r),
                    None => r is Receive,
                },
                _ => if frame.is_loss() {
                    r == lost(self.backoff().current)
                } else {
                    r is Receive
                },
            },
    {
        match frame {
            Frame::Text(t) => match json::parse_json(t.as_str()) {
                Some(data) => on_document(ops, &data),
                None => LighterAction::Receive,
            },
            Frame::Close | Frame::Failed | Frame::Ended | Frame::Silent => self.on_send_failed(),
            Frame::Pong | Frame::Other => LighterAction::Receive,
        }
    }

    /// The delay before connecting again is over; the next one is twice as long,
    /// up to the limit.
    pub fn on_waited(&mut self)
        requires
            old(self).backoff().can_double(),
        ensures
            old(self).delays_to(*final(self)),
    {
        let _delay = self.backoff.next_delay();
    }
}

/// Nothing that is read from a connection makes the session give it up but the
/// loss of the connection.
pub proof fn law_documents_never_disconnect<A: Arithmetic>(ops: &A, data: Tree, r: LighterAction)
    requires
        is_reaction(ops, data, r),
    ensures
        !(r is Reconnect),
{
}

/// A ping of the application is answered, and with nothing but the pong.
pub proof fn law_pings_are_answered<A: Arithmetic>(ops: &A, data: Tree, r: LighterAction)
    requires
        is_reaction(ops, data, r),
    ensures
        r is Reply <==> data.text_at("type"@) == Some("ping"@),
        r matches LighterAction::Reply(answer) ==> answer@ == pong_text(),
{
    reveal_strlit("");
    reveal_strlit("ping");
    assert(""@.len() != "ping"@.len());
}

/// A ticker that is passed on has a positive price.
pub proof fn law_tickers_have_a_price<A: Arithmetic>(ops: &A, data: Tree, r: LighterAction)
    requires
        is_reaction(ops, data, r),
    ensures
        r matches LighterAction::Deliver(LighterWsMsg::TickerUpdate { best_bid, best_ask })
            ==> Double::zero().below(best_bid) || Double::zero().below(best_ask),
{
}

} // verus!
