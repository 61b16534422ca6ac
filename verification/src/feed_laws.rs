//! What the feeds make of the documents that they read.
use crate::arithmetic::Arithmetic;
use crate::document_laws;
use crate::double::Double;
use crate::frame::Frame;
use crate::json;
use crate::json::{Json, Tree};
use crate::levels;
use crate::reconnect::Backoff;
use crate::text;
use crate::ws_binance;
use crate::ws_binance::{BboSession, BinanceMsg, FeedAction};
use crate::ws_lighter;
use crate::ws_lighter::{LighterAction, LighterSession, LighterWsMsg};
use vstd::prelude::*;

verus! {

/// `picked[i]` is the level that item `i` of a list of objects stands for; where
/// the list is missing nothing is picked.
pub open spec fn picks_named_at<A: Arithmetic>(
    ops: &A,
    t: Tree,
    name: Seq<char>,
    picked: Seq<Option<(Double, Double)>>,
) -> bool {
    match t.items_at(name) {
        Some(items) => document_laws::picks_named(ops, items, picked),
        None => picked.len() == 0,
    }
}

/// The number of a member, zero where it has none.
pub open spec fn counts_as<A: Arithmetic>(ops: &A, t: Tree, name: Seq<char>, x: Double) -> bool {
    ||| document_laws::holds_number(ops, t, name, x)
    ||| document_laws::holds_no_number(ops, t, name) && x == Double::zero()
}

/// A document is of a type whose name holds a text.
pub open spec fn is_about(t: Tree, topic: Seq<char>) -> bool {
    t.text_at("type"@) matches Some(kind) && exists|a: Seq<char>, b: Seq<char>|
        kind == #[trigger] (a + topic + b)
}

proof fn lemma_kinds_apart()
    ensures
        !text::occurs("ping"@, "order_book"@),
        !text::occurs("ping"@, "ticker"@),
        !text::occurs("subscribed"@, "order_book"@),
        !text::occurs("subscribed"@, "ticker"@),
        !text::occurs(""@, "order_book"@),
        !text::occurs(""@, "ticker"@),
        "ping"@ != "subscribed"@,
        ""@ != "ping"@,
        ""@ != "subscribed"@,
{
    reveal_strlit("");
    reveal_strlit("ping");
    reveal_strlit("ticker");
    reveal_strlit("subscribed");
    reveal_strlit("order_book");
    assert(""@.len() == 0 && "ping"@.len() == 4 && "ticker"@.len() == 6);
    assert("subscribed"@.len() == 10 && "order_book"@.len() == 10);
    assert forall|at: int| !#[trigger] text::stands_at("subscribed"@, "order_book"@, at) by {
        if text::stands_at("subscribed"@, "order_book"@, at) {
            assert("subscribed"@.subrange(at, at + 10)[0] == "subscribed"@[at]);
            assert("subscribed"@[0] == 's' && "order_book"@[0] == 'o');
        }
    }
    assert forall|at: int| !#[trigger] text::stands_at("subscribed"@, "ticker"@, at) by {
        if text::stands_at("subscribed"@, "ticker"@, at) {
            assert("subscribed"@.subrange(at, at + 6)[0] == "subscribed"@[at]);
            assert("ticker"@[0] == 't');
            assert(0 <= at <= 4);
            assert("subscribed"@[0] == 's' && "subscribed"@[1] == 'u' && "subscribed"@[2] == 'b'
                && "subscribed"@[3] == 's' && "subscribed"@[4] == 'c');
        }
    }
}

proof fn lemma_side_in_order<A: Arithmetic>(
    ops: &A,
    t: Tree,
    name: Seq<char>,
    picked: Seq<Option<(Double, Double)>>,
    r: Seq<(Double, Double)>,
)
    requires
        ws_lighter::reads_side(ops, t, name, r),
        picks_named_at(ops, t, name, picked),
    ensures
        document_laws::are_in_order(picked, r),
{
    if let Some(items) = t.items_at(name) {
        document_laws::law_named_levels_are_read_in_order(ops, items, picked, r);
    }
}

proof fn lemma_counted<A: Arithmetic>(
    ops: &A,
    t: Tree,
    name: Seq<char>,
    x: Double,
    r: Option<Double>,
)
    requires
        levels::is_number_at(ops, t, name, r),
        counts_as(ops, t, name, x),
    ensures
        levels::or_zero(r) == x,
{
    document_laws::lemma_number_at(ops, t, name, r);
}

/// A document about an order book that has one passes its levels on: the bids are
/// those that can be read in the list `bids`, one for each and in order, and the
/// asks likewise those of `asks`.
pub proof fn law_books_are_passed_on<A: Arithmetic>(
    ops: &A,
    data: &Json,
    r: LighterAction,
    book: Tree,
    bids_picked: Seq<Option<(Double, Double)>>,
    asks_picked: Seq<Option<(Double, Double)>>,
)
    requires
        call_ensures(ws_lighter::on_document::<A>, (ops, data), r),
        is_about(data@, "order_book"@),
        data@.get("order_book"@) == Some(book),
        picks_named_at(ops, book, "bids"@, bids_picked),
        picks_named_at(ops, book, "asks"@, asks_picked),
    ensures
        r matches LighterAction::Deliver(LighterWsMsg::OrderbookUpdate { bids, asks })
            && document_laws::are_in_order(bids_picked, bids@) && document_laws::are_in_order(
            asks_picked,
            asks@,
        ),
{
    lemma_kinds_apart();
    let kind = data@.text_at("type"@)->0;
    document_laws::law_occurrences_split_a_text(kind, "order_book"@);
    if let LighterAction::Deliver(LighterWsMsg::OrderbookUpdate { bids, asks }) = r {
        lemma_side_in_order(ops, book, "bids"@, bids_picked, bids@);
        lemma_side_in_order(ops, book, "asks"@, asks_picked, asks@);
    }
}

/// A document about a ticker that has one passes its two best prices on, a price
/// that cannot be read as zero, unless neither is above zero.
pub proof fn law_tickers_are_passed_on<A: Arithmetic>(
    ops: &A,
    data: &Json,
    r: LighterAction,
    ticker: Tree,
    bid: Double,
    ask: Double,
)
    requires
        call_ensures(ws_lighter::on_document::<A>, (ops, data), r),
        is_about(data@, "ticker"@),
        !is_about(data@, "order_book"@),
        data@.get("ticker"@) == Some(ticker),
        counts_as(ops, ticker, "best_bid_price"@, bid),
        counts_as(ops, ticker, "best_ask_price"@, ask),
    ensures
        Double::zero().below(bid) || Double::zero().below(ask) ==> (
        r matches LighterAction::Deliver(LighterWsMsg::TickerUpdate { best_bid, best_ask })
            && best_bid == bid && best_ask == ask),
        !Double::zero().below(bid) && !Double::zero().below(ask) ==> r is Receive,
{
    lemma_kinds_apart();
    let kind = data@.text_at("type"@)->0;
    document_laws::law_occurrences_split_a_text(kind, "order_book"@);
    document_laws::law_occurrences_split_a_text(kind, "ticker"@);
    let (b, a) = choose|b: Option<Double>, a: Option<Double>| #[trigger]
        levels::is_number_at(ops, ticker, "best_bid_price"@, b) && #[trigger] levels::is_number_at(
            ops,
            ticker,
            "best_ask_price"@,
            a,
        ) && r == ws_lighter::ticker_action(levels::or_zero(b), levels::or_zero(a));
    lemma_counted(ops, ticker, "best_bid_price"@, bid, b);
    lemma_counted(ops, ticker, "best_ask_price"@, ask, a);
}

/// A ping is answered, a subscription noted with its channel, and nothing is done
/// with a document about anything else, or without what it is about.
pub proof fn law_other_documents_are_answered_or_passed_over<A: Arithmetic>(
    ops: &A,
    data: &Json,
    r: LighterAction,
)
    requires
        call_ensures(ws_lighter::on_document::<A>, (ops, data), r),
    ensures
        data@.text_at("type"@) == Some("ping"@) ==> (r matches LighterAction::Reply(answer)
            && answer@ == "{\"type\":\"pong\"}"@),
        data@.text_at("type"@) == Some("subscribed"@) ==> (r matches LighterAction::Subscribed {
            channel,
        } && match data@.text_at("channel"@) {
            Some(named) => channel@ == named,
            None => channel@ == "?"@,
        }),
        data@.text_at("type"@) != Some("ping"@) && data@.text_at("type"@) != Some("subscribed"@)
            && !(is_about(data@, "order_book"@) && data@.get("order_book"@) is Some) && !(is_about(
            data@,
            "ticker"@,
        ) && !is_about(data@, "order_book"@) && data@.get("ticker"@) is Some) ==> r is Receive,
{
    lemma_kinds_apart();
    if let Some(kind) = data@.text_at("type"@) {
        document_laws::law_occurrences_split_a_text(kind, "order_book"@);
        document_laws::law_occurrences_split_a_text(kind, "ticker"@);
    }
}

/// A frame of text is what the document in it is, and nothing where it holds
/// none; a pong or another message is nothing; any other frame loses the
/// connection, which is announced before the delay that is due. Only those that
/// are no loss start the watch over.
pub proof fn law_frames_are_read_or_lose_connection<A: Arithmetic>(
    session: &LighterSession,
    ops: &A,
    frame: &Frame,
    r: LighterAction,
    restarts: bool,
)
    requires
        call_ensures(LighterSession::on_frame::<A>, (session, ops, frame), r),
        call_ensures(ws_lighter::restarts_watchdog, (frame,), restarts),
    ensures
        frame matches Frame::Text(t) ==> match json::text_tree(t@) {
            Some(data) => ws_lighter::is_reaction(ops, data, r),
            None => r is Receive,
        },
        frame is Pong || frame is Other ==> r is Receive,
        frame is Close || frame is Failed || frame is Ended || frame is Silent ==> (
        r matches LighterAction::Reconnect {
            notice: Some(LighterWsMsg::Disconnected),
            delay_secs,
        } && delay_secs == session.backoff().current),
        restarts <==> frame is Text || frame is Pong || frame is Other,
{
}

/// The number that a text of decimal digits, with a minus sign or without, stands
/// for.
pub open spec fn integer_value(s: Seq<char>) -> int {
    if s.len() > 0 && s[0] == '-' {
        -document_laws::digits_value(s.skip(1))
    } else {
        document_laws::digits_value(s)
    }
}

/// An integer in decimal reads back as that integer.
pub proof fn law_signed_decimal_reads_back(n: int)
    ensures
        integer_value(text::signed_decimal(n)) == n,
{
    if n < 0 {
        document_laws::law_decimal_reads_back((-n) as nat);
        assert(text::signed_decimal(n).skip(1) =~= text::decimal((-n) as nat));
    } else {
        document_laws::law_decimal_reads_back(n as nat);
    }
}

/// A text is a document that subscribes to a channel of a market.
pub open spec fn subscribes_to(message: Seq<char>, channel: Seq<char>, market_id: int) -> bool {
    json::text_tree(message) matches Some(t) && t.text_at("type"@) == Some("subscribe"@) && exists|
        id: Seq<char>,
    |
        t.text_at("channel"@) == Some(channel + id) && #[trigger] integer_value(id) == market_id
}

/// A session subscribes to the order book and then to the ticker of its market,
/// and waits the base delay again.
pub proof fn law_connection_subscribes_to_market(session: &mut LighterSession, r: Vec<String>)
    requires
        call_ensures(LighterSession::on_connected, (session,), r),
    ensures
        r@.len() == 2,
        subscribes_to(r@[0]@, "order_book/"@, old(session).market_id() as int),
        subscribes_to(r@[1]@, "ticker/"@, old(session).market_id() as int),
        final(session).market_id() == old(session).market_id(),
        final(session).backoff().current == old(session).backoff().base,
        final(session).backoff().base == old(session).backoff().base,
        final(session).backoff().limit == old(session).backoff().limit,
{
    let id = old(session).market_id() as int;
    law_signed_decimal_reads_back(id);
    assert(json::text_tree(r@[0]@)->0.text_at("channel"@) == Some(
        "order_book/"@ + text::signed_decimal(id),
    ));
    assert(json::text_tree(r@[1]@)->0.text_at("channel"@) == Some(
        "ticker/"@ + text::signed_decimal(id),
    ));
}

/// A session waits the base delay first; every wait doubles the delay, up to the
/// limit. A failure to connect announces nothing, a failure to send the loss of
/// the connection.
pub proof fn law_waits_double_up_to_limit(
    market_id: i64,
    base: u64,
    limit: u64,
    made: LighterSession,
    session: &mut LighterSession,
    other: &LighterSession,
    unreached: LighterAction,
    unsent: LighterAction,
    waits: bool,
)
    requires
        call_ensures(LighterSession::new, (market_id, base, limit), made),
        call_ensures(LighterSession::on_waited, (session,), ()),
        old(session).backoff().current <= u64::MAX / 2,
        call_ensures(LighterSession::on_connect_failed, (other,), unreached),
        call_ensures(LighterSession::on_send_failed, (other,), unsent),
        call_ensures(LighterSession::can_wait, (other,), waits),
    ensures
        made.market_id() == market_id,
        made.backoff().base == base && made.backoff().limit == limit && made.backoff().current
            == base,
        final(session).market_id() == old(session).market_id(),
        final(session).backoff().base == old(session).backoff().base,
        final(session).backoff().limit == old(session).backoff().limit,
        final(session).backoff().current <= 2 * old(session).backoff().current,
        final(session).backoff().current <= old(session).backoff().limit,
        final(session).backoff().current == 2 * old(session).backoff().current
            || final(session).backoff().current == old(session).backoff().limit,
        unreached matches LighterAction::Reconnect { notice: None, delay_secs } && delay_secs
            == other.backoff().current,
        unsent matches LighterAction::Reconnect {
            notice: Some(LighterWsMsg::Disconnected),
            delay_secs,
        } && delay_secs == other.backoff().current,
        waits <==> 2 * other.backoff().current <= u64::MAX,
{
}

/// The next delay is the one that is due; the one after it is twice as long, or
/// the limit where that is less. Starting over brings the base back.
pub proof fn law_delays_are_used_and_doubled(
    base: u64,
    limit: u64,
    made: Backoff,
    backoff: &mut Backoff,
    delay: u64,
    started: &mut Backoff,
)
    requires
        call_ensures(Backoff::new, (base, limit), made),
        call_ensures(Backoff::next_delay, (backoff,), delay),
        old(backoff).current <= u64::MAX / 2,
        call_ensures(Backoff::reset, (started,), ()),
    ensures
        made.base == base && made.limit == limit && made.current == base,
        delay == old(backoff).current,
        final(backoff).base == old(backoff).base && final(backoff).limit == old(backoff).limit,
        final(backoff).current <= 2 * delay && final(backoff).current <= final(backoff).limit,
        final(backoff).current == 2 * delay || final(backoff).current == final(backoff).limit,
        final(started).current == old(started).base,
        final(started).base == old(started).base && final(started).limit == old(started).limit,
{
}

/// A best-price message holds these numbers.
pub open spec fn holds_best_prices<A: Arithmetic>(
    ops: &A,
    t: Tree,
    bid: Double,
    ask: Double,
    bid_size: Double,
    ask_size: Double,
    id: i64,
) -> bool {
    &&& document_laws::holds_number(ops, t, "b"@, bid)
    &&& document_laws::holds_number(ops, t, "a"@, ask)
    &&& document_laws::holds_number(ops, t, "B"@, bid_size)
    &&& document_laws::holds_number(ops, t, "A"@, ask_size)
    &&& t.integer_at("u"@) == Some(id)
}

/// A best-price message lacks one of its numbers.
pub open spec fn lacks_best_prices<A: Arithmetic>(ops: &A, t: Tree) -> bool {
    ||| document_laws::holds_no_number(ops, t, "b"@)
    ||| document_laws::holds_no_number(ops, t, "a"@)
    ||| document_laws::holds_no_number(ops, t, "B"@)
    ||| document_laws::holds_no_number(ops, t, "A"@)
    ||| t.integer_at("u"@) is None
}

proof fn lemma_best_prices<A: Arithmetic>(
    ops: &A,
    t: Tree,
    r: Option<BinanceMsg>,
    bid: Double,
    ask: Double,
    bid_size: Double,
    ask_size: Double,
    id: i64,
)
    requires
        ws_binance::is_bbo(ops, t, r),
    ensures
        holds_best_prices(ops, t, bid, ask, bid_size, ask_size, id) && Double::zero().below(bid)
            && bid.below(ask) ==> r == Some(
            BinanceMsg::BboUpdate {
                best_bid: bid,
                best_ask: ask,
                bid_qty: bid_size,
                ask_qty: ask_size,
                update_id: id,
            },
        ),
        holds_best_prices(ops, t, bid, ask, bid_size, ask_size, id) && !(Double::zero().below(bid)
            && bid.below(ask)) ==> r is None,
        lacks_best_prices(ops, t) ==> r is None,
{
    let n = choose|n: ws_binance::BboNumbers| #[trigger]
        ws_binance::reads_bbo(ops, t, n) && r == ws_binance::bbo_of(n, t.integer_at("u"@));
    document_laws::lemma_number_at(ops, t, "b"@, n.bid);
    document_laws::lemma_number_at(ops, t, "a"@, n.ask);
    document_laws::lemma_number_at(ops, t, "B"@, n.bid_qty);
    document_laws::lemma_number_at(ops, t, "A"@, n.ask_qty);
}

/// A best-price message with all its numbers, a positive bid and a higher ask is
/// passed on as it is; with any other nothing is done.
pub proof fn law_best_prices_are_passed_on<A: Arithmetic>(
    ops: &A,
    session: &BboSession,
    data: &Json,
    read: Option<BinanceMsg>,
    r: FeedAction,
    bid: Double,
    ask: Double,
    bid_size: Double,
    ask_size: Double,
    id: i64,
)
    requires
        call_ensures(ws_binance::read_bbo::<A>, (ops, data), read),
        call_ensures(BboSession::on_document::<A>, (session, ops, data), r),
    ensures
        holds_best_prices(ops, data@, bid, ask, bid_size, ask_size, id) && Double::zero().below(bid)
            && bid.below(ask) ==> (r matches FeedAction::Deliver(
            BinanceMsg::BboUpdate { best_bid, best_ask, bid_qty, ask_qty, update_id },
        ) && best_bid == bid && best_ask == ask && bid_qty == bid_size && ask_qty == ask_size
            && update_id == id && read == Some(r->Deliver_0)),
        holds_best_prices(ops, data@, bid, ask, bid_size, ask_size, id) && !(Double::zero().below(
            bid,
        ) && bid.below(ask)) || lacks_best_prices(ops, data@) ==> read is None && r is Receive,
{
    lemma_best_prices(ops, data@, read, bid, ask, bid_size, ask_size, id);
    let msg = choose|msg: Option<BinanceMsg>| #[trigger]
        ws_binance::is_bbo(ops, data@, msg) && r == ws_binance::delivery(msg);
    lemma_best_prices(ops, data@, msg, bid, ask, bid_size, ask_size, id);
}

/// Best prices make an update exactly if all five numbers are there, the bid is
/// above zero and the ask above the bid; the update holds them.
pub proof fn law_best_prices_make_an_update(
    bid: Option<Double>,
    ask: Option<Double>,
    bid_size: Option<Double>,
    ask_size: Option<Double>,
    id: Option<i64>,
    r: Option<BinanceMsg>,
)
    requires
        call_ensures(ws_binance::bbo_update, (bid, ask, bid_size, ask_size, id), r),
    ensures
        r is Some <==> bid is Some && ask is Some && bid_size is Some && ask_size is Some
            && id is Some && Double::zero().below(bid->0) && bid->0.below(ask->0),
        r matches Some(m) ==> (m matches BinanceMsg::BboUpdate {
            best_bid,
            best_ask,
            bid_qty,
            ask_qty,
            update_id,
        } && Some(best_bid) == bid && Some(best_ask) == ask && Some(bid_qty) == bid_size && Some(
            ask_qty,
        ) == ask_size && Some(update_id) == id),
{
}

/// Every frame of a best-price feed is a document's, nothing, or the loss of the
/// connection; the first loss waits two seconds, the next one twice as long, and
/// none more than a minute. A connection brings the two seconds back.
pub proof fn law_best_price_feed_recovers<A: Arithmetic>(
    ops: &A,
    symbol: &str,
    made: BboSession,
    session: &mut BboSession,
    frame: &Frame,
    r: FeedAction,
    connected: &mut BboSession,
    unreached: &mut BboSession,
    action: FeedAction,
)
    requires
        call_ensures(BboSession::new, (symbol,), made),
        call_ensures(BboSession::on_frame::<A>, (session, ops, frame), r),
        call_ensures(BboSession::on_connected, (connected,), ()),
        call_ensures(BboSession::on_connect_failed, (unreached,), action),
        old(session).wf() && old(connected).wf() && old(unreached).wf(),
    ensures
        made.symbol() == symbol@ && made.backoff().current == 2,
        final(session).symbol() == old(session).symbol(),
        frame matches Frame::Text(t) ==> match json::text_tree(t@) {
            Some(data) => ws_binance::is_bbo_action(ops, data, r),
            None => r is Receive,
        },
        frame is Pong || frame is Other ==> r is Receive,
        frame is Text || frame is Pong || frame is Other ==> final(session).backoff()
            == old(session).backoff(),
        frame is Close || frame is Failed || frame is Ended || frame is Silent ==> (
        r matches FeedAction::Reconnect {
            notice: Some(BinanceMsg::Disconnected { feed }),
            delay_secs,
        } && feed@ == "bbo"@ && delay_secs == old(session).backoff().current)
            && is_next_delay(old(session).backoff().current, final(session).backoff().current),
        final(connected).symbol() == old(connected).symbol() && final(connected).backoff().current
            == 2,
        final(unreached).symbol() == old(unreached).symbol(),
        action matches FeedAction::Reconnect { notice: None, delay_secs } && delay_secs
            == old(unreached).backoff().current,
        is_next_delay(old(unreached).backoff().current, final(unreached).backoff().current),
{
    ws_binance::lemma_feed_delays(*old(session));
    ws_binance::lemma_feed_delays(*old(unreached));
}

/// The delay that follows on another: twice as long, or a minute.
pub open spec fn is_next_delay(delay: u64, next: u64) -> bool {
    next <= 60 && (next == 2 * delay || next == 60 && 2 * delay > 60)
}

/// Where a best-price feed is.
pub proof fn law_best_price_feed_is_at_its_symbol(session: &BboSession, r: String)
    requires
        call_ensures(BboSession::url, (session,), r),
    ensures
        r@ == "wss://fstream.binance.com/ws/"@ + session.symbol() + "@bookTicker"@,
{
}

/// A symbol of ASCII letters is written small with `usdt` behind it on Binance,
/// whatever its letter case; ASTER alone is not there.
pub proof fn law_symbols_are_small_with_usdt(symbol: &str, r: Option<String>)
    requires
        call_ensures(ws_binance::lighter_to_binance_symbol, (symbol,), r),
        text::is_ascii_text(symbol@),
    ensures
        r is None <==> document_laws::same_letters(symbol@, "ASTER"@),
        r matches Some(s) ==> s@.len() == symbol@.len() + 4 && s@.skip(symbol@.len() as int)
            == "usdt"@ && document_laws::same_letters(s@.take(symbol@.len() as int), symbol@)
            && forall|i: int| 0 <= i < symbol@.len() ==> !('A' <= #[trigger] s@[i] <= 'Z'),
{
    let lower = text::ascii_lowered(symbol@);
    lemma_small_symbols(symbol@);
    document_laws::law_ascii_case_is_of_letters_alone(symbol@, symbol@);
    reveal_strlit("usdt");
    if let Some(s) = r {
        assert(s@ =~= lower + "usdt"@);
        assert(s@.skip(symbol@.len() as int) =~= "usdt"@);
        assert(s@.take(symbol@.len() as int) =~= lower);
        assert forall|i: int| 0 <= i < symbol@.len() implies !('A' <= #[trigger] s@[i] <= 'Z') by {
            assert(s@[i] == lower[i]);
        }
        assert forall|i: int| 0 <= i < symbol@.len() implies #[trigger] document_laws::same_letter(
            lower[i],
            symbol@[i],
        ) by {
            assert(document_laws::same_letter(symbol@[i], lower[i]));
        }
    }
}

/// Every symbol is written on Binance as the lower-case form of its upper-case
/// form, with `usdt` behind it, unless that upper-case form is ASTER.
pub proof fn law_any_symbol_is_small_with_usdt(symbol: &str, r: Option<String>)
    requires
        call_ensures(ws_binance::lighter_to_binance_symbol, (symbol,), r),
    ensures
        ({
            let upper = text::uppercase(symbol@);
            &&& r is None <==> upper == "ASTER"@
            &&& r matches Some(s) ==> s@ == text::lowercase(upper) + "usdt"@ || s@
                == text::ascii_lowered(upper) + "usdt"@
        }),
{
    let upper = text::uppercase(symbol@);
    if upper == "BTC"@ || upper == "ETH"@ || upper == "SOL"@ || upper == "PAXG"@ || upper
        == "CRV"@ {
        lemma_named_symbols_are_capitals(upper);
    }
    lemma_small_symbols(upper);
}

proof fn lemma_named_symbols_are_capitals(u: Seq<char>)
    requires
        u == "BTC"@ || u == "ETH"@ || u == "SOL"@ || u == "PAXG"@ || u == "CRV"@,
    ensures
        text::ascii_uppered(u) == u,
{
    reveal_strlit("BTC");
    reveal_strlit("ETH");
    reveal_strlit("SOL");
    reveal_strlit("PAXG");
    reveal_strlit("CRV");
    assert forall|i: int| 0 <= i < u.len() implies text::ascii_upper(u[i]) == u[i] by {}
    assert(text::ascii_uppered(u) =~= u);
}

proof fn lemma_small_symbols(s: Seq<char>)
    ensures
        text::ascii_uppered(s) == "ASTER"@ <==> document_laws::same_letters(s, "ASTER"@),
        text::ascii_uppered(s) == "BTC"@ ==> "btcusdt"@ == text::ascii_lowered(s) + "usdt"@,
        text::ascii_uppered(s) == "ETH"@ ==> "ethusdt"@ == text::ascii_lowered(s) + "usdt"@,
        text::ascii_uppered(s) == "SOL"@ ==> "solusdt"@ == text::ascii_lowered(s) + "usdt"@,
        text::ascii_uppered(s) == "PAXG"@ ==> "paxgusdt"@ == text::ascii_lowered(s) + "usdt"@,
        text::ascii_uppered(s) == "CRV"@ ==> "crvusdt"@ == text::ascii_lowered(s) + "usdt"@,
        "ASTER"@ != "BTC"@ && "ASTER"@ != "ETH"@ && "ASTER"@ != "SOL"@ && "ASTER"@ != "PAXG"@
            && "ASTER"@ != "CRV"@,
{
    let upper = text::ascii_uppered(s);
    let lower = text::ascii_lowered(s);
    reveal_strlit("usdt");
    reveal_strlit("ASTER");
    reveal_strlit("BTC");
    reveal_strlit("btcusdt");
    reveal_strlit("ETH");
    reveal_strlit("ethusdt");
    reveal_strlit("SOL");
    reveal_strlit("solusdt");
    reveal_strlit("PAXG");
    reveal_strlit("paxgusdt");
    reveal_strlit("CRV");
    reveal_strlit("crvusdt");
    assert("ASTER"@.len() == 5 && "BTC"@.len() == 3 && "ETH"@.len() == 3 && "SOL"@.len() == 3
        && "PAXG"@.len() == 4 && "CRV"@.len() == 3);
    assert forall|i: int| 0 <= i < s.len() implies lower[i] == text::ascii_lower(
        #[trigger] upper[i],
    ) by {}
    if upper == "ASTER"@ {
        assert forall|i: int| 0 <= i < s.len() implies #[trigger] document_laws::same_letter(
            s[i],
            "ASTER"@[i],
        ) by {
            assert(upper[i] == text::ascii_upper(s[i]));
        }
    }
    if document_laws::same_letters(s, "ASTER"@) {
        assert forall|i: int| 0 <= i < s.len() implies upper[i] == "ASTER"@[i] by {
            assert(document_laws::same_letter(s[i], "ASTER"@[i]));
            assert('A' <= "ASTER"@[i] <= 'Z');
        }
        assert(upper =~= "ASTER"@);
    }
    if upper == "BTC"@ {
        assert(lower.len() == 3);
        assert(lower[0] == text::ascii_lower(upper[0]));
        assert(lower[1] == text::ascii_lower(upper[1]));
        assert(lower[2] == text::ascii_lower(upper[2]));
        assert("btcusdt"@ =~= lower + "usdt"@);
    }
    if upper == "ETH"@ {
        assert(lower.len() == 3);
        assert(lower[0] == text::ascii_lower(upper[0]));
        assert(lower[1] == text::ascii_lower(upper[1]));
        assert(lower[2] == text::ascii_lower(upper[2]));
        assert("ethusdt"@ =~= lower + "usdt"@);
    }
    if upper == "SOL"@ {
        assert(lower.len() == 3);
        assert(lower[0] == text::ascii_lower(upper[0]));
        assert(lower[1] == text::ascii_lower(upper[1]));
        assert(lower[2] == text::ascii_lower(upper[2]));
        assert("solusdt"@ =~= lower + "usdt"@);
    }
    if upper == "PAXG"@ {
        assert(lower.len() == 4);
        assert(lower[0] == text::ascii_lower(upper[0]));
        assert(lower[1] == text::ascii_lower(upper[1]));
        assert(lower[2] == text::ascii_lower(upper[2]));
        assert(lower[3] == text::ascii_lower(upper[3]));
        assert("paxgusdt"@ =~= lower + "usdt"@);
    }
    if upper == "CRV"@ {
        assert(lower.len() == 3);
        assert(lower[0] == text::ascii_lower(upper[0]));
        assert(lower[1] == text::ascii_lower(upper[1]));
        assert(lower[2] == text::ascii_lower(upper[2]));
        assert("crvusdt"@ =~= lower + "usdt"@);
    }
}

/// The symbol on Binance of an upper-case symbol is its lower-case form with
/// `usdt` behind it, for those that are named as for any other; ASTER has none.
pub proof fn law_upper_symbols_are_small_with_usdt(upper: &str, lower: &str, r: Option<String>)
    requires
        call_ensures(ws_binance::binance_symbol_for, (upper, lower), r),
        text::ascii_lowered(upper@) == lower@,
    ensures
        upper@ == "ASTER"@ ==> r is None,
        upper@ != "ASTER"@ ==> (r matches Some(s) && s@ == lower@ + "usdt"@),
{
    let u = upper@;
    if u == "BTC"@ || u == "ETH"@ || u == "SOL"@ || u == "PAXG"@ || u == "CRV"@ {
        lemma_named_symbols_are_capitals(u);
    }
    lemma_small_symbols(u);
}

/// The prices of a ticker are passed on unless neither is above zero.
pub proof fn law_ticker_prices_are_passed_on(bid: Double, ask: Double, r: LighterAction)
    requires
        call_ensures(ws_lighter::on_ticker_prices, (bid, ask), r),
    ensures
        Double::zero().below(bid) || Double::zero().below(ask) ==> (
        r matches LighterAction::Deliver(LighterWsMsg::TickerUpdate { best_bid, best_ask })
            && best_bid == bid && best_ask == ask),
        !Double::zero().below(bid) && !Double::zero().below(ask) ==> r is Receive,
{
}

/// A subscription names its channel, and the feed is where it is.
pub proof fn law_subscription_names_channel(channel: &str, r: String, url: &'static str)
    requires
        call_ensures(ws_lighter::subscribe_message, (channel,), r),
        call_ensures(LighterSession::url, (), url),
    ensures
        json::text_tree(r@) matches Some(t) && t.text_at("type"@) == Some("subscribe"@)
            && t.text_at("channel"@) == Some(channel@),
        url@ == "wss://mainnet.zklighter.elliot.ai/stream"@,
{
}

} // verus!
