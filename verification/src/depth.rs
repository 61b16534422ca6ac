//! An order book kept in step with Binance: a snapshot, brought up to date by
//! the stream of changes, with sequence numbers checked.
use crate::arithmetic;
use crate::arithmetic::Arithmetic;
use crate::double::Double;
use crate::frame::Frame;
use crate::imbalance;
use crate::json;
use crate::json::{Json, Tree};
use crate::levels;
use crate::orderbook;
use crate::orderbook::{BookSide, Level};
use crate::reconnect::Backoff;
use crate::rolling_stats;
use crate::rolling_stats::{RollingStats, Stats};
use crate::text;
use crate::ws_binance;
use crate::ws_binance::{BinanceMsg, FeedAction, FIRST_DELAY, LONGEST_DELAY};
use vstd::prelude::*;

verus! {

/// `levels` are a result of reading the levels of a member; without the member
/// there are none.
pub open spec fn reads_side<A: Arithmetic>(
    ops: &A,
    t: Tree,
    name: Seq<char>,
    levels: Seq<(Double, Double)>,
) -> bool {
    match t.items_at(name) {
        Some(items) => levels::reads_pairs(ops, items, levels),
        None => levels == Seq::<(Double, Double)>::empty(),
    }
}

/// The integer of a member, zero where there is none.
pub open spec fn id_at(t: Tree, name: Seq<char>) -> i64 {
    match t.integer_at(name) {
        Some(id) => id,
        None => 0,
    }
}

/// `new_bids` and `new_asks` are what a snapshot describes.
pub open spec fn snapshot_applies<A: Arithmetic>(
    ops: &A,
    data: Tree,
    new_bids: Map<i64, Level>,
    new_asks: Map<i64, Level>,
) -> bool {
    exists|b: Seq<(Double, Double)>, a: Seq<(Double, Double)>| #[trigger]
        reads_side(ops, data, "bids"@, b) && #[trigger] reads_side(ops, data, "asks"@, a)
            && new_bids == orderbook::snapshot_of(b) && new_asks == orderbook::snapshot_of(a)
}

/// `new_bids` and `new_asks` are `bids` and `asks` after the changes of an
/// event.
pub open spec fn diff_applies<A: Arithmetic>(
    ops: &A,
    event: Tree,
    bids: Map<i64, Level>,
    asks: Map<i64, Level>,
    new_bids: Map<i64, Level>,
    new_asks: Map<i64, Level>,
) -> bool {
    exists|b: Seq<(Double, Double)>, a: Seq<(Double, Double)>| #[trigger]
        reads_side(ops, event, "b"@, b) && #[trigger] reads_side(ops, event, "a"@, a) && new_bids
            == orderbook::patched(bids, b) && new_asks == orderbook::patched(asks, a)
}

fn read_side<A: Arithmetic>(ops: &A, data: &Json, name: &str) -> (r: Vec<(Double, Double)>)
    ensures
        reads_side(ops, data@, name@, r@),
{
    match data.array_at(name) {
        Some(items) => levels::read_pairs(ops, items.as_slice()),
        None => Vec::new(),
    }
}

fn read_id(data: &Json, name: &str) -> (r: i64)
    ensures
        r == id_at(data@, name@),
{
    match data.i64_at(name) {
        Some(id) => id,
        None => 0,
    }
}

/// Replaces a book by a snapshot.
pub fn apply_binance_snapshot<A: Arithmetic>(
    ops: &A,
    data: &Json,
    bids: &mut BookSide,
    asks: &mut BookSide,
    last_update_id: &mut i64,
)
    ensures
        final(bids).wf(),
        final(asks).wf(),
        snapshot_applies(ops, data@, final(bids)@, final(asks)@),
        *final(last_update_id) == id_at(data@, "lastUpdateId"@),
{
    let b = read_side(ops, data, "bids");
    let a = read_side(ops, data, "asks");
    bids.load(b.as_slice());
    asks.load(a.as_slice());
    *last_update_id = read_id(data, "lastUpdateId");
    assert(reads_side(ops, data@, "bids"@, b@));
    assert(reads_side(ops, data@, "asks"@, a@));
}

/// Applies the changes of an event to a book.
pub fn apply_binance_diff<A: Arithmetic>(
    ops: &A,
    event: &Json,
    bids: &mut BookSide,
    asks: &mut BookSide,
)
    requires
        old(bids).wf(),
        old(asks).wf(),
    ensures
        final(bids).wf(),
        final(asks).wf(),
        diff_applies(ops, event@, old(bids)@, old(asks)@, final(bids)@, final(asks)@),
{
    let b = read_side(ops, event, "b");
    let a = read_side(ops, event, "a");
    bids.patch(b.as_slice());
    asks.patch(a.as_slice());
    assert(reads_side(ops, event@, "b"@, b@));
    assert(reads_side(ops, event@, "a"@, a@));
}

/// Where the catching up of a snapshot with the buffered events stands.
pub struct Catchup {
    /// Whether the event that follows on the snapshot has been found.
    pub found: bool,
    /// The last id of the last event applied, zero before the first.
    pub prev_u: i64,
    pub bids: Map<i64, Level>,
    pub asks: Map<i64, Level>,
}

/// An event is newer than a snapshot.
pub open spec fn is_newer(event: Tree, last_update_id: i64) -> bool {
    id_at(event, "u"@) > last_update_id
}

/// An event covers the update that follows on a snapshot.
pub open spec fn follows_on(event: Tree, last_update_id: i64) -> bool {
    id_at(event, "U"@) <= last_update_id + 1 <= id_at(event, "u"@)
}

/// `t` is `s` after one buffered event: what is not newer than the snapshot is
/// passed over, and so is everything before the first event that follows on
/// it.
pub open spec fn catches_up<A: Arithmetic>(
    ops: &A,
    last_update_id: i64,
    s: Catchup,
    event: Tree,
    t: Catchup,
) -> bool {
    if is_newer(event, last_update_id) && (s.found || follows_on(event, last_update_id)) {
        &&& t.found
        &&& t.prev_u == id_at(event, "u"@)
        &&& diff_applies(ops, event, s.bids, s.asks, t.bids, t.asks)
    } else {
        t == s
    }
}

/// The states that buffered events drive the catching up through.
pub open spec fn catchup_run<A: Arithmetic>(
    ops: &A,
    last_update_id: i64,
    events: Seq<Tree>,
    states: Seq<Catchup>,
) -> bool {
    &&& states.len() == events.len() + 1
    &&& forall|i: int|
        #![trigger events[i]]
        0 <= i < events.len() ==> catches_up(
            ops,
            last_update_id,
            states[i],
            events[i],
            states[i + 1],
        )
}

/// `t` is where a snapshot stands after all buffered events.
pub open spec fn catches_up_with_all<A: Arithmetic>(
    ops: &A,
    last_update_id: i64,
    bids: Map<i64, Level>,
    asks: Map<i64, Level>,
    events: Seq<Tree>,
    t: Catchup,
) -> bool {
    exists|states: Seq<Catchup>| #[trigger]
        catchup_run(ops, last_update_id, events, states) && states[0] == (Catchup {
            found: false,
            prev_u: 0,
            bids,
            asks,
        }) && states.last() == t
}

/// One of the events is newer than a snapshot and follows on it.
pub open spec fn has_following_event(events: Seq<Tree>, last_update_id: i64) -> bool {
    exists|i: int|
        0 <= i < events.len() && is_newer(#[trigger] events[i], last_update_id) && follows_on(
            events[i],
            last_update_id,
        )
}

/// The catching up has found its event exactly if one of the buffered events is
/// newer than the snapshot and follows on it. Until then the book is the
/// snapshot's.
pub proof fn law_catchup_finds_following_event<A: Arithmetic>(
    ops: &A,
    last_update_id: i64,
    events: Seq<Tree>,
    states: Seq<Catchup>,
)
    requires
        catchup_run(ops, last_update_id, events, states),
        !states[0].found,
    ensures
        states.last().found <==> has_following_event(events, last_update_id),
        !states.last().found ==> states.last() == states[0],
    decreases events.len(),
{
    if events.len() > 0 {
        let n = events.len() - 1;
        let before = events.drop_last();
        assert forall|i: int| #![trigger before[i]] 0 <= i < before.len() implies catches_up(
            ops,
            last_update_id,
            states.drop_last()[i],
            before[i],
            states.drop_last()[i + 1],
        ) by {
            assert(before[i] == events[i]);
        }
        law_catchup_finds_following_event(ops, last_update_id, before, states.drop_last());
        assert(states.drop_last().last() == states[n]);
        assert(catches_up(ops, last_update_id, states[n], events[n], states[n + 1]));
        if has_following_event(before, last_update_id) {
            let i = choose|i: int|
                0 <= i < before.len() && is_newer(#[trigger] before[i], last_update_id)
                    && follows_on(before[i], last_update_id);
            assert(events[i] == before[i]);
        }
        if has_following_event(events, last_update_id) {
            let i = choose|i: int|
                0 <= i < events.len() && is_newer(#[trigger] events[i], last_update_id)
                    && follows_on(events[i], last_update_id);
            if i < n {
                assert(before[i] == events[i]);
            }
        }
    }
}

/// Once the event that follows on a snapshot has been found, every later event
/// that is newer than the snapshot is applied, and the last one applied is
/// remembered.
pub proof fn law_catchup_applies_newer_events<A: Arithmetic>(
    ops: &A,
    last_update_id: i64,
    s: Catchup,
    event: Tree,
    t: Catchup,
)
    requires
        catches_up(ops, last_update_id, s, event, t),
        s.found,
    ensures
        t.found,
        is_newer(event, last_update_id) ==> t.prev_u == id_at(event, "u"@) && diff_applies(
            ops,
            event,
            s.bids,
            s.asks,
            t.bids,
            t.asks,
        ),
        !is_newer(event, last_update_id) ==> t == s,
{
}

/// What a [`DepthSession`] holds.
#[verifier::ext_equal]
pub struct Depth {
    pub symbol: Seq<char>,
    pub looking_depth: Double,
    pub snapshot_limit: nat,
    pub backoff: Backoff,
    pub bids: Map<i64, Level>,
    pub asks: Map<i64, Level>,
    pub imb_stats: Stats,
    pub last_update_id: i64,
    pub prev_u: i64,
    /// The events that came before the snapshot.
    pub buffer: Seq<Tree>,
}

impl Depth {
    /// The session at the start of an attempt to connect.
    pub open spec fn begun(self) -> Depth {
        Depth {
            bids: Map::empty(),
            asks: Map::empty(),
            imb_stats: Stats::empty(self.imb_stats.capacity),
            last_update_id: 0,
            prev_u: 0,
            buffer: Seq::empty(),
            ..self
        }
    }

    /// The session after its next delay has been used.
    pub open spec fn delayed(self) -> Depth {
        Depth { backoff: self.backoff.doubled(), ..self }
    }
}

/// Whether a document is an event of the stream.
pub open spec fn is_event(t: Tree) -> bool {
    t.get("U"@) is Some && t.get("u"@) is Some
}

/// What comes after a snapshot.
#[derive(Clone, Copy, Debug, PartialEq, Eq, Structural)]
pub enum SyncOutcome {
    /// Read the live stream.
    Live,
    /// Connect again at once: no buffered event follows on the snapshot.
    Restart,
    /// There was no snapshot: wait, and connect again.
    Retry { delay_secs: u64 },
}

/// `t` is `s` after a snapshot.
pub open spec fn synchronizes<A: Arithmetic>(
    ops: &A,
    s: Depth,
    data: Tree,
    t: Depth,
    r: SyncOutcome,
) -> bool {
    exists|bids: Map<i64, Level>, asks: Map<i64, Level>, c: Catchup| #[trigger]
        snapshot_applies(ops, data, bids, asks) && #[trigger] catches_up_with_all(
            ops,
            id_at(data, "lastUpdateId"@),
            bids,
            asks,
            s.buffer,
            c,
        ) && t == (Depth {
            bids: c.bids,
            asks: c.asks,
            last_update_id: id_at(data, "lastUpdateId"@),
            prev_u: if c.found {
                c.prev_u
            } else {
                s.prev_u
            },
            ..s
        }) && r == if c.found || s.buffer.len() == 0 {
            SyncOutcome::Live
        } else {
            SyncOutcome::Restart
        }
}

/// A snapshot goes live exactly if a buffered event follows on it, or if none
/// was buffered; otherwise the connection is made again. Where no event follows
/// on it, no event is applied to it.
pub proof fn law_snapshot_needs_following_event<A: Arithmetic>(
    ops: &A,
    s: Depth,
    data: Tree,
    t: Depth,
    r: SyncOutcome,
)
    requires
        synchronizes(ops, s, data, t, r),
    ensures
        r == if s.buffer.len() == 0 || has_following_event(
            s.buffer,
            id_at(data, "lastUpdateId"@),
        ) {
            SyncOutcome::Live
        } else {
            SyncOutcome::Restart
        },
        !has_following_event(s.buffer, id_at(data, "lastUpdateId"@)) ==> snapshot_applies(
            ops,
            data,
            t.bids,
            t.asks,
        ) && t.prev_u == s.prev_u,
{
    let id = id_at(data, "lastUpdateId"@);
    let (bids, asks, c) = choose|bids: Map<i64, Level>, asks: Map<i64, Level>, c: Catchup|
        #[trigger] snapshot_applies(ops, data, bids, asks) && #[trigger] catches_up_with_all(
            ops,
            id,
            bids,
            asks,
            s.buffer,
            c,
        ) && t == (Depth {
            bids: c.bids,
            asks: c.asks,
            last_update_id: id,
            prev_u: if c.found {
                c.prev_u
            } else {
                s.prev_u
            },
            ..s
        }) && r == if c.found || s.buffer.len() == 0 {
            SyncOutcome::Live
        } else {
            SyncOutcome::Restart
        };
    let first = Catchup { found: false, prev_u: 0, bids, asks };
    let states = choose|states: Seq<Catchup>| #[trigger]
        catchup_run(ops, id, s.buffer, states) && states[0] == first && states.last() == c;
    law_catchup_finds_following_event(ops, id, s.buffer, states);
}

/// What is computed on the way to an alpha.
pub struct AlphaSteps {
    pub bid: Double,
    pub ask: Double,
    pub total: Double,
    pub mid: Double,
    pub imbalance: Double,
    pub alpha: Double,
}

/// `w` holds what is computed on the way to an alpha, `new_stats` are the
/// imbalances afterwards, and `r` is what is done.
pub open spec fn alpha_by<A: Arithmetic>(
    ops: &A,
    bids: Map<i64, Level>,
    asks: Map<i64, Level>,
    looking_depth: Double,
    stats: Stats,
    w: AlphaSteps,
    new_stats: Stats,
    r: FeedAction,
) -> bool {
    &&& orderbook::is_highest(bids, w.bid)
    &&& orderbook::is_lowest(asks, w.ask)
    &&& arithmetic::is_sum(ops, w.bid, w.ask, w.total)
    &&& arithmetic::is_product(ops, w.total, Double::half(), w.mid)
    &&& if Double::zero().below(w.mid) {
        &&& imbalance::is_imbalance(ops, bids, asks, w.mid, looking_depth, w.imbalance)
        &&& rolling_stats::pushes(ops, stats, w.imbalance, new_stats)
        &&& rolling_stats::is_zscore(ops, new_stats, w.imbalance, w.alpha)
        &&& r == FeedAction::Deliver(BinanceMsg::AlphaUpdate { alpha: w.alpha })
    } else {
        new_stats == stats && r is Receive
    }
}

/// `new_stats` and `r` follow from a book: with levels on both sides about a
/// positive mid-price, the z-score of its imbalance is passed on.
pub open spec fn is_alpha<A: Arithmetic>(
    ops: &A,
    bids: Map<i64, Level>,
    asks: Map<i64, Level>,
    looking_depth: Double,
    stats: Stats,
    new_stats: Stats,
    r: FeedAction,
) -> bool {
    if bids.dom().is_empty() || asks.dom().is_empty() {
        new_stats == stats && r is Receive
    } else {
        exists|w: AlphaSteps| alpha_by(ops, bids, asks, looking_depth, stats, w, new_stats, r)
    }
}

/// Whether an event does not follow on the one before.
pub open spec fn is_gap(prev_u: i64, event: Tree) -> bool {
    prev_u != 0 && id_at(event, "pu"@) != prev_u
}

/// `t` is `s` after a document of the live stream, and `r` is what is done.
/// What is no event is passed over; a gap in the sequence ends the connection.
pub open spec fn goes_live<A: Arithmetic>(
    ops: &A,
    s: Depth,
    event: Tree,
    t: Depth,
    r: FeedAction,
) -> bool {
    if !is_event(event) {
        t == s && r is Receive
    } else if is_gap(s.prev_u, event) {
        t == s.delayed() && ws_binance::is_lost(r, "depth"@, s.backoff.current)
    } else {
        &&& diff_applies(ops, event, s.bids, s.asks, t.bids, t.asks)
        &&& is_alpha(ops, t.bids, t.asks, s.looking_depth, s.imb_stats, t.imb_stats, r)
        &&& t == (Depth {
            bids: t.bids,
            asks: t.asks,
            imb_stats: t.imb_stats,
            prev_u: id_at(event, "u"@),
            ..s
        })
    }
}

/// Keeps an order book in step with Binance.
pub struct DepthSession {
    symbol: String,
    looking_depth: Double,
    snapshot_limit: usize,
    backoff: Backoff,
    bids: BookSide,
    asks: BookSide,
    imb_stats: RollingStats,
    last_update_id: i64,
    prev_u: i64,
    buffer: Vec<Json>,
}

impl DepthSession {
    pub closed spec fn wf(self) -> bool {
        &&& ws_binance::feed_backoff(self.backoff)
        &&& self.bids.wf()
        &&& self.asks.wf()
        &&& self.imb_stats.wf()
    }

    pub closed spec fn view(self) -> Depth {
        Depth {
            symbol: self.symbol@,
            looking_depth: self.looking_depth,
            snapshot_limit: self.snapshot_limit as nat,
            backoff: self.backoff,
            bids: self.bids@,
            asks: self.asks@,
            imb_stats: self.imb_stats@,
            last_update_id: self.last_update_id,
            prev_u: self.prev_u,
            buffer: self.buffer@.map_values(|j: Json| j@),
        }
    }

    /// The delays of a session that is well formed start at two seconds and are
    /// never more than a minute.
    pub proof fn lemma_delays(self)
        requires
            self.wf(),
        ensures
            self@.backoff.base == 2,
            self@.backoff.limit == 60,
            self@.backoff.current <= 60,
    {
    }

    /// A session for a lower-case symbol.
    pub fn for_symbol(
        symbol: &str,
        window_size: usize,
        looking_depth: Double,
        snapshot_limit: usize,
    ) -> (r: DepthSession)
        requires
            window_size > 0,
        ensures
            r.wf(),
            r@ == (Depth {
                symbol: symbol@,
                looking_depth,
                snapshot_limit: snapshot_limit as nat,
                backoff: Backoff::fresh(FIRST_DELAY, LONGEST_DELAY),
                bids: Map::empty(),
                asks: Map::empty(),
                imb_stats: Stats::empty(window_size as nat),
                last_update_id: 0,
                prev_u: 0,
                buffer: Seq::empty(),
            }),
    {
        let r = DepthSession {
            symbol: symbol.to_owned(),
            looking_depth,
            snapshot_limit,
            backoff: Backoff::new(FIRST_DELAY, LONGEST_DELAY),
            bids: BookSide::new(),
            asks: BookSide::new(),
            imb_stats: RollingStats::new(window_size),
            last_update_id: 0,
            prev_u: 0,
            buffer: Vec::new(),
        };
        assert(r@.buffer =~= Seq::empty());
        r
    }

    /// A session for a symbol in any letter case.
    pub fn new(
        binance_symbol: &str,
        window_size: usize,
        looking_depth: Double,
        snapshot_limit: usize,
    ) -> (r: DepthSession)
        requires
            window_size > 0,
        ensures
            r.wf(),
            text::is_ascii_text(binance_symbol@) ==> r@.symbol == text::ascii_lowered(
                binance_symbol@,
            ),
            r@ == (Depth {
                symbol: text::lowercase(binance_symbol@),
                looking_depth,
                snapshot_limit: snapshot_limit as nat,
                backoff: Backoff::fresh(FIRST_DELAY, LONGEST_DELAY),
                bids: Map::empty(),
                asks: Map::empty(),
                imb_stats: Stats::empty(window_size as nat),
                last_update_id: 0,
                prev_u: 0,
                buffer: Seq::empty(),
            }),
    {
        let symbol = text::to_lowercase(binance_symbol);
        DepthSession::for_symbol(symbol.as_str(), window_size, looking_depth, snapshot_limit)
    }

    /// Where the stream is.
    pub fn url(&self) -> (r: String)
        ensures
            r@ == "wss://fstream.binance.com/ws/"@ + self@.symbol + "@depth@100ms"@,
    {
        let mut url = "wss://fstream.binance.com/ws/".to_owned();
        url.append(self.symbol.as_str());
        url.append("@depth@100ms");
        url
    }

    /// Where the snapshot of an upper-case symbol is.
    pub fn snapshot_url_of(&self, symbol_upper: &str) -> (r: String)
        ensures
            r@ == "https://fapi.binance.com/fapi/v1/depth?symbol="@ + symbol_upper@ + "&limit="@
                + text::decimal(self@.snapshot_limit),
    {
        let mut url = "https://fapi.binance.com/fapi/v1/depth?symbol=".to_owned();
        url.append(symbol_upper);
        url.append("&limit=");
        text::append_decimal(&mut url, self.snapshot_limit as u64);
        url
    }

    /// Where the snapshot is.
    pub fn snapshot_url(&self) -> (r: String)
        ensures
            r@ == "https://fapi.binance.com/fapi/v1/depth?symbol="@ + text::uppercase(self@.symbol)
                + "&limit="@ + text::decimal(self@.snapshot_limit),
            text::is_ascii_text(self@.symbol) ==> r@
                == "https://fapi.binance.com/fapi/v1/depth?symbol="@ + text::ascii_uppered(
                self@.symbol,
            ) + "&limit="@ + text::decimal(self@.snapshot_limit),
    {
        let upper = text::to_uppercase(self.symbol.as_str());
        self.snapshot_url_of(upper.as_str())
    }

    /// The id of the snapshot that the book rests on.
    pub fn last_update_id(&self) -> (r: i64)
        ensures
            r == self@.last_update_id,
    {
        self.last_update_id
    }

    /// The id that the next event of the live stream has to follow on, zero
    /// before the first.
    pub fn expected_id(&self) -> (r: i64)
        ensures
            r == self@.prev_u,
    {
        self.prev_u
    }

    /// How many levels the book has on either side.
    pub fn level_counts(&self) -> (r: (usize, usize))
        ensures
            r.0 == self@.bids.len(),
            r.1 == self@.asks.len(),
    {
        (self.bids.len(), self.asks.len())
    }

    /// An attempt to connect begins: nothing is known of the book.
    pub fn begin(&mut self)
        requires
            old(self).wf(),
        ensures
            final(self).wf(),
            final(self)@ == old(self)@.begun(),
    {
        self.bids.clear();
        self.asks.clear();
        self.imb_stats.clear();
        self.last_update_id = 0;
        self.prev_u = 0;
        self.buffer.clear();
        assert(self@.buffer =~= Seq::empty());
    }

    /// The connection has been made.
    pub fn on_connected(&mut self)
        requires
            old(self).wf(),
        ensures
            final(self).wf(),
            final(self)@ == (Depth {
                backoff: Backoff::fresh(FIRST_DELAY, LONGEST_DELAY),
                ..old(self)@
            }),
    {
        self.backoff.reset();
    }

    /// The connection could not be made.
    pub fn on_connect_failed(&mut self) -> (r: FeedAction)
        requires
            old(self).wf(),
        ensures
            final(self).wf(),
            final(self)@ == old(self)@.delayed(),
            r == ws_binance::unreachable_action(old(self)@.backoff.current),
    {
        let delay_secs = self.backoff.next_delay();
        FeedAction::Reconnect { notice: None, delay_secs }
    }

    /// Keeps a document that came before the snapshot, if it is an event.
    pub fn keep(&mut self, data: Json)
        requires
            old(self).wf(),
        ensures
            final(self).wf(),
            final(self)@ == (Depth {
                buffer: if is_event(data@) {
                    old(self)@.buffer.push(data@)
                } else {
                    old(self)@.buffer
                },
                ..old(self)@
            }),
    {
        if data.get("U").is_some() && data.get("u").is_some() {
            self.buffer.push(data);
            assert(self@.buffer =~= old(self)@.buffer.push(data@));
        }
    }

    /// Takes what was read before the snapshot, and says whether to read on.
    pub fn on_early_frame(&mut self, frame: &Frame) -> (read_on: bool)
        requires
            old(self).wf(),
        ensures
            final(self).wf(),
            read_on == (frame is Text),
            final(self)@ == (Depth {
                buffer: match frame {
                    Frame::Text(t) => match json::text_tree(t@) {
                        Some(tree) => if is_event(tree) {
                            old(self)@.buffer.push(tree)
                        } else {
                            old(self)@.buffer
                        },
                        None => old(self)@.buffer,
                    },
                    _ => old(self)@.buffer,
                },
                ..old(self)@
            }),
    {
        match frame {
            Frame::Text(t) => {
                if let Some(data) = json::parse_json(t.as_str()) {
                    self.keep(data);
                }
                true
            },
            _ => false,
        }
    }

    /// Brings a snapshot up to date with the events that came before it.
    fn catch_up<A: Arithmetic>(&mut self, ops: &A) -> (found: bool)
        requires
            old(self).wf(),
        ensures
            final(self).wf(),
            exists|c: Catchup| #[trigger]
                catches_up_with_all(
                    ops,
                    old(self)@.last_update_id,
                    old(self)@.bids,
                    old(self)@.asks,
                    old(self)@.buffer,
                    c,
                ) && found == c.found && final(self)@ == (Depth {
                    bids: c.bids,
                    asks: c.asks,
                    prev_u: if c.found {
                        c.prev_u
                    } else {
                        old(self)@.prev_u
                    },
                    ..old(self)@
                }),
    {
        let ghost events = self@.buffer;
        let ghost first = Catchup { found: false, prev_u: 0, bids: self@.bids, asks: self@.asks };
        let ghost mut states: Seq<Catchup> = seq![first];
        let last_update_id = self.last_update_id;
        let mut found = false;
        let count: usize = self.buffer.len();
        for i in 0..count
            invariant
                self.wf(),
                events == old(self)@.buffer,
                self.buffer@ == old(self).buffer@,
                count == self.buffer@.len(),
                last_update_id == old(self)@.last_update_id,
                first == (Catchup {
                    found: false,
                    prev_u: 0,
                    bids: old(self)@.bids,
                    asks: old(self)@.asks,
                }),
                states.len() == i + 1,
                states[0] == first,
                forall|k: int|
                    #![trigger events[k]]
                    0 <= k < i ==> catches_up(
                        ops,
                        last_update_id,
                        states[k],
                        events[k],
                        states[k + 1],
                    ),
                states.last().found == found,
                states.last().bids == self@.bids,
                states.last().asks == self@.asks,
                self@ == (Depth {
                    bids: self@.bids,
                    asks: self@.asks,
                    prev_u: if found {
                        states.last().prev_u
                    } else {
                        old(self)@.prev_u
                    },
                    ..old(self)@
                }),
        {
            let ghost was = states.last();
            let u = read_id(&self.buffer[i], "u");
            let big_u = read_id(&self.buffer[i], "U");
            assert(events[i as int] == self.buffer@[i as int]@);
            if u > last_update_id && (found || (big_u <= last_update_id + 1 && u >= last_update_id
                + 1)) {
                found = true;
                apply_binance_diff(ops, &self.buffer[i], &mut self.bids, &mut self.asks);
                self.prev_u = u;
                proof {
                    let now = Catchup {
                        found: true,
                        prev_u: u,
                        bids: self.bids@,
                        asks: self.asks@,
                    };
                    assert(catches_up(ops, last_update_id, was, events[i as int], now));
                    states = states.push(now);
                }
            } else {
                proof {
                    assert(catches_up(ops, last_update_id, was, events[i as int], was));
                    states = states.push(was);
                }
            }
        }
        proof {
            assert(events.len() == count);
            assert(catchup_run(ops, last_update_id, events, states));
            assert(catches_up_with_all(
                ops,
                old(self)@.last_update_id,
                old(self)@.bids,
                old(self)@.asks,
                old(self)@.buffer,
                states.last(),
            ));
        }
        found
    }

    /// Takes the snapshot, if there is one, and the events that came before it.
    pub fn on_snapshot<A: Arithmetic>(
        &mut self,
        ops: &A,
        snapshot: Option<&Json>,
    ) -> (r: SyncOutcome)
        requires
            old(self).wf(),
        ensures
            final(self).wf(),
            match snapshot {
                Some(data) => synchronizes(ops, old(self)@, data@, final(self)@, r),
                None => final(self)@ == old(self)@.delayed() && r == (SyncOutcome::Retry {
                    delay_secs: old(self)@.backoff.current,
                }),
            },
    {
        match snapshot {
            Some(data) => {
                apply_binance_snapshot(
                    ops,
                    data,
                    &mut self.bids,
                    &mut self.asks,
                    &mut self.last_update_id,
                );
                let ghost loaded = *self;
                assert(snapshot_applies(ops, data@, loaded@.bids, loaded@.asks));
                let found = self.catch_up(ops);
                if found || self.buffer.is_empty() {
                    SyncOutcome::Live
                } else {
                    SyncOutcome::Restart
                }
            },
            None => {
                let delay_secs = self.backoff.next_delay();
                SyncOutcome::Retry { delay_secs }
            },
        }
    }

    /// Takes the text of the snapshot, if it could be fetched. What is no
    /// document counts as no snapshot.
    pub fn on_snapshot_text<A: Arithmetic>(
        &mut self,
        ops: &A,
        body: Option<&str>,
    ) -> (r: SyncOutcome)
        requires
            old(self).wf(),
        ensures
            final(self).wf(),
            body is Some && json::text_tree(body->0@) is Some ==> synchronizes(
                ops,
                old(self)@,
                json::text_tree(body->0@)->0,
                final(self)@,
                r,
            ),
            body is None || json::text_tree(body->0@) is None ==> final(self)@
                == old(self)@.delayed() && r == (SyncOutcome::Retry {
                delay_secs: old(self)@.backoff.current,
            }),
    {
        match body {
            Some(t) => match json::parse_json(t) {
                Some(data) => self.on_snapshot(ops, Some(&data)),
                None => self.on_snapshot(ops, None),
            },
            None => self.on_snapshot(ops, None),
        }
    }

    /// The connection is lost.
    fn lose(&mut self) -> (r: FeedAction)
        requires
            old(self).wf(),
        ensures
            final(self).wf(),
            final(self)@ == old(self)@.delayed(),
            ws_binance::is_lost(r, "depth"@, old(self)@.backoff.current),
    {
        let delay_secs = self.backoff.next_delay();
        FeedAction::Reconnect {
            notice: Some(BinanceMsg::Disconnected { feed: "depth" }),
            delay_secs,
        }
    }

    /// The alpha of the book as it stands.
    fn alpha<A: Arithmetic>(&mut self, ops: &A) -> (r: FeedAction)
        requires
            old(self).wf(),
        ensures
            final(self).wf(),
            final(self)@ == (Depth { imb_stats: final(self)@.imb_stats, ..old(self)@ }),
            is_alpha(
                ops,
                old(self)@.bids,
                old(self)@.asks,
                old(self)@.looking_depth,
                old(self)@.imb_stats,
                final(self)@.imb_stats,
                r,
            ),
    {
        match (self.bids.highest(), self.asks.lowest()) {
            (Some(bid), Some(ask)) => {
                let total = ops.plus(bid, ask);
                let mid = ops.times(total, Double::half());
                let ghost mut w = AlphaSteps {
                    bid,
                    ask,
                    total,
                    mid,
                    imbalance: Double::zero(),
                    alpha: Double::zero(),
                };
                let r = if mid.gt(Double::zero()) {
                    let imbalance = imbalance::compute_imbalance(
                        ops,
                        &self.bids,
                        &self.asks,
                        mid,
                        self.looking_depth,
                    );
                    self.imb_stats.push(ops, imbalance);
                    let alpha = self.imb_stats.zscore(ops, imbalance);
                    proof {
                        w.imbalance = imbalance;
                        w.alpha = alpha;
                    }
                    FeedAction::Deliver(BinanceMsg::AlphaUpdate { alpha })
                } else {
                    FeedAction::Receive
                };
                assert(alpha_by(
                    ops,
                    old(self)@.bids,
                    old(self)@.asks,
                    old(self)@.looking_depth,
                    old(self)@.imb_stats,
                    w,
                    self@.imb_stats,
                    r,
                ));
                r
            },
            _ => FeedAction::Receive,
        }
    }

    /// Takes a document of the live stream.
    pub fn on_event<A: Arithmetic>(&mut self, ops: &A, event: &Json) -> (r: FeedAction)
        requires
            old(self).wf(),
        ensures
            final(self).wf(),
            goes_live(ops, old(self)@, event@, final(self)@, r),
    {
        if event.get("U").is_none() || event.get("u").is_none() {
            return FeedAction::Receive;
        }
        // Sequence check
        let pu = read_id(event, "pu");
        if self.prev_u != 0 && pu != self.prev_u {
            return self.lose();
        }
        apply_binance_diff(ops, event, &mut self.bids, &mut self.asks);
        self.prev_u = read_id(event, "u");
        self.alpha(ops)
    }

    /// What to do after reading from the live stream.
    pub fn on_frame<A: Arithmetic>(&mut self, ops: &A, frame: &Frame) -> (r: FeedAction)
        requires
            old(self).wf(),
        ensures
            final(self).wf(),
            match frame {
                Frame::Text(t) => match json::text_tree(t@) {
                    Some(tree) => goes_live(ops, old(self)@, tree, final(self)@, r),
                    None => final(self)@ == old(self)@ && r is Receive,
                },
                _ => if frame.is_loss() {
                    final(self)@ == old(self)@.delayed() && ws_binance::is_lost(
                        r,
                        "depth"@,
                        old(self)@.backoff.current,
                    )
                } else {
                    final(self)@ == old(self)@ && r is Receive
                },
            },
    {
        match frame {
            Frame::Text(t) => match json::parse_json(t.as_str()) {
                Some(event) => self.on_event(ops, &event),
                None => FeedAction::Receive,
            },
            Frame::Close | Frame::Failed | Frame::Ended | Frame::Silent => self.lose(),
            Frame::Pong | Frame::Other => FeedAction::Receive,
        }
    }
}

/// A gap in the sequence is never applied: the book stays as it was and the
/// connection is given up. Without a gap the event becomes the one that the
/// next has to follow on.
pub proof fn law_gaps_are_never_applied<A: Arithmetic>(
    ops: &A,
    s: Depth,
    event: Tree,
    t: Depth,
    r: FeedAction,
)
    requires
        goes_live(ops, s, event, t, r),
        is_event(event),
    ensures
        is_gap(s.prev_u, event) ==> t.bids == s.bids && t.asks == s.asks && t.prev_u == s.prev_u
            && r is Reconnect,
        !is_gap(s.prev_u, event) ==> t.prev_u == id_at(event, "u"@) && !(r is Reconnect),
{
}

/// Events that are applied in a row follow on each other.
pub proof fn law_applied_events_are_contiguous<A: Arithmetic>(
    ops: &A,
    s: Depth,
    first: Tree,
    t: Depth,
    r: FeedAction,
    second: Tree,
    u: Depth,
    q: FeedAction,
)
    requires
        goes_live(ops, s, first, t, r),
        is_event(first),
        !(r is Reconnect),
        goes_live(ops, t, second, u, q),
        is_event(second),
        !(q is Reconnect),
        id_at(first, "u"@) != 0,
    ensures
        id_at(second, "pu"@) == id_at(first, "u"@),
{
}

/// No level of a book has size zero.
pub open spec fn no_empty_levels(bids: Map<i64, Level>, asks: Map<i64, Level>) -> bool {
    orderbook::no_zero_sizes(bids) && orderbook::no_zero_sizes(asks)
}

/// The changes of an event leave no level of size zero.
proof fn lemma_diff_keeps_sizes<A: Arithmetic>(
    ops: &A,
    event: Tree,
    bids: Map<i64, Level>,
    asks: Map<i64, Level>,
    new_bids: Map<i64, Level>,
    new_asks: Map<i64, Level>,
)
    requires
        diff_applies(ops, event, bids, asks, new_bids, new_asks),
        no_empty_levels(bids, asks),
    ensures
        no_empty_levels(new_bids, new_asks),
{
    let (b, a) = choose|b: Seq<(Double, Double)>, a: Seq<(Double, Double)>| #[trigger]
        reads_side(ops, event, "b"@, b) && #[trigger] reads_side(ops, event, "a"@, a) && new_bids
            == orderbook::patched(bids, b) && new_asks == orderbook::patched(asks, a);
    orderbook::law_sizes_never_zero(bids, b);
    orderbook::law_sizes_never_zero(asks, a);
}

/// Neither do those of any number of buffered events.
proof fn lemma_catchup_keeps_sizes<A: Arithmetic>(
    ops: &A,
    last_update_id: i64,
    events: Seq<Tree>,
    states: Seq<Catchup>,
    n: int,
)
    requires
        catchup_run(ops, last_update_id, events, states),
        no_empty_levels(states[0].bids, states[0].asks),
        0 <= n <= events.len(),
    ensures
        no_empty_levels(states[n].bids, states[n].asks),
    decreases n,
{
    if n > 0 {
        lemma_catchup_keeps_sizes(ops, last_update_id, events, states, n - 1);
        let s = states[n - 1];
        let event = events[n - 1];
        assert(catches_up(ops, last_update_id, s, event, states[n]));
        if states[n] != s {
            lemma_diff_keeps_sizes(ops, event, s.bids, s.asks, states[n].bids, states[n].asks);
        }
    }
}

/// A book that goes live holds no level of size zero, whatever the snapshot and
/// the buffered events say.
pub proof fn law_synchronized_book_has_no_empty_levels<A: Arithmetic>(
    ops: &A,
    s: Depth,
    data: Tree,
    t: Depth,
    r: SyncOutcome,
)
    requires
        synchronizes(ops, s, data, t, r),
    ensures
        no_empty_levels(t.bids, t.asks),
{
    let id = id_at(data, "lastUpdateId"@);
    let (bids, asks, c) = choose|bids: Map<i64, Level>, asks: Map<i64, Level>, c: Catchup|
        #[trigger] snapshot_applies(ops, data, bids, asks) && #[trigger] catches_up_with_all(
            ops,
            id,
            bids,
            asks,
            s.buffer,
            c,
        ) && t.bids == c.bids && t.asks == c.asks;
    let (b, a) = choose|b: Seq<(Double, Double)>, a: Seq<(Double, Double)>| #[trigger]
        reads_side(ops, data, "bids"@, b) && #[trigger] reads_side(ops, data, "asks"@, a) && bids
            == orderbook::snapshot_of(b) && asks == orderbook::snapshot_of(a);
    orderbook::law_sizes_never_zero(bids, b);
    orderbook::law_sizes_never_zero(asks, a);
    let first = Catchup { found: false, prev_u: 0, bids, asks };
    let states = choose|states: Seq<Catchup>| #[trigger]
        catchup_run(ops, id, s.buffer, states) && states[0] == first && states.last() == c;
    lemma_catchup_keeps_sizes(ops, id, s.buffer, states, s.buffer.len() as int);
}

/// A live book stays without levels of size zero.
pub proof fn law_live_book_has_no_empty_levels<A: Arithmetic>(
    ops: &A,
    s: Depth,
    event: Tree,
    t: Depth,
    r: FeedAction,
)
    requires
        goes_live(ops, s, event, t, r),
        no_empty_levels(s.bids, s.asks),
    ensures
        no_empty_levels(t.bids, t.asks),
{
    if is_event(event) && !is_gap(s.prev_u, event) {
        lemma_diff_keeps_sizes(ops, event, s.bids, s.asks, t.bids, t.asks);
    }
}

/// Applying an event to a book a second time changes nothing: read as it was
/// the first time, it leaves the book as it is. With a parser that agrees with
/// itself, there is no other reading.
pub proof fn law_event_applied_twice_is_applied_once<A: Arithmetic>(
    ops: &A,
    event: Tree,
    bids: Map<i64, Level>,
    asks: Map<i64, Level>,
    once_bids: Map<i64, Level>,
    once_asks: Map<i64, Level>,
    twice_bids: Map<i64, Level>,
    twice_asks: Map<i64, Level>,
)
    requires
        diff_applies(ops, event, bids, asks, once_bids, once_asks),
        diff_applies(ops, event, once_bids, once_asks, twice_bids, twice_asks),
    ensures
        diff_applies(ops, event, once_bids, once_asks, once_bids, once_asks),
        arithmetic::parses_alike(ops) ==> orderbook::sides_alike(twice_bids, once_bids)
            && orderbook::sides_alike(twice_asks, once_asks),
{
    let (b, a) = choose|b: Seq<(Double, Double)>, a: Seq<(Double, Double)>| #[trigger]
        reads_side(ops, event, "b"@, b) && #[trigger] reads_side(ops, event, "a"@, a) && once_bids
            == orderbook::patched(bids, b) && once_asks == orderbook::patched(asks, a);
    let (d, c) = choose|d: Seq<(Double, Double)>, c: Seq<(Double, Double)>| #[trigger]
        reads_side(ops, event, "b"@, d) && #[trigger] reads_side(ops, event, "a"@, c) && twice_bids
            == orderbook::patched(once_bids, d) && twice_asks == orderbook::patched(once_asks, c);
    orderbook::law_patch_is_idempotent(bids, b);
    orderbook::law_patch_is_idempotent(asks, a);
    assert(reads_side(ops, event, "b"@, b) && reads_side(ops, event, "a"@, a));
    if arithmetic::parses_alike(ops) {
        lemma_sides_are_read_alike(ops, event, "b"@, d, b);
        lemma_sides_are_read_alike(ops, event, "a"@, c, a);
        orderbook::lemma_patched_alike(once_bids, d, b);
        orderbook::lemma_patched_alike(once_asks, c, a);
    }
}

proof fn lemma_sides_are_read_alike<A: Arithmetic>(
    ops: &A,
    t: Tree,
    name: Seq<char>,
    a: Seq<(Double, Double)>,
    b: Seq<(Double, Double)>,
)
    requires
        arithmetic::parses_alike(ops),
        reads_side(ops, t, name, a),
        reads_side(ops, t, name, b),
    ensures
        orderbook::entries_alike(a, b),
{
    if let Some(items) = t.items_at(name) {
        levels::law_pairs_are_read_alike(ops, items, a, b);
    }
}

/// The last change to a price decides: where an event lists a price on a side,
/// its last size stands there after the event, and size zero leaves no level;
/// any other price keeps its level, or its absence.
pub proof fn law_last_change_of_event_wins<A: Arithmetic>(
    ops: &A,
    event: Tree,
    bids: Map<i64, Level>,
    asks: Map<i64, Level>,
    new_bids: Map<i64, Level>,
    new_asks: Map<i64, Level>,
)
    requires
        diff_applies(ops, event, bids, asks, new_bids, new_asks),
    ensures
        exists|b: Seq<(Double, Double)>, a: Seq<(Double, Double)>| #[trigger]
            reads_side(ops, event, "b"@, b) && #[trigger] reads_side(ops, event, "a"@, a)
                && decides(bids, b, new_bids) && decides(asks, a, new_asks),
        event.items_at("b"@) is None ==> new_bids == bids,
        event.items_at("a"@) is None ==> new_asks == asks,
{
    let (b, a) = choose|b: Seq<(Double, Double)>, a: Seq<(Double, Double)>| #[trigger]
        reads_side(ops, event, "b"@, b) && #[trigger] reads_side(ops, event, "a"@, a) && new_bids
            == orderbook::patched(bids, b) && new_asks == orderbook::patched(asks, a);
    assert forall|k: i64| #[trigger] decides_at(bids, b, new_bids, k) by {
        orderbook::law_last_change_wins(bids, b, k);
    }
    assert forall|k: i64| #[trigger] decides_at(asks, a, new_asks, k) by {
        orderbook::law_last_change_wins(asks, a, k);
    }
}

/// At place `k` the last of the changes decides what stands in `after`; without
/// a change there `before` does.
pub open spec fn decides_at(
    before: Map<i64, Level>,
    changes: Seq<(Double, Double)>,
    after: Map<i64, Level>,
    k: i64,
) -> bool {
    &&& forall|i: int| #[trigger]
        orderbook::is_last_for(changes, k, i) ==> (after.contains_key(k)
            <==> !changes[i].1.equals(Double::zero())) && (after.contains_key(k) ==> after[k].size
            == changes[i].1)
    &&& (forall|i: int| 0 <= i < changes.len() ==> orderbook::key((#[trigger] changes[i]).0) != k)
        ==> after.contains_key(k) == before.contains_key(k) && after[k] == before[k]
}

pub open spec fn decides(
    before: Map<i64, Level>,
    changes: Seq<(Double, Double)>,
    after: Map<i64, Level>,
) -> bool {
    forall|k: i64| #[trigger] decides_at(before, changes, after, k)
}

/// The states that documents drive a live session through, and what is done
/// with each.
pub open spec fn live_run<A: Arithmetic>(
    ops: &A,
    states: Seq<Depth>,
    events: Seq<Tree>,
    actions: Seq<FeedAction>,
) -> bool {
    &&& states.len() == events.len() + 1
    &&& actions.len() == events.len()
    &&& forall|i: int|
        #![trigger events[i]]
        0 <= i < events.len() ==> goes_live(ops, states[i], events[i], states[i + 1], actions[i])
}

/// `x` is the imbalance of the book of a session about the middle of its best
/// prices.
pub open spec fn is_own_imbalance<A: Arithmetic>(ops: &A, s: Depth, x: Double) -> bool {
    exists|bid: Double, ask: Double, total: Double, mid: Double|
        orderbook::is_highest(s.bids, bid) && orderbook::is_lowest(s.asks, ask)
            && #[trigger] arithmetic::is_sum(ops, bid, ask, total)
            && #[trigger] arithmetic::is_product(ops, total, Double::half(), mid)
            && imbalance::is_imbalance(ops, s.bids, s.asks, mid, s.looking_depth, x)
}

/// `before` and `after` are the imbalances that a session has seen, before and
/// after an action that leaves it as `t`: an alpha is the z-score of one more, among as many of the latest as the window holds;
/// the first is zero.
pub open spec fn alpha_follows<A: Arithmetic>(
    ops: &A,
    before: Seq<Double>,
    after: Seq<Double>,
    t: Depth,
    action: FeedAction,
) -> bool {
    match action {
        FeedAction::Deliver(BinanceMsg::AlphaUpdate { alpha }) => {
            &&& after.len() == before.len() + 1
            &&& after.drop_last() == before
            &&& is_own_imbalance(ops, t, after.last())
            &&& rolling_stats::is_zscore(ops, t.imb_stats, after.last(), alpha)
            &&& before.len() == 0 ==> alpha == Double::zero()
        },
        _ => after == before,
    }
}

/// `seen` are the imbalances that a session has seen, state by state: none at
/// first, one more with every alpha; its window holds the latest of them.
pub open spec fn alphas_follow<A: Arithmetic>(
    ops: &A,
    capacity: nat,
    states: Seq<Depth>,
    actions: Seq<FeedAction>,
    seen: Seq<Seq<Double>>,
) -> bool {
    &&& seen.len() == states.len()
    &&& seen[0] == Seq::<Double>::empty()
    &&& forall|i: int|
        #![trigger actions[i]]
        0 <= i < actions.len() ==> alpha_follows(
            ops,
            seen[i],
            seen[i + 1],
            states[i + 1],
            actions[i],
        )
    &&& forall|i: int|
        #![trigger states[i]]
        0 <= i < states.len() ==> rolling_stats::holds_stream(
            ops,
            capacity,
            seen[i],
            states[i].imb_stats,
        ) && states[i].imb_stats.window == rolling_stats::last_of(seen[i], capacity)
}

/// One step of a live session, seen from its imbalances.
proof fn lemma_alpha_follows<A: Arithmetic>(
    ops: &A,
    capacity: nat,
    s: Depth,
    event: Tree,
    t: Depth,
    action: FeedAction,
    before: Seq<Double>,
) -> (after: Seq<Double>)
    requires
        goes_live(ops, s, event, t, action),
        0 < capacity,
        rolling_stats::holds_stream(ops, capacity, before, s.imb_stats),
    ensures
        alpha_follows(ops, before, after, t, action),
        rolling_stats::holds_stream(ops, capacity, after, t.imb_stats),
{
    match action {
        FeedAction::Deliver(BinanceMsg::AlphaUpdate { alpha }) => {
            let w = choose|w: AlphaSteps|
                alpha_by(ops, t.bids, t.asks, s.looking_depth, s.imb_stats, w, t.imb_stats, action);
            assert(alpha_by(
                ops,
                t.bids,
                t.asks,
                s.looking_depth,
                s.imb_stats,
                w,
                t.imb_stats,
                action,
            ));
            let x = w.imbalance;
            let after = before.push(x);
            rolling_stats::lemma_stream_grows(
                ops,
                capacity,
                before,
                s.imb_stats,
                x,
                t.imb_stats,
            );
            assert(after.drop_last() =~= before);
            assert(arithmetic::is_sum(ops, w.bid, w.ask, w.total));
            assert(arithmetic::is_product(ops, w.total, Double::half(), w.mid));
            assert(is_own_imbalance(ops, t, x));
            if before.len() == 0 {
                rolling_stats::lemma_stream_is_held(ops, capacity, before, s.imb_stats);
                rolling_stats::lemma_stream_is_held(ops, capacity, after, t.imb_stats);
                rolling_stats::law_single_value_has_no_deviation(
                    ops,
                    s.imb_stats,
                    x,
                    t.imb_stats,
                    x,
                    alpha,
                );
            }
            after
        },
        _ => {
            if is_event(event) && !is_gap(s.prev_u, event) && !(s.imb_stats == t.imb_stats) {
                let w = choose|w: AlphaSteps|
                    alpha_by(
                        ops,
                        t.bids,
                        t.asks,
                        s.looking_depth,
                        s.imb_stats,
                        w,
                        t.imb_stats,
                        action,
                    );
                assert(alpha_by(
                    ops,
                    t.bids,
                    t.asks,
                    s.looking_depth,
                    s.imb_stats,
                    w,
                    t.imb_stats,
                    action,
                ));
            }
            before
        },
    }
}

proof fn lemma_alphas_follow<A: Arithmetic>(
    ops: &A,
    capacity: nat,
    states: Seq<Depth>,
    events: Seq<Tree>,
    actions: Seq<FeedAction>,
) -> (seen: Seq<Seq<Double>>)
    requires
        live_run(ops, states, events, actions),
        0 < capacity,
        states[0].imb_stats == Stats::empty(capacity),
    ensures
        alphas_follow(ops, capacity, states, actions, seen),
    decreases events.len(),
{
    let none = Seq::<Double>::empty();
    if events.len() == 0 {
        let at_start = seq![Stats::empty(capacity)];
        assert(rolling_stats::push_run(ops, at_start, none));
        assert(states[0].imb_stats.window =~= rolling_stats::last_of(none, capacity));
        seq![none]
    } else {
        let n = events.len() - 1;
        let old_events = events.drop_last();
        let old_states = states.drop_last();
        let old_actions = actions.drop_last();
        assert forall|i: int| #![trigger old_events[i]] 0 <= i < old_events.len() implies goes_live(
            ops,
            old_states[i],
            old_events[i],
            old_states[i + 1],
            old_actions[i],
        ) by {
            assert(old_events[i] == events[i]);
        }
        let old = lemma_alphas_follow(ops, capacity, old_states, old_events, old_actions);
        assert(goes_live(ops, states[n], events[n], states[n + 1], actions[n]));
        assert(old_states[n] == states[n]);
        let last = lemma_alpha_follows(
            ops,
            capacity,
            states[n],
            events[n],
            states[n + 1],
            actions[n],
            old[n],
        );
        rolling_stats::lemma_stream_is_held(ops, capacity, last, states[n + 1].imb_stats);
        let seen = old.push(last);
        assert forall|i: int| #![trigger actions[i]] 0 <= i < actions.len() implies alpha_follows(
            ops,
            seen[i],
            seen[i + 1],
            states[i + 1],
            actions[i],
        ) by {
            if i < n {
                assert(old_actions[i] == actions[i]);
            }
        }
        assert forall|i: int| #![trigger states[i]] 0 <= i < states.len() implies
            rolling_stats::holds_stream(ops, capacity, seen[i], states[i].imb_stats)
            && states[i].imb_stats.window == rolling_stats::last_of(seen[i], capacity) by {
            if i <= n {
                assert(old_states[i] == states[i]);
            }
        }
        seen
    }
}

/// The alphas of one connection are z-scores over the latest imbalances of that
/// connection's own book, as many as the window holds; the first is zero.
/// Nothing is carried over from the connection before: `before` is the session
/// as an attempt to connect found it, `synced` the session when its snapshot
/// came.
pub proof fn law_alphas_are_of_own_connection<A: Arithmetic>(
    ops: &A,
    before: Depth,
    synced: Depth,
    data: Tree,
    states: Seq<Depth>,
    events: Seq<Tree>,
    actions: Seq<FeedAction>,
)
    requires
        0 < before.imb_stats.capacity,
        synced.imb_stats == before.begun().imb_stats,
        synchronizes(ops, synced, data, states[0], SyncOutcome::Live),
        live_run(ops, states, events, actions),
    ensures
        exists|seen: Seq<Seq<Double>>| #[trigger]
            alphas_follow(ops, before.imb_stats.capacity, states, actions, seen),
{
    let seen = lemma_alphas_follow(ops, before.imb_stats.capacity, states, events, actions);
    assert(alphas_follow(ops, before.imb_stats.capacity, states, actions, seen));
}

} // verus!
