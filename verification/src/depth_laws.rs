//! What keeps a book in step: the snapshot, the events that follow on it, and
//! nothing else.
use crate::arithmetic::Arithmetic;
use crate::book_laws;
use crate::depth;
use crate::depth::{Catchup, Depth, DepthSession, SyncOutcome};
use crate::document_laws;
use crate::double::Double;
use crate::frame::Frame;
use crate::imbalance;
use crate::json;
use crate::json::{Json, Tree};
use crate::orderbook;
use crate::orderbook::{BookSide, Level};
use crate::rolling_stats;
use crate::rolling_stats::Stats;
use crate::text;
use crate::values;
use crate::ws_binance::{BinanceMsg, FeedAction};
use vstd::prelude::*;

verus! {

/// `picked[i]` is the level that item `i` of a list of pairs stands for; where
/// the list is missing nothing is picked.
pub open spec fn picks_pairs_at<A: Arithmetic>(
    ops: &A,
    t: Tree,
    name: Seq<char>,
    picked: Seq<Option<(Double, Double)>>,
) -> bool {
    match t.items_at(name) {
        Some(items) => document_laws::picks_pairs(ops, items, picked),
        None => picked.len() == 0,
    }
}

/// A side holds what a list of levels says: at every price the last positive size
/// listed there, and nothing at any other.
pub open spec fn is_loaded(
    picked: Seq<Option<(Double, Double)>>,
    after: Map<i64, Level>,
) -> bool {
    exists|entries: Seq<(Double, Double)>| #[trigger]
        document_laws::are_in_order(picked, entries) && forall|k: i64| #[trigger]
            book_laws::is_listed_at(entries, after, k)
}

/// A side is another after a list of changes: at every price listed the last size
/// listed there, nothing where that is zero, and every other price as it was.
pub open spec fn is_changed(
    before: Map<i64, Level>,
    picked: Seq<Option<(Double, Double)>>,
    after: Map<i64, Level>,
) -> bool {
    exists|changes: Seq<(Double, Double)>| #[trigger]
        document_laws::are_in_order(picked, changes) && forall|k: i64| #[trigger]
            depth::decides_at(before, changes, after, k)
}

/// A book holds what a snapshot lists as `bids` and as `asks`.
pub open spec fn is_book_of<A: Arithmetic>(
    ops: &A,
    data: Tree,
    bids: Map<i64, Level>,
    asks: Map<i64, Level>,
) -> bool {
    &&& forall|picked: Seq<Option<(Double, Double)>>| #[trigger]
        picks_pairs_at(ops, data, "bids"@, picked) ==> is_loaded(picked, bids)
    &&& forall|picked: Seq<Option<(Double, Double)>>| #[trigger]
        picks_pairs_at(ops, data, "asks"@, picked) ==> is_loaded(picked, asks)
}

/// A book is another after the changes that an event lists as `b` and as `a`.
pub open spec fn is_book_after<A: Arithmetic>(
    ops: &A,
    event: Tree,
    bids: Map<i64, Level>,
    asks: Map<i64, Level>,
    new_bids: Map<i64, Level>,
    new_asks: Map<i64, Level>,
) -> bool {
    &&& forall|picked: Seq<Option<(Double, Double)>>| #[trigger]
        picks_pairs_at(ops, event, "b"@, picked) ==> is_changed(bids, picked, new_bids)
    &&& forall|picked: Seq<Option<(Double, Double)>>| #[trigger]
        picks_pairs_at(ops, event, "a"@, picked) ==> is_changed(asks, picked, new_asks)
}

/// The integer of a member, zero where it has none.
pub open spec fn counter(t: Tree, name: Seq<char>) -> int {
    match t.integer_at(name) {
        Some(n) => n as int,
        None => 0,
    }
}

/// An event covers the update that comes next after the one of an id.
pub open spec fn covers_next(event: Tree, id: int) -> bool {
    counter(event, "U"@) <= id + 1 <= counter(event, "u"@)
}

/// An event is due after a snapshot: it reaches beyond it, and it or one before
/// it covers what comes next.
pub open spec fn is_due(events: Seq<Tree>, id: int, i: int) -> bool {
    &&& 0 <= i < events.len()
    &&& counter(events[i], "u"@) > id
    &&& exists|j: int| 0 <= j <= i && covers_next(#[trigger] events[j], id)
}

/// `books` leads from the first book to the last, each by one event: an event that
/// is due changes the book, any other leaves it.
pub open spec fn leads_through<A: Arithmetic>(
    ops: &A,
    events: Seq<Tree>,
    id: int,
    books: Seq<(Map<i64, Level>, Map<i64, Level>)>,
) -> bool {
    &&& books.len() == events.len() + 1
    &&& forall|i: int|
        #![trigger books[i]]
        0 <= i < events.len() ==> if is_due(events, id, i) {
            is_book_after(
                ops,
                events[i],
                books[i].0,
                books[i].1,
                books[i + 1].0,
                books[i + 1].1,
            )
        } else {
            books[i + 1] == books[i]
        }
}

/// `book` is the book of a snapshot after all the events that are due.
pub open spec fn is_brought_up_to_date<A: Arithmetic>(
    ops: &A,
    data: Tree,
    events: Seq<Tree>,
    bids: Map<i64, Level>,
    asks: Map<i64, Level>,
) -> bool {
    exists|books: Seq<(Map<i64, Level>, Map<i64, Level>)>| #[trigger]
        leads_through(ops, events, counter(data, "lastUpdateId"@), books) && is_book_of(
            ops,
            data,
            books[0].0,
            books[0].1,
        ) && books.last() == (bids, asks)
}

proof fn lemma_pairs_in_order<A: Arithmetic>(
    ops: &A,
    t: Tree,
    name: Seq<char>,
    picked: Seq<Option<(Double, Double)>>,
    r: Seq<(Double, Double)>,
)
    requires
        depth::reads_side(ops, t, name, r),
        picks_pairs_at(ops, t, name, picked),
    ensures
        document_laws::are_in_order(picked, r),
{
    if let Some(items) = t.items_at(name) {
        document_laws::law_paired_levels_are_read_in_order(ops, items, picked, r);
    }
}

proof fn lemma_snapshot_loads<A: Arithmetic>(
    ops: &A,
    data: Tree,
    bids: Map<i64, Level>,
    asks: Map<i64, Level>,
)
    requires
        depth::snapshot_applies(ops, data, bids, asks),
    ensures
        is_book_of(ops, data, bids, asks),
{
    let (b, a) = choose|b: Seq<(Double, Double)>, a: Seq<(Double, Double)>| #[trigger]
        depth::reads_side(ops, data, "bids"@, b) && #[trigger] depth::reads_side(
            ops,
            data,
            "asks"@,
            a,
        ) && bids == orderbook::snapshot_of(b) && asks == orderbook::snapshot_of(a);
    assert forall|k: i64| #[trigger] book_laws::is_listed_at(b, bids, k) by {
        book_laws::law_snapshot_is_what_is_listed(b, k);
    }
    assert forall|k: i64| #[trigger] book_laws::is_listed_at(a, asks, k) by {
        book_laws::law_snapshot_is_what_is_listed(a, k);
    }
    assert forall|picked: Seq<Option<(Double, Double)>>| #[trigger]
        picks_pairs_at(ops, data, "bids"@, picked) implies is_loaded(picked, bids) by {
        lemma_pairs_in_order(ops, data, "bids"@, picked, b);
    }
    assert forall|picked: Seq<Option<(Double, Double)>>| #[trigger]
        picks_pairs_at(ops, data, "asks"@, picked) implies is_loaded(picked, asks) by {
        lemma_pairs_in_order(ops, data, "asks"@, picked, a);
    }
}

proof fn lemma_diff_changes<A: Arithmetic>(
    ops: &A,
    event: Tree,
    bids: Map<i64, Level>,
    asks: Map<i64, Level>,
    new_bids: Map<i64, Level>,
    new_asks: Map<i64, Level>,
)
    requires
        depth::diff_applies(ops, event, bids, asks, new_bids, new_asks),
    ensures
        is_book_after(ops, event, bids, asks, new_bids, new_asks),
{
    let (b, a) = choose|b: Seq<(Double, Double)>, a: Seq<(Double, Double)>| #[trigger]
        depth::reads_side(ops, event, "b"@, b) && #[trigger] depth::reads_side(ops, event, "a"@, a)
            && new_bids == orderbook::patched(bids, b) && new_asks == orderbook::patched(asks, a);
    assert forall|k: i64| #[trigger] depth::decides_at(bids, b, new_bids, k) by {
        orderbook::law_last_change_wins(bids, b, k);
    }
    assert forall|k: i64| #[trigger] depth::decides_at(asks, a, new_asks, k) by {
        orderbook::law_last_change_wins(asks, a, k);
    }
    assert forall|picked: Seq<Option<(Double, Double)>>| #[trigger]
        picks_pairs_at(ops, event, "b"@, picked) implies is_changed(bids, picked, new_bids) by {
        lemma_pairs_in_order(ops, event, "b"@, picked, b);
    }
    assert forall|picked: Seq<Option<(Double, Double)>>| #[trigger]
        picks_pairs_at(ops, event, "a"@, picked) implies is_changed(asks, picked, new_asks) by {
        lemma_pairs_in_order(ops, event, "a"@, picked, a);
    }
}

/// A snapshot replaces a book by what it lists, and its id is remembered. An event
/// changes a book at the prices that it lists.
pub proof fn law_snapshots_replace_and_events_change<A: Arithmetic>(
    ops: &A,
    data: &Json,
    bids: &mut BookSide,
    asks: &mut BookSide,
    id: &mut i64,
    event: &Json,
    live_bids: &mut BookSide,
    live_asks: &mut BookSide,
)
    requires
        call_ensures(depth::apply_binance_snapshot::<A>, (ops, data, bids, asks, id), ()),
        old(live_bids).wf(),
        old(live_asks).wf(),
        call_ensures(depth::apply_binance_diff::<A>, (ops, event, live_bids, live_asks), ()),
    ensures
        is_book_of(ops, data@, final(bids)@, final(asks)@),
        *final(id) == counter(data@, "lastUpdateId"@),
        is_book_after(
            ops,
            event@,
            old(live_bids)@,
            old(live_asks)@,
            final(live_bids)@,
            final(live_asks)@,
        ),
{
    lemma_snapshot_loads(ops, data@, final(bids)@, final(asks)@);
    lemma_diff_changes(
        ops,
        event@,
        old(live_bids)@,
        old(live_asks)@,
        final(live_bids)@,
        final(live_asks)@,
    );
}

/// The first buffered event that covers what comes next after a snapshot is
/// applied to the snapshot's book like any event after it that reaches beyond the
/// snapshot: the book has its changes, and its last id is remembered. An event
/// that does not reach beyond the snapshot, and one before that first, leave
/// everything as it is.
pub proof fn law_following_event_is_applied<A: Arithmetic>(
    ops: &A,
    id: i64,
    s: Catchup,
    event: Tree,
    t: Catchup,
)
    requires
        depth::catches_up(ops, id, s, event, t),
    ensures
        !s.found && covers_next(event, id as int) ==> t.found && t.prev_u == counter(event, "u"@)
            && is_book_after(ops, event, s.bids, s.asks, t.bids, t.asks),
        s.found && counter(event, "u"@) > id ==> t.found && t.prev_u == counter(event, "u"@)
            && is_book_after(ops, event, s.bids, s.asks, t.bids, t.asks),
        !s.found && !covers_next(event, id as int) ==> t == s,
        counter(event, "u"@) <= id ==> t == s,
{
    if covers_next(event, id as int) || s.found && counter(event, "u"@) > id {
        lemma_diff_changes(ops, event, s.bids, s.asks, t.bids, t.asks);
    }
}

/// The catching up has found its event after `n` of the buffered events exactly
/// if one of them covers what comes next, and then an event was due.
proof fn lemma_found_after<A: Arithmetic>(
    ops: &A,
    id: i64,
    events: Seq<Tree>,
    states: Seq<Catchup>,
    n: int,
)
    requires
        depth::catchup_run(ops, id, events, states),
        !states[0].found,
        0 <= n <= events.len(),
    ensures
        states[n].found <==> exists|j: int|
            0 <= j < n && covers_next(#[trigger] events[j], id as int),
        states[n].found ==> exists|j: int| j < n && #[trigger] is_due(events, id as int, j),
    decreases n,
{
    if n > 0 {
        lemma_found_after(ops, id, events, states, n - 1);
        let event = events[n - 1];
        assert(depth::catches_up(ops, id, states[n - 1], event, states[n]));
        if states[n - 1].found {
            let j = choose|j: int| 0 <= j < n - 1 && covers_next(#[trigger] events[j], id as int);
            assert(0 <= j < n && covers_next(events[j], id as int));
            let m = choose|m: int| m < n - 1 && #[trigger] is_due(events, id as int, m);
            assert(m < n && is_due(events, id as int, m));
        } else if states[n].found {
            assert(covers_next(events[n - 1], id as int));
            assert(is_due(events, id as int, n - 1));
        } else {
            assert(!covers_next(events[n - 1], id as int));
        }
    }
}

/// An event is due exactly if the catching up applies it.
proof fn lemma_due_is_applied<A: Arithmetic>(
    ops: &A,
    id: i64,
    events: Seq<Tree>,
    states: Seq<Catchup>,
    i: int,
)
    requires
        depth::catchup_run(ops, id, events, states),
        !states[0].found,
        0 <= i < events.len(),
    ensures
        is_due(events, id as int, i) ==> states[i + 1].found && states[i + 1].prev_u == counter(
            events[i],
            "u"@,
        ) && is_book_after(
            ops,
            events[i],
            states[i].bids,
            states[i].asks,
            states[i + 1].bids,
            states[i + 1].asks,
        ),
        !is_due(events, id as int, i) ==> states[i + 1] == states[i],
{
    lemma_found_after(ops, id, events, states, i);
    assert(depth::catches_up(ops, id, states[i], events[i], states[i + 1]));
    law_following_event_is_applied(ops, id, states[i], events[i], states[i + 1]);
    if is_due(events, id as int, i) {
        let j = choose|j: int| 0 <= j <= i && covers_next(#[trigger] events[j], id as int);
        assert(j == i || states[i].found);
    } else if states[i].found {
        let j = choose|j: int| 0 <= j < i && covers_next(#[trigger] events[j], id as int);
        assert(counter(events[i], "u"@) <= id);
    }
}

/// After the last event that is due nothing changes any more.
proof fn lemma_nothing_after_last_due<A: Arithmetic>(
    ops: &A,
    id: i64,
    events: Seq<Tree>,
    states: Seq<Catchup>,
    from: int,
    n: int,
)
    requires
        depth::catchup_run(ops, id, events, states),
        !states[0].found,
        0 <= from <= n <= events.len(),
        forall|m: int| from <= m < events.len() ==> !#[trigger] is_due(events, id as int, m),
    ensures
        states[n] == states[from],
    decreases n,
{
    if from < n {
        lemma_nothing_after_last_due(ops, id, events, states, from, n - 1);
        lemma_due_is_applied(ops, id, events, states, n - 1);
        assert(!is_due(events, id as int, n - 1));
    }
}

/// Whether event `i` is the last one that is due.
pub open spec fn is_last_due(events: Seq<Tree>, id: int, i: int) -> bool {
    is_due(events, id, i) && forall|m: int| i < m < events.len() ==> !#[trigger] is_due(
        events,
        id,
        m,
    )
}

proof fn lemma_synchronized<A: Arithmetic>(
    ops: &A,
    s: Depth,
    data: Tree,
    t: Depth,
    r: SyncOutcome,
)
    requires
        depth::synchronizes(ops, s, data, t, r),
    ensures
        is_synchronized(ops, s, data, t, r),
{
    let id = depth::id_at(data, "lastUpdateId"@);
    let n = counter(data, "lastUpdateId"@);
    assert(n == id);
    let events = s.buffer;
    let (bids, asks, c) = choose|bids: Map<i64, Level>, asks: Map<i64, Level>, c: Catchup|
        #[trigger] depth::snapshot_applies(ops, data, bids, asks)
            && #[trigger] depth::catches_up_with_all(ops, id, bids, asks, events, c) && t
            == (Depth {
            bids: c.bids,
            asks: c.asks,
            last_update_id: id,
            prev_u: if c.found {
                c.prev_u
            } else {
                s.prev_u
            },
            ..s
        }) && r == if c.found || s.buffer.len() == 0 {
            SyncOutcome::Live
        } else {
            SyncOutcome::Restart
        };
    let first = Catchup { found: false, prev_u: 0, bids, asks };
    let states = choose|states: Seq<Catchup>| #[trigger]
        depth::catchup_run(ops, id, events, states) && states[0] == first && states.last() == c;
    let books = Seq::new(
        states.len(),
        |i: int| (states[i].bids, states[i].asks),
    );
    lemma_snapshot_loads(ops, data, bids, asks);
    assert forall|i: int| #![trigger books[i]] 0 <= i < events.len() implies if is_due(
        events,
        n,
        i,
    ) {
        is_book_after(ops, events[i], books[i].0, books[i].1, books[i + 1].0, books[i + 1].1)
    } else {
        books[i + 1] == books[i]
    } by {
        lemma_due_is_applied(ops, id, events, states, i);
    }
    assert(leads_through(ops, events, n, books));
    assert(books.last() == (t.bids, t.asks));
    let end = events.len() as int;
    lemma_found_after(ops, id, events, states, end);
    assert(states.last() == states[end]);
    assert forall|i: int| #[trigger] is_last_due(events, n, i) implies t.prev_u == counter(
        events[i],
        "u"@,
    ) && c.found by {
        lemma_due_is_applied(ops, id, events, states, i);
        lemma_nothing_after_last_due(ops, id, events, states, i + 1, end);
    }
    if exists|i: int| #[trigger] is_due(events, n, i) {
        let i = choose|i: int| #[trigger] is_due(events, n, i);
        let j = choose|j: int| 0 <= j <= i && covers_next(#[trigger] events[j], n);
        assert(0 <= j < end && covers_next(events[j], n));
        assert(c.found);
    }
}

/// A session is another after a snapshot: its book is that of the snapshot after
/// all the buffered events that are due; it has the snapshot's id, and the last
/// id of the last of those events; it goes live if there is one, or if nothing was
/// buffered.
pub open spec fn is_synchronized<A: Arithmetic>(
    ops: &A,
    s: Depth,
    data: Tree,
    t: Depth,
    r: SyncOutcome,
) -> bool {
    let id = counter(data, "lastUpdateId"@);
    &&& is_brought_up_to_date(ops, data, s.buffer, t.bids, t.asks)
    &&& t.last_update_id == id
    &&& forall|i: int| #[trigger]
        is_last_due(s.buffer, id, i) ==> t.prev_u == counter(s.buffer[i], "u"@)
    &&& (forall|i: int| !#[trigger] is_due(s.buffer, id, i)) ==> t.prev_u == s.prev_u
    &&& r is Live <==> s.buffer.len() == 0 || exists|i: int| #[trigger] is_due(s.buffer, id, i)
    &&& r is Restart <==> !(r is Live)
    &&& is_kept(s, t)
    &&& t.backoff == s.backoff && t.imb_stats == s.imb_stats && t.buffer == s.buffer
}

/// What nothing that is read ever changes of a session.
pub open spec fn is_kept(s: Depth, t: Depth) -> bool {
    t.symbol == s.symbol && t.looking_depth == s.looking_depth && t.snapshot_limit
        == s.snapshot_limit
}

/// All that a session knows of the book and of its connection is as it was.
pub open spec fn book_is_kept(s: Depth, t: Depth) -> bool {
    &&& t.bids == s.bids && t.asks == s.asks && t.imb_stats == s.imb_stats
    &&& t.last_update_id == s.last_update_id && t.prev_u == s.prev_u && t.buffer == s.buffer
    &&& is_kept(s, t)
}

/// A delay was used: the next is twice as long, up to the limit.
pub open spec fn delay_is_used(s: Depth, t: Depth) -> bool {
    &&& t.backoff.base == s.backoff.base && t.backoff.limit == s.backoff.limit
    &&& t.backoff.current <= 2 * s.backoff.current && t.backoff.current <= s.backoff.limit
    &&& t.backoff.current == 2 * s.backoff.current || t.backoff.current == s.backoff.limit
}

/// With a snapshot the book is the snapshot's with the changes of all the buffered
/// events from the first that follows on it, each in turn, that reach beyond the
/// snapshot. Without one the session waits and tries again.
pub proof fn law_snapshot_is_brought_up_to_date<A: Arithmetic>(
    ops: &A,
    session: &mut DepthSession,
    data: &Json,
    r: SyncOutcome,
    without: &mut DepthSession,
    q: SyncOutcome,
)
    requires
        old(session).wf(),
        call_ensures(DepthSession::on_snapshot::<A>, (session, ops, Some(data)), r),
        old(without).wf(),
        call_ensures(DepthSession::on_snapshot::<A>, (without, ops, None), q),
    ensures
        is_synchronized(ops, old(session)@, data@, final(session)@, r),
        book_is_kept(old(without)@, final(without)@),
        delay_is_used(old(without)@, final(without)@),
        q matches SyncOutcome::Retry { delay_secs } && delay_secs == old(without)@.backoff.current,
{
    lemma_synchronized(ops, old(session)@, data@, final(session)@, r);
    old(without).lemma_delays();
}

/// The text of a snapshot is taken as the document in it; where there is none, the
/// session waits and tries again.
pub proof fn law_snapshot_is_read_from_text<A: Arithmetic>(
    ops: &A,
    session: &mut DepthSession,
    body: Option<&str>,
    r: SyncOutcome,
)
    requires
        old(session).wf(),
        call_ensures(DepthSession::on_snapshot_text::<A>, (session, ops, body), r),
    ensures
        body is Some && json::text_tree(body->0@) is Some ==> is_synchronized(
            ops,
            old(session)@,
            json::text_tree(body->0@)->0,
            final(session)@,
            r,
        ),
        body is None || json::text_tree(body->0@) is None ==> book_is_kept(
            old(session)@,
            final(session)@,
        ) && delay_is_used(old(session)@, final(session)@) && (r matches SyncOutcome::Retry {
            delay_secs,
        } && delay_secs == old(session)@.backoff.current),
{
    old(session).lemma_delays();
    if body is Some && json::text_tree(body->0@) is Some {
        lemma_synchronized(
            ops,
            old(session)@,
            json::text_tree(body->0@)->0,
            final(session)@,
            r,
        );
    }
}

/// A book gives no alpha: nothing is passed on, and no imbalance is recorded.
pub open spec fn gives_no_alpha(s: Depth, t: Depth, r: FeedAction) -> bool {
    r is Receive && t.imb_stats == s.imb_stats
}

/// A book gives an alpha: its imbalance within the looking depth about a mid-price
/// is recorded, and the z-score of it among those recorded is passed on.
pub open spec fn gives_alpha<A: Arithmetic>(
    ops: &A,
    s: Depth,
    t: Depth,
    r: FeedAction,
    mid: Double,
    x: Double,
) -> bool {
    &&& imbalance::is_imbalance(ops, t.bids, t.asks, mid, s.looking_depth, x)
    &&& rolling_stats::pushes(ops, s.imb_stats, x, t.imb_stats)
    &&& r matches FeedAction::Deliver(BinanceMsg::AlphaUpdate { alpha })
        && rolling_stats::is_zscore(ops, t.imb_stats, x, alpha)
}

/// What is passed on of a book after an event: nothing with a side empty, or with
/// the middle of the highest bid and the lowest ask not above zero; otherwise the
/// alpha about that middle.
pub open spec fn alpha_is_of_book<A: Arithmetic>(
    ops: &A,
    s: Depth,
    t: Depth,
    r: FeedAction,
) -> bool {
    &&& (forall|k: i64| !#[trigger] t.bids.contains_key(k)) || (forall|k: i64|
        !#[trigger] t.asks.contains_key(k)) ==> gives_no_alpha(s, t, r)
    &&& forall|bid: Double, ask: Double|
        #![trigger is_top_bid(t.bids, bid), is_top_ask(t.asks, ask)]
        values::is_exact(ops) && is_top_bid(t.bids, bid) && is_top_ask(t.asks, ask)
            && values::finite(bid) && values::finite(ask) ==> {
            &&& values::value(bid) + values::value(ask) <= 0 as real ==> gives_no_alpha(s, t, r)
            &&& values::value(bid) + values::value(ask) > 0 as real ==> exists|
                mid: Double,
                x: Double,
            | #[trigger]
                gives_alpha(ops, s, t, r, mid, x) && values::finite(mid) && values::value(mid)
                    + values::value(mid) == values::value(bid) + values::value(ask)
        }
}

/// A price that bids have and none is above.
pub open spec fn is_top_bid(bids: Map<i64, Level>, p: Double) -> bool {
    &&& bids.contains_key(orderbook::key(p)) && bids[orderbook::key(p)].price == p
    &&& forall|k: i64| #[trigger] bids.contains_key(k) ==> k <= orderbook::key(p)
}

/// A price that asks have and none is below.
pub open spec fn is_top_ask(asks: Map<i64, Level>, p: Double) -> bool {
    &&& asks.contains_key(orderbook::key(p)) && asks[orderbook::key(p)].price == p
    &&& forall|k: i64| #[trigger] asks.contains_key(k) ==> k >= orderbook::key(p)
}

proof fn lemma_alpha_of_book<A: Arithmetic>(ops: &A, s: Depth, t: Depth, r: FeedAction)
    requires
        depth::is_alpha(ops, t.bids, t.asks, s.looking_depth, s.imb_stats, t.imb_stats, r),
    ensures
        alpha_is_of_book(ops, s, t, r),
{
    if forall|k: i64| !#[trigger] t.bids.contains_key(k) {
        assert(t.bids.dom() =~= Set::empty());
    }
    if forall|k: i64| !#[trigger] t.asks.contains_key(k) {
        assert(t.asks.dom() =~= Set::empty());
    }
    values::law_named_numbers_have_their_values();
    assert forall|bid: Double, ask: Double|
        #![trigger is_top_bid(t.bids, bid), is_top_ask(t.asks, ask)]
        values::is_exact(ops) && is_top_bid(t.bids, bid) && is_top_ask(t.asks, ask)
            && values::finite(bid) && values::finite(ask) implies {
        &&& values::value(bid) + values::value(ask) <= 0 as real ==> gives_no_alpha(s, t, r)
        &&& values::value(bid) + values::value(ask) > 0 as real ==> exists|mid: Double, x: Double|
            #[trigger]
            gives_alpha(ops, s, t, r, mid, x) && values::finite(mid) && values::value(mid)
                + values::value(mid) == values::value(bid) + values::value(ask)
    } by {
        assert(t.bids.dom().contains(orderbook::key(bid)));
        assert(t.asks.dom().contains(orderbook::key(ask)));
        let w = choose|w: depth::AlphaSteps|
            depth::alpha_by(
                ops,
                t.bids,
                t.asks,
                s.looking_depth,
                s.imb_stats,
                w,
                t.imb_stats,
                r,
            );
        assert(depth::alpha_by(
            ops,
            t.bids,
            t.asks,
            s.looking_depth,
            s.imb_stats,
            w,
            t.imb_stats,
            r,
        ));
        assert(t.bids.contains_key(orderbook::key(w.bid)));
        assert(t.asks.contains_key(orderbook::key(w.ask)));
        assert(w.bid == bid && w.ask == ask);
        let h = values::value(Double::half());
        assert(h + h == 1 as real);
        let v = values::value(w.total);
        assert(values::value(w.mid) == v * h);
        values::lemma_distribute(v, h, h);
        assert(v * (1 as real) == v) by (nonlinear_arith);
        values::law_order_is_that_of_values(Double::zero(), w.mid);
        if values::value(bid) + values::value(ask) > 0 as real {
            assert(gives_alpha(ops, s, t, r, w.mid, w.imbalance));
        }
    }
}

/// A session is another after an event of the live stream: what lacks one of the
/// ids is passed over; an event that does not follow on the one before ends the
/// connection and changes nothing of the book; any other changes the book and is
/// the one to follow on.
pub open spec fn is_live_step<A: Arithmetic>(
    ops: &A,
    s: Depth,
    event: Tree,
    t: Depth,
    r: FeedAction,
) -> bool {
    if event.get("U"@) is None || event.get("u"@) is None {
        r is Receive && book_is_kept(s, t) && t.backoff == s.backoff
    } else if s.prev_u != 0 && counter(event, "pu"@) != s.prev_u {
        book_is_kept(s, t) && is_loss(s, t, r)
    } else {
        &&& is_book_after(ops, event, s.bids, s.asks, t.bids, t.asks)
        &&& t.prev_u == counter(event, "u"@)
        &&& alpha_is_of_book(ops, s, t, r)
        &&& is_kept(s, t) && t.backoff == s.backoff && t.last_update_id == s.last_update_id
            && t.buffer == s.buffer
    }
}

/// The loss of the connection: it is announced, and the next delay is used.
pub open spec fn is_loss(s: Depth, t: Depth, r: FeedAction) -> bool {
    &&& delay_is_used(s, t)
    &&& r matches FeedAction::Reconnect {
        notice: Some(BinanceMsg::Disconnected { feed }),
        delay_secs,
    } && feed@ == "depth"@ && delay_secs == s.backoff.current
}

proof fn lemma_live_step<A: Arithmetic>(ops: &A, s: Depth, event: Tree, t: Depth, r: FeedAction)
    requires
        depth::goes_live(ops, s, event, t, r),
        s.backoff.current <= 60,
    ensures
        is_live_step(ops, s, event, t, r),
{
    if event.get("U"@) is Some && event.get("u"@) is Some && (s.prev_u == 0 || counter(
        event,
        "pu"@,
    ) == s.prev_u) {
        lemma_diff_changes(ops, event, s.bids, s.asks, t.bids, t.asks);
        lemma_alpha_of_book(ops, s, t, r);
    }
}

/// Every event of the live stream that follows on the one before changes the book
/// and no other does.
pub proof fn law_live_events_change_book_in_sequence<A: Arithmetic>(
    ops: &A,
    session: &mut DepthSession,
    event: &Json,
    r: FeedAction,
)
    requires
        old(session).wf(),
        call_ensures(DepthSession::on_event::<A>, (session, ops, event), r),
    ensures
        is_live_step(ops, old(session)@, event@, final(session)@, r),
{
    old(session).lemma_delays();
    lemma_live_step(ops, old(session)@, event@, final(session)@, r);
}

/// A frame of text is what the document in it is, and nothing where it holds none;
/// a pong or another message is nothing; any other frame loses the connection.
pub proof fn law_live_frames_are_read_or_lose_connection<A: Arithmetic>(
    ops: &A,
    session: &mut DepthSession,
    frame: &Frame,
    r: FeedAction,
)
    requires
        old(session).wf(),
        call_ensures(DepthSession::on_frame::<A>, (session, ops, frame), r),
    ensures
        frame matches Frame::Text(t) ==> match json::text_tree(t@) {
            Some(event) => is_live_step(ops, old(session)@, event, final(session)@, r),
            None => r is Receive && book_is_kept(old(session)@, final(session)@)
                && final(session)@.backoff == old(session)@.backoff,
        },
        frame is Pong || frame is Other ==> r is Receive && book_is_kept(
            old(session)@,
            final(session)@,
        ) && final(session)@.backoff == old(session)@.backoff,
        frame is Close || frame is Failed || frame is Ended || frame is Silent ==> book_is_kept(
            old(session)@,
            final(session)@,
        ) && is_loss(old(session)@, final(session)@, r),
{
    old(session).lemma_delays();
    if let Frame::Text(t) = frame {
        if let Some(event) = json::text_tree(t@) {
            lemma_live_step(ops, old(session)@, event, final(session)@, r);
        }
    }
}

/// What comes before the snapshot is kept, in order, if it has both ids; reading
/// goes on as long as texts come.
pub proof fn law_early_events_are_kept_in_order(
    session: &mut DepthSession,
    data: Json,
    reader: &mut DepthSession,
    frame: &Frame,
    read_on: bool,
)
    requires
        old(session).wf(),
        call_ensures(DepthSession::keep, (session, data), ()),
        old(reader).wf(),
        call_ensures(DepthSession::on_early_frame, (reader, frame), read_on),
    ensures
        data@.get("U"@) is Some && data@.get("u"@) is Some ==> final(session)@.buffer
            == old(session)@.buffer.push(data@),
        data@.get("U"@) is None || data@.get("u"@) is None ==> final(session)@.buffer
            == old(session)@.buffer,
        only_buffer_changes(old(session)@, final(session)@),
        read_on <==> frame is Text,
        final(reader)@.buffer == match frame {
            Frame::Text(t) => match json::text_tree(t@) {
                Some(event) => if event.get("U"@) is Some && event.get("u"@) is Some {
                    old(reader)@.buffer.push(event)
                } else {
                    old(reader)@.buffer
                },
                None => old(reader)@.buffer,
            },
            _ => old(reader)@.buffer,
        },
        only_buffer_changes(old(reader)@, final(reader)@),
{
}

/// Everything but the buffered events is as it was.
pub open spec fn only_buffer_changes(s: Depth, t: Depth) -> bool {
    &&& t.bids == s.bids && t.asks == s.asks && t.imb_stats == s.imb_stats
    &&& t.last_update_id == s.last_update_id && t.prev_u == s.prev_u && t.backoff == s.backoff
    &&& is_kept(s, t)
}

/// Nothing is known of the book.
pub open spec fn is_blank(s: Depth) -> bool {
    &&& forall|k: i64| !#[trigger] s.bids.contains_key(k)
    &&& forall|k: i64| !#[trigger] s.asks.contains_key(k)
    &&& s.imb_stats.window.len() == 0 && s.last_update_id == 0 && s.prev_u == 0
    &&& s.buffer.len() == 0
}

/// Every attempt to connect begins with nothing known of the book; a connection
/// brings the delay of two seconds back, and a failure uses the delay that is due
/// and announces nothing.
pub proof fn law_connections_begin_blank(
    begun: &mut DepthSession,
    connected: &mut DepthSession,
    failed: &mut DepthSession,
    r: FeedAction,
)
    requires
        old(begun).wf() && old(connected).wf() && old(failed).wf(),
        call_ensures(DepthSession::begin, (begun,), ()),
        call_ensures(DepthSession::on_connected, (connected,), ()),
        call_ensures(DepthSession::on_connect_failed, (failed,), r),
    ensures
        is_blank(final(begun)@),
        final(begun)@.imb_stats == Stats::empty(old(begun)@.imb_stats.capacity),
        is_kept(old(begun)@, final(begun)@) && final(begun)@.backoff == old(begun)@.backoff,
        book_is_kept(old(connected)@, final(connected)@),
        final(connected)@.backoff.current == 2,
        book_is_kept(old(failed)@, final(failed)@),
        delay_is_used(old(failed)@, final(failed)@),
        r matches FeedAction::Reconnect { notice: None, delay_secs } && delay_secs
            == old(failed)@.backoff.current,
{
    old(failed).lemma_delays();
}

/// A session is made for a symbol in small letters with what it is asked for, and
/// with nothing known of the book.
pub proof fn law_new_session_is_as_asked(
    symbol: &str,
    window_size: usize,
    looking_depth: Double,
    snapshot_limit: usize,
    made: DepthSession,
    lowered: DepthSession,
)
    requires
        window_size > 0,
        call_ensures(
            DepthSession::for_symbol,
            (symbol, window_size, looking_depth, snapshot_limit),
            made,
        ),
        call_ensures(
            DepthSession::new,
            (symbol, window_size, looking_depth, snapshot_limit),
            lowered,
        ),
    ensures
        made@.symbol == symbol@,
        lowered@.symbol == text::lowercase(symbol@),
        text::is_ascii_text(symbol@) ==> document_laws::same_letters(symbol@, lowered@.symbol)
            && forall|i: int|
            0 <= i < symbol@.len() ==> !('A' <= #[trigger] lowered@.symbol[i] <= 'Z'),
        is_blank(made@) && is_blank(lowered@),
        made@.looking_depth == looking_depth && lowered@.looking_depth == looking_depth,
        made@.snapshot_limit == snapshot_limit && lowered@.snapshot_limit == snapshot_limit,
        made@.imb_stats.capacity == window_size && lowered@.imb_stats.capacity == window_size,
        made@.backoff.current == 2 && lowered@.backoff.current == 2,
{
    document_laws::law_ascii_case_is_of_letters_alone(symbol@, symbol@);
}

/// Where the stream and the snapshot of a session are: the one under its symbol,
/// the other under its symbol in capitals, with the number of levels asked for.
pub proof fn law_session_is_at_its_symbol(
    session: &DepthSession,
    url: String,
    snapshot_url: String,
    upper: &str,
    named: String,
)
    requires
        call_ensures(DepthSession::url, (session,), url),
        call_ensures(DepthSession::snapshot_url, (session,), snapshot_url),
        call_ensures(DepthSession::snapshot_url_of, (session, upper), named),
    ensures
        url@ == "wss://fstream.binance.com/ws/"@ + session@.symbol + "@depth@100ms"@,
        exists|limit: Seq<char>|
            snapshot_url@ == #[trigger] snapshot_address(text::uppercase(session@.symbol), limit)
                && document_laws::digits_value(limit) == session@.snapshot_limit,
        text::is_ascii_text(session@.symbol) ==> exists|capitals: Seq<char>, limit: Seq<char>|
            snapshot_url@ == #[trigger] snapshot_address(capitals, limit)
                && document_laws::same_letters(session@.symbol, capitals) && (forall|i: int|
                0 <= i < capitals.len() ==> !('a' <= #[trigger] capitals[i] <= 'z'))
                && document_laws::digits_value(limit) == session@.snapshot_limit,
        exists|limit: Seq<char>|
            named@ == #[trigger] snapshot_address(upper@, limit) && document_laws::digits_value(
                limit,
            ) == session@.snapshot_limit,
{
    let capitals = text::ascii_uppered(session@.symbol);
    let limit = text::decimal(session@.snapshot_limit);
    document_laws::law_ascii_case_is_of_letters_alone(session@.symbol, capitals);
    document_laws::law_decimal_reads_back(session@.snapshot_limit);
    assert(snapshot_url@ == snapshot_address(text::uppercase(session@.symbol), limit));
    if text::is_ascii_text(session@.symbol) {
        assert(snapshot_url@ == snapshot_address(capitals, limit));
    }
    assert(named@ == snapshot_address(upper@, limit));
}

/// The address of a snapshot.
pub open spec fn snapshot_address(symbol: Seq<char>, limit: Seq<char>) -> Seq<char> {
    "https://fapi.binance.com/fapi/v1/depth?symbol="@ + symbol + "&limit="@ + limit
}

/// What is read off a session: its ids and how many levels it has.
pub proof fn law_readings_of_session(
    session: &DepthSession,
    id: i64,
    expected: i64,
    counts: (usize, usize),
)
    requires
        call_ensures(DepthSession::last_update_id, (session,), id),
        call_ensures(DepthSession::expected_id, (session,), expected),
        call_ensures(DepthSession::level_counts, (session,), counts),
    ensures
        id == session@.last_update_id,
        expected == session@.prev_u,
        counts.0 == session@.bids.dom().len(),
        counts.1 == session@.asks.dom().len(),
{
}

} // verus!
