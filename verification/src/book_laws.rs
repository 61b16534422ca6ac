//! What calls on order books do, level by level.
use crate::arithmetic;
use crate::arithmetic::Arithmetic;
use crate::depth;
use crate::double::Double;
use crate::orderbook;
use crate::orderbook::{BookSide, Level, Orderbook};
use crate::values;
use vstd::prelude::*;

verus! {

/// Two prices share a place exactly if they are the same number, or both not a
/// number; a lower price has a lower place.
pub proof fn law_places_are_those_of_prices(a: Double, b: Double)
    ensures
        orderbook::key(a) == orderbook::key(b) <==> a.equals(b) || a.is_nan_spec()
            && b.is_nan_spec(),
        a.below(b) ==> orderbook::key(a) < orderbook::key(b),
        !a.is_nan_spec() && !b.is_nan_spec() && orderbook::key(a) < orderbook::key(b) ==> a.below(
            b,
        ),
        b.is_nan_spec() && !a.is_nan_spec() ==> orderbook::key(a) < orderbook::key(b),
{
}

/// What a full list of levels leaves at a place: a level exactly if the list has
/// the place with a positive size, and then with the last such size.
pub open spec fn is_listed_at(
    entries: Seq<(Double, Double)>,
    side: Map<i64, Level>,
    k: i64,
) -> bool {
    &&& side.contains_key(k) <==> exists|i: int|
        0 <= i < entries.len() && orderbook::key((#[trigger] entries[i]).0) == k
            && Double::zero().below(entries[i].1)
    &&& forall|i: int| #[trigger]
        orderbook::is_last_positive_for(entries, k, i) ==> side[k].size == entries[i].1
}

proof fn lemma_last_positive_exists(entries: Seq<(Double, Double)>, k: i64, at: int)
    requires
        0 <= at < entries.len(),
        orderbook::key(entries[at].0) == k,
        Double::zero().below(entries[at].1),
    ensures
        exists|i: int| #[trigger] orderbook::is_last_positive_for(entries, k, i),
    decreases entries.len() - at,
{
    if exists|j: int|
        at < j < entries.len() && orderbook::key((#[trigger] entries[j]).0) == k
            && Double::zero().below(entries[j].1) {
        let j = choose|j: int|
            at < j < entries.len() && orderbook::key((#[trigger] entries[j]).0) == k
                && Double::zero().below(entries[j].1);
        lemma_last_positive_exists(entries, k, j);
    } else {
        assert(orderbook::is_last_positive_for(entries, k, at));
    }
}

/// A side that was loaded is what the list says, place by place.
pub proof fn law_snapshot_is_what_is_listed(entries: Seq<(Double, Double)>, k: i64)
    ensures
        is_listed_at(entries, orderbook::snapshot_of(entries), k),
{
    orderbook::law_snapshot_holds_positive_sizes(entries, k);
    if exists|i: int|
        0 <= i < entries.len() && orderbook::key((#[trigger] entries[i]).0) == k
            && Double::zero().below(entries[i].1) {
        let i = choose|i: int|
            0 <= i < entries.len() && orderbook::key((#[trigger] entries[i]).0) == k
                && Double::zero().below(entries[i].1);
        lemma_last_positive_exists(entries, k, i);
    }
    if exists|i: int| #[trigger] orderbook::is_last_positive_for(entries, k, i) {
        let i = choose|i: int| #[trigger] orderbook::is_last_positive_for(entries, k, i);
        assert(orderbook::key(entries[i].0) == k);
    }
}

/// An update is a snapshot where the book is new, or where it has more bids than
/// the threshold, or more asks; otherwise it is a delta, however many entries it
/// has in all. A snapshot leaves what it lists with a positive size and nothing
/// else. A delta leaves at every price the last size that it lists there, none
/// for zero, and every other price as it was.
pub proof fn law_update_is_snapshot_or_delta(
    book: &mut Orderbook,
    bids: &[(Double, Double)],
    asks: &[(Double, Double)],
    threshold: usize,
    snapshot: bool,
)
    requires
        old(book).wf(),
        call_ensures(Orderbook::apply_update, (book, bids, asks, threshold), snapshot),
    ensures
        snapshot <==> !old(book).initialized || bids@.len() > threshold || asks@.len() > threshold,
        final(book).initialized,
        snapshot ==> forall|k: i64| #[trigger]
            is_listed_at(bids@, final(book).bids@, k) && is_listed_at(asks@, final(book).asks@, k),
        !snapshot ==> forall|k: i64| #[trigger]
            depth::decides_at(old(book).bids@, bids@, final(book).bids@, k) && depth::decides_at(
                old(book).asks@,
                asks@,
                final(book).asks@,
                k,
            ),
{
    assert forall|k: i64| snapshot implies #[trigger] is_listed_at(bids@, final(book).bids@, k)
        && is_listed_at(asks@, final(book).asks@, k) by {
        law_snapshot_is_what_is_listed(bids@, k);
        law_snapshot_is_what_is_listed(asks@, k);
    }
    assert forall|k: i64| !snapshot implies #[trigger] depth::decides_at(
        old(book).bids@,
        bids@,
        final(book).bids@,
        k,
    ) && depth::decides_at(old(book).asks@, asks@, final(book).asks@, k) by {
        orderbook::law_last_change_wins(old(book).bids@, bids@, k);
        orderbook::law_last_change_wins(old(book).asks@, asks@, k);
    }
}

/// The best bid is the price of a bid that no bid is above, the best ask that of
/// an ask that no ask is below, and the mid-price lies halfway between them;
/// each is there exactly if its levels are. A book that is new or cleared has
/// none.
pub proof fn law_best_prices_bound_the_book<A: Arithmetic>(
    ops: &A,
    book: &Orderbook,
    bid: Option<Double>,
    ask: Option<Double>,
    mid: Option<Double>,
    cleared: &mut Orderbook,
    made: Orderbook,
)
    requires
        book.wf(),
        call_ensures(Orderbook::best_bid, (book,), bid),
        call_ensures(Orderbook::best_ask, (book,), ask),
        call_ensures(Orderbook::mid::<A>, (book, ops), mid),
        call_ensures(Orderbook::clear, (cleared,), ()),
        call_ensures(Orderbook::new, (), made),
    ensures
        bid is None <==> forall|k: i64| !#[trigger] book.bids@.contains_key(k),
        ask is None <==> forall|k: i64| !#[trigger] book.asks@.contains_key(k),
        mid is None <==> bid is None || ask is None,
        bid matches Some(p) ==> (exists|k: i64| #[trigger]
            book.bids@.contains_key(k) && book.bids@[k].price == p) && forall|k: i64| #[trigger]
            book.bids@.contains_key(k) ==> !p.below(book.bids@[k].price),
        ask matches Some(p) ==> (exists|k: i64| #[trigger]
            book.asks@.contains_key(k) && book.asks@[k].price == p) && forall|k: i64| #[trigger]
            book.asks@.contains_key(k) ==> !book.asks@[k].price.below(p),
        mid matches Some(m) ==> (values::is_exact(ops) && values::finite(bid->0) && values::finite(
            ask->0,
        ) ==> values::value(m) + values::value(m) == values::value(bid->0) + values::value(
            ask->0,
        )),
        !final(cleared).initialized && !made.initialized,
        forall|k: i64| #[trigger] final(cleared).bids@.contains_key(k) ==> false,
        forall|k: i64| #[trigger] final(cleared).asks@.contains_key(k) ==> false,
        forall|k: i64| #[trigger] made.bids@.contains_key(k) ==> false,
        forall|k: i64| #[trigger] made.asks@.contains_key(k) ==> false,
{
    values::law_named_numbers_have_their_values();
    if bid is None {
        assert(book.bids@.dom() =~= Set::empty());
    }
    if ask is None {
        assert(book.asks@.dom() =~= Set::empty());
    }
    if forall|k: i64| !#[trigger] book.bids@.contains_key(k) {
        assert(book.bids@.dom() =~= Set::empty());
    }
    if forall|k: i64| !#[trigger] book.asks@.contains_key(k) {
        assert(book.asks@.dom() =~= Set::empty());
    }
    if let Some(p) = bid {
        assert(book.bids@.contains_key(orderbook::key(p)));
        assert forall|k: i64| #[trigger] book.bids@.contains_key(k) implies !p.below(
            book.bids@[k].price,
        ) by {
            law_places_are_those_of_prices(p, book.bids@[k].price);
        }
    }
    if let Some(p) = ask {
        assert(book.asks@.contains_key(orderbook::key(p)));
        assert forall|k: i64| #[trigger]
            book.asks@.contains_key(k) implies !book.asks@[k].price.below(p) by {
            law_places_are_those_of_prices(book.asks@[k].price, p);
        }
    }
    if let Some(m) = mid {
        if values::is_exact(ops) && values::finite(bid->0) && values::finite(ask->0) {
            let (b, a) = choose|b: Double, a: Double|
                orderbook::is_highest(book.bids@, b) && orderbook::is_lowest(book.asks@, a)
                    && #[trigger] orderbook::is_midpoint(ops, b, a, m);
            assert(b == bid->0) by {
                assert(book.bids@.contains_key(orderbook::key(b)));
                assert(book.bids@.contains_key(orderbook::key(bid->0)));
            }
            assert(a == ask->0) by {
                assert(book.asks@.contains_key(orderbook::key(a)));
                assert(book.asks@.contains_key(orderbook::key(ask->0)));
            }
            let total = choose|total: Double|
                #[trigger] arithmetic::is_sum(ops, b, a, total) && arithmetic::is_quotient(
                    ops,
                    total,
                    Double::two(),
                    m,
                );
            let v = values::value(m);
            assert(v * (2 as real) == values::value(total));
            values::lemma_distribute(v, 1 as real, 1 as real);
            assert(v * (1 as real) == v) by (nonlinear_arith);
        }
    }
}

/// Setting a size puts it at that price and nowhere else; removing takes that
/// price away and no other; both are read back. A level keeps the price under
/// which it was first entered.
pub proof fn law_sides_read_back_what_is_set(
    a: &mut BookSide,
    price: Double,
    size: Double,
    b: &mut BookSide,
    c: &BookSide,
    other: Double,
    got: Option<Double>,
    has: bool,
)
    requires
        old(a).wf() && old(b).wf(),
        call_ensures(BookSide::insert, (a, price, size), ()),
        call_ensures(BookSide::remove, (b, price), ()),
        call_ensures(BookSide::get, (c, other), got),
        call_ensures(BookSide::contains_key, (c, other), has),
    ensures
        final(a)@.contains_key(orderbook::key(price)),
        final(a)@[orderbook::key(price)].size == size,
        final(a)@[orderbook::key(price)].price == if old(a)@.contains_key(orderbook::key(price)) {
            old(a)@[orderbook::key(price)].price
        } else {
            price
        },
        !final(b)@.contains_key(orderbook::key(price)),
        forall|k: i64|
            k != orderbook::key(price) ==> (#[trigger] final(a)@.contains_key(k)
                == old(a)@.contains_key(k)) && final(a)@[k] == old(a)@[k],
        forall|k: i64|
            k != orderbook::key(price) ==> (#[trigger] final(b)@.contains_key(k)
                == old(b)@.contains_key(k)) && final(b)@[k] == old(b)@[k],
        has == c@.contains_key(orderbook::key(other)),
        has <==> got is Some,
        got matches Some(s) ==> s == c@[orderbook::key(other)].size,
{
}

/// A side is listed from its lowest price upwards, each level once, and lowest
/// and highest are the ends of that list.
pub proof fn law_sides_are_listed_upwards(
    side: &BookSide,
    levels: Vec<Level>,
    low: Option<Double>,
    high: Option<Double>,
)
    requires
        side.wf(),
        call_ensures(BookSide::ascending, (side,), levels),
        call_ensures(BookSide::lowest, (side,), low),
        call_ensures(BookSide::highest, (side,), high),
    ensures
        forall|i: int, j: int|
            0 <= i < j < levels@.len() ==> orderbook::key(levels@[i].price) < orderbook::key(
                levels@[j].price,
            ),
        forall|i: int|
            0 <= i < levels@.len() ==> side@.contains_key(
                orderbook::key((#[trigger] levels@[i]).price),
            ) && side@[orderbook::key(levels@[i].price)] == levels@[i],
        forall|k: i64| #[trigger]
            side@.contains_key(k) ==> exists|i: int|
                0 <= i < levels@.len() && #[trigger] levels@[i] == side@[k],
        levels@.len() == 0 ==> low is None && high is None,
        levels@.len() > 0 ==> low == Some(levels@[0].price) && high == Some(levels@.last().price),
{
    if levels@.len() > 0 {
        let n = levels@.len() - 1;
        assert(side@.contains_key(orderbook::key(levels@[0].price)));
        assert(side@.contains_key(orderbook::key(levels@[n].price)));
        let l = low->0;
        let h = high->0;
        assert(levels@.contains(side@[orderbook::key(l)]));
        assert(levels@.contains(side@[orderbook::key(h)]));
        let i = choose|i: int| 0 <= i < levels@.len() && levels@[i] == side@[orderbook::key(l)];
        let j = choose|j: int| 0 <= j < levels@.len() && levels@[j] == side@[orderbook::key(h)];
        if i > 0 {
            assert(orderbook::key(levels@[0].price) < orderbook::key(levels@[i].price));
        }
        if j < n {
            assert(orderbook::key(levels@[j].price) < orderbook::key(levels@[n].price));
        }
    } else {
        assert forall|k: i64| !#[trigger] side@.contains_key(k) by {
            if side@.contains_key(k) {
                assert(levels@.contains(side@[k]));
            }
        }
        assert(side@.dom() =~= Set::empty());
    }
    assert forall|k: i64| #[trigger] side@.contains_key(k) implies exists|i: int|
        0 <= i < levels@.len() && #[trigger] levels@[i] == side@[k] by {
        assert(levels@.contains(side@[k]));
    }
}

/// Loading a side leaves what the list says; patching it leaves at every price
/// listed the last size listed there, none for zero, and every other price as it
/// was; a side that is new or cleared has no levels, and a side has as many as it
/// has prices.
pub proof fn law_sides_are_loaded_and_patched(
    a: &mut BookSide,
    b: &mut BookSide,
    entries: &[(Double, Double)],
    c: &mut BookSide,
    made: BookSide,
    d: &BookSide,
    n: usize,
)
    requires
        call_ensures(BookSide::load, (a, entries), ()),
        old(b).wf(),
        call_ensures(BookSide::patch, (b, entries), ()),
        call_ensures(BookSide::clear, (c,), ()),
        call_ensures(BookSide::new, (), made),
        call_ensures(BookSide::len, (d,), n),
    ensures
        forall|k: i64| #[trigger] is_listed_at(entries@, final(a)@, k),
        forall|k: i64| #[trigger] depth::decides_at(old(b)@, entries@, final(b)@, k),
        forall|k: i64| !#[trigger] final(c)@.contains_key(k),
        forall|k: i64| !#[trigger] made@.contains_key(k),
        n == d@.dom().len(),
{
    assert forall|k: i64| #[trigger] is_listed_at(entries@, final(a)@, k) by {
        law_snapshot_is_what_is_listed(entries@, k);
    }
    assert forall|k: i64| #[trigger] depth::decides_at(old(b)@, entries@, final(b)@, k) by {
        orderbook::law_last_change_wins(old(b)@, entries@, k);
    }
}

} // verus!
