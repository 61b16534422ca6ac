//! Order books: price levels on two sides, kept by snapshots and deltas.
use crate::arithmetic;
use crate::arithmetic::Arithmetic;
use crate::double::Double;
use std::collections::BTreeMap;
use vstd::prelude::*;
use vstd::std_specs::cmp::OrdSpec;
use vstd::std_specs::iter::IteratorSpec;

verus! {

/// One price level.
#[derive(Clone, Copy, Debug, PartialEq, Eq, Structural)]
pub struct Level {
    pub price: Double,
    pub size: Double,
}

/// The place of a price among the keys of a side. Prices that compare equal
/// share a place.
pub open spec fn key(price: Double) -> i64 {
    price.rank() as i64
}

/// A side with `size` at `price`; a level that is there already keeps the price
/// it was entered with.
pub open spec fn with_level(
    side: Map<i64, Level>,
    price: Double,
    size: Double,
) -> Map<i64, Level> {
    let kept = if side.contains_key(key(price)) {
        side[key(price)].price
    } else {
        price
    };
    side.insert(key(price), Level { price: kept, size })
}

/// The side that a full list of levels describes: the levels of positive size,
/// a later entry for a price replacing an earlier one.
pub open spec fn snapshot_of(levels: Seq<(Double, Double)>) -> Map<i64, Level>
    decreases levels.len(),
{
    if levels.len() == 0 {
        Map::empty()
    } else {
        let before = snapshot_of(levels.drop_last());
        let (price, size) = levels.last();
        if Double::zero().below(size) {
            with_level(before, price, size)
        } else {
            before
        }
    }
}

/// A side after a list of changes, taken in order: size zero removes a level,
/// any other size sets it.
pub open spec fn patched(
    side: Map<i64, Level>,
    changes: Seq<(Double, Double)>,
) -> Map<i64, Level>
    decreases changes.len(),
{
    if changes.len() == 0 {
        side
    } else {
        let before = patched(side, changes.drop_last());
        let (price, size) = changes.last();
        if size.equals(Double::zero()) {
            before.remove(key(price))
        } else {
            with_level(before, price, size)
        }
    }
}

/// `s` lists the levels of a side from the lowest price to the highest.
pub open spec fn lists(side: Map<i64, Level>, s: Seq<Level>) -> bool {
    &&& forall|i: int, j: int| 0 <= i < j < s.len() ==> key(s[i].price) < key(s[j].price)
    &&& forall|i: int|
        0 <= i < s.len() ==> side.contains_key(key((#[trigger] s[i]).price))
            && side[key(s[i].price)] == s[i]
    &&& forall|k: i64| #[trigger] side.contains_key(k) ==> s.contains(side[k])
}

/// Every level stands under the place of its price.
pub open spec fn keyed_by_price(side: Map<i64, Level>) -> bool {
    forall|k: i64| #[trigger] side.contains_key(k) ==> key(side[k].price) == k
}

/// The last entry of an ordered map.
///
/// Calls `BTreeMap::last_key_value`, of which it claims that nothing is
/// returned for an empty map alone, and otherwise an entry of the map whose key
/// is the greatest.
#[verifier::external_body]
fn last_entry(m: &BTreeMap<i64, Level>) -> (r: Option<(&i64, &Level)>)
    ensures
        r is None <==> m@.dom().is_empty(),
        r matches Some((k, level)) ==> m@.contains_key(*k) && m@[*k] == *level && forall|j: i64|
            #[trigger] m@.contains_key(j) ==> j <= *k,
{
    m.last_key_value()
}

/// The first entry of an ordered map: nothing for an empty map alone, and
/// otherwise the entry whose key is the least.
fn first_entry(m: &BTreeMap<i64, Level>) -> (r: Option<(&i64, &Level)>)
    ensures
        r is None <==> m@.dom().is_empty(),
        r matches Some((k, level)) ==> m@.contains_key(*k) && m@[*k] == *level && forall|j: i64|
            #[trigger] m@.contains_key(j) ==> *k <= j,
{
    let entries = m.iter();
    let ghost all = entries.remaining();
    let ghost keys = all.map_values(|entry: (&i64, &Level)| *entry.0);
    proof {
        assert(vstd::std_specs::btree::increasing_seq(keys));
        assert forall|i: int, j: int| 0 <= i < j < all.len() implies *all[i].0 < *all[j].0 by {
            assert(keys[i].cmp_spec(&keys[j]) is Less);
        }
    }
    for entry in it: entries
        invariant
            it.seq() == all,
            it.index() == 0,
            forall|i: int, j: int| 0 <= i < j < all.len() ==> *all[i].0 < *all[j].0,
            forall|i: int|
                0 <= i < all.len() ==> m@.contains_key(*(#[trigger] all[i]).0) && m@[*all[i].0]
                    == *all[i].1,
            forall|j: i64| #[trigger] m@.contains_key(j) ==> all.contains((&j, &m@[j])),
    {
        return Some(entry);
    }
    assert(m@.dom() =~= Set::empty());
    None
}

/// One side of a book: sizes by price, in the order of prices.
pub struct BookSide {
    levels: BTreeMap<i64, Level>,
}

impl BookSide {
    pub closed spec fn view(self) -> Map<i64, Level> {
        self.levels@
    }

    pub open spec fn wf(self) -> bool {
        keyed_by_price(self@)
    }

    pub fn new() -> (r: BookSide)
        ensures
            r.wf(),
            r@ == Map::<i64, Level>::empty(),
    {
        BookSide { levels: BTreeMap::new() }
    }

    pub fn len(&self) -> (n: usize)
        ensures
            n == self@.len(),
    {
        self.levels.len()
    }

    pub fn clear(&mut self)
        ensures
            final(self).wf(),
            final(self)@ == Map::<i64, Level>::empty(),
    {
        self.levels.clear();
    }

    /// Sets the size at a price.
    pub fn insert(&mut self, price: Double, size: Double)
        requires
            old(self).wf(),
        ensures
            final(self).wf(),
            final(self)@ == with_level(old(self)@, price, size),
    {
        let k = price.order_key();
        let kept = match self.levels.get(&k) {
            Some(level) => level.price,
            None => price,
        };
        self.levels.insert(k, Level { price: kept, size });
    }

    /// Removes the level at a price, if there is one.
    pub fn remove(&mut self, price: Double)
        requires
            old(self).wf(),
        ensures
            final(self).wf(),
            final(self)@ == old(self)@.remove(key(price)),
    {
        let k = price.order_key();
        self.levels.remove(&k);
    }

    /// The size at a price, if there is a level.
    pub fn get(&self, price: Double) -> (r: Option<Double>)
        ensures
            r == if self@.contains_key(key(price)) {
                Some(self@[key(price)].size)
            } else {
                None
            },
    {
        let k = price.order_key();
        match self.levels.get(&k) {
            Some(level) => Some(level.size),
            None => None,
        }
    }

    pub fn contains_key(&self, price: Double) -> (r: bool)
        ensures
            r == self@.contains_key(key(price)),
    {
        let k = price.order_key();
        self.levels.contains_key(&k)
    }

    /// Replaces the side by the levels of positive size.
    pub fn load(&mut self, levels: &[(Double, Double)])
        ensures
            final(self).wf(),
            final(self)@ == snapshot_of(levels@),
    {
        self.clear();
        assert(levels@.take(0) =~= Seq::empty());
        for i in 0..levels.len()
            invariant
                self.wf(),
                self@ == snapshot_of(levels@.take(i as int)),
        {
            let (price, size) = levels[i];
            assert(levels@.take(i + 1).drop_last() =~= levels@.take(i as int));
            if size.gt(Double::zero()) {
                self.insert(price, size);
            }
        }
        assert(levels@.take(levels@.len() as int) =~= levels@);
    }

    /// Applies changes in order: size zero removes a level, any other size sets
    /// it.
    pub fn patch(&mut self, changes: &[(Double, Double)])
        requires
            old(self).wf(),
        ensures
            final(self).wf(),
            final(self)@ == patched(old(self)@, changes@),
    {
        assert(changes@.take(0) =~= Seq::empty());
        for i in 0..changes.len()
            invariant
                self.wf(),
                self@ == patched(old(self)@, changes@.take(i as int)),
        {
            let (price, size) = changes[i];
            assert(changes@.take(i + 1).drop_last() =~= changes@.take(i as int));
            if size.same_number(Double::zero()) {
                self.remove(price);
            } else {
                self.insert(price, size);
            }
        }
        assert(changes@.take(changes@.len() as int) =~= changes@);
    }

    /// The levels from the lowest price to the highest.
    pub fn ascending(&self) -> (r: Vec<Level>)
        requires
            self.wf(),
        ensures
            lists(self@, r@),
    {
        let mut out: Vec<Level> = Vec::new();
        let entries = self.levels.iter();
        let ghost all = entries.remaining();
        let ghost keys = all.map_values(|entry: (&i64, &Level)| *entry.0);
        proof {
            assert(vstd::std_specs::btree::increasing_seq(keys));
            assert forall|i: int, j: int| 0 <= i < j < all.len() implies *all[i].0 < *all[j].0 by {
                assert(keys[i].cmp_spec(&keys[j]) is Less);
            }
        }
        for entry in it: entries
            invariant
                it.seq() == all,
                out@.len() == it.index(),
                forall|i: int| 0 <= i < out@.len() ==> out@[i] == *all[i].1,
        {
            out.push(*entry.1);
        }
        proof {
            assert forall|i: int| 0 <= i < out@.len() implies self@.contains_key(
                key((#[trigger] out@[i]).price),
            ) && self@[key(out@[i].price)] == out@[i] && key(out@[i].price) == *all[i].0 by {
                assert(self.levels@.contains_key(*all[i].0));
            }
            assert forall|k: i64| #[trigger] self@.contains_key(k) implies out@.contains(
                self@[k],
            ) by {
                assert(all.contains((&k, &self.levels@[k])));
                let i = choose|i: int| 0 <= i < all.len() && all[i] == (&k, &self.levels@[k]);
                assert(out@[i] == self@[k]);
            }
        }
        out
    }

    /// The price of the lowest level.
    pub fn lowest(&self) -> (r: Option<Double>)
        requires
            self.wf(),
        ensures
            r is None <==> self@.dom().is_empty(),
            r matches Some(p) ==> is_lowest(self@, p),
    {
        match first_entry(&self.levels) {
            Some((_, level)) => Some(level.price),
            None => None,
        }
    }

    /// The price of the highest level.
    pub fn highest(&self) -> (r: Option<Double>)
        requires
            self.wf(),
        ensures
            r is None <==> self@.dom().is_empty(),
            r matches Some(p) ==> is_highest(self@, p),
    {
        match last_entry(&self.levels) {
            Some((_, level)) => Some(level.price),
            None => None,
        }
    }
}

/// `r` is a result of the mean of two prices.
pub open spec fn is_midpoint<A: Arithmetic>(ops: &A, bid: Double, ask: Double, r: Double) -> bool {
    exists|total: Double|
        #[trigger] arithmetic::is_sum(ops, bid, ask, total) && arithmetic::is_quotient(
            ops,
            total,
            Double::two(),
            r,
        )
}

/// `p` is the price of the highest level of a side.
pub open spec fn is_highest(side: Map<i64, Level>, p: Double) -> bool {
    &&& side.contains_key(key(p))
    &&& side[key(p)].price == p
    &&& forall|k: i64| #[trigger] side.contains_key(k) ==> k <= key(p)
}

/// `p` is the price of the lowest level of a side.
pub open spec fn is_lowest(side: Map<i64, Level>, p: Double) -> bool {
    &&& side.contains_key(key(p))
    &&& side[key(p)].price == p
    &&& forall|k: i64| #[trigger] side.contains_key(k) ==> key(p) <= k
}

/// `r` is a result of the mean of the best bid and the best ask.
pub open spec fn is_mid<A: Arithmetic>(
    ops: &A,
    bids: Map<i64, Level>,
    asks: Map<i64, Level>,
    r: Double,
) -> bool {
    exists|bid: Double, ask: Double|
        is_highest(bids, bid) && is_lowest(asks, ask) && #[trigger] is_midpoint(ops, bid, ask, r)
}

/// Whether an update replaces the book: the first one does, and so does any
/// that lists more levels on a side than the threshold.
pub open spec fn is_snapshot(
    initialized: bool,
    bids: nat,
    asks: nat,
    snapshot_threshold: usize,
) -> bool {
    !initialized || bids > snapshot_threshold || asks > snapshot_threshold
}

/// An order book.
pub struct Orderbook {
    pub bids: BookSide,
    pub asks: BookSide,
    pub initialized: bool,
}

impl Orderbook {
    pub open spec fn wf(self) -> bool {
        self.bids.wf() && self.asks.wf()
    }

    pub fn new() -> (r: Orderbook)
        ensures
            r.wf(),
            r.bids@ == Map::<i64, Level>::empty(),
            r.asks@ == Map::<i64, Level>::empty(),
            !r.initialized,
    {
        Orderbook { bids: BookSide::new(), asks: BookSide::new(), initialized: false }
    }

    /// Apply an orderbook update (snapshot or delta).
    /// Returns true if treated as a snapshot.
    pub fn apply_update(
        &mut self,
        bids_in: &[(Double, Double)],
        asks_in: &[(Double, Double)],
        snapshot_threshold: usize,
    ) -> (snapshot: bool)
        requires
            old(self).wf(),
        ensures
            final(self).wf(),
            final(self).initialized,
            snapshot == is_snapshot(
                old(self).initialized,
                bids_in@.len(),
                asks_in@.len(),
                snapshot_threshold,
            ),
            snapshot ==> final(self).bids@ == snapshot_of(bids_in@),
            snapshot ==> final(self).asks@ == snapshot_of(asks_in@),
            !snapshot ==> final(self).bids@ == patched(old(self).bids@, bids_in@),
            !snapshot ==> final(self).asks@ == patched(old(self).asks@, asks_in@),
    {
        let is_snapshot = if !self.initialized {
            true
        } else {
            bids_in.len() > snapshot_threshold || asks_in.len() > snapshot_threshold
        };

        if is_snapshot {
            self.bids.load(bids_in);
            self.asks.load(asks_in);
            self.initialized = true;
        } else {
            self.bids.patch(bids_in);
            self.asks.patch(asks_in);
        }

        is_snapshot
    }

    pub fn best_bid(&self) -> (r: Option<Double>)
        requires
            self.wf(),
        ensures
            r is None <==> self.bids@.dom().is_empty(),
            r matches Some(p) ==> is_highest(self.bids@, p),
    {
        self.bids.highest()
    }

    pub fn best_ask(&self) -> (r: Option<Double>)
        requires
            self.wf(),
        ensures
            r is None <==> self.asks@.dom().is_empty(),
            r matches Some(p) ==> is_lowest(self.asks@, p),
    {
        self.asks.lowest()
    }

    /// The mean of the best bid and the best ask, where there are both.
    pub fn mid<A: Arithmetic>(&self, ops: &A) -> (r: Option<Double>)
        requires
            self.wf(),
        ensures
            r is None <==> self.bids@.dom().is_empty() || self.asks@.dom().is_empty(),
            r matches Some(m) ==> is_mid(ops, self.bids@, self.asks@, m),
    {
        match (self.best_bid(), self.best_ask()) {
            (Some(bid), Some(ask)) => {
                let total = ops.plus(bid, ask);
                let mid = ops.over(total, Double::two());
                assert(arithmetic::is_sum(ops, bid, ask, total));
                assert(is_midpoint(ops, bid, ask, mid));
                assert(is_mid(ops, self.bids@, self.asks@, mid));
                Some(mid)
            },
            _ => None,
        }
    }

    pub fn clear(&mut self)
        ensures
            final(self).wf(),
            final(self).bids@ == Map::<i64, Level>::empty(),
            final(self).asks@ == Map::<i64, Level>::empty(),
            !final(self).initialized,
    {
        self.bids.clear();
        self.asks.clear();
        self.initialized = false;
    }
}

/// `i` is the last of the entries for place `k`.
pub open spec fn is_last_for(entries: Seq<(Double, Double)>, k: i64, i: int) -> bool {
    &&& 0 <= i < entries.len()
    &&& key(entries[i].0) == k
    &&& forall|j: int| i < j < entries.len() ==> key((#[trigger] entries[j]).0) != k
}

/// `i` is the last of the entries of positive size for place `k`.
pub open spec fn is_last_positive_for(entries: Seq<(Double, Double)>, k: i64, i: int) -> bool {
    &&& 0 <= i < entries.len()
    &&& key(entries[i].0) == k
    &&& Double::zero().below(entries[i].1)
    &&& forall|j: int|
        i < j < entries.len() ==> key((#[trigger] entries[j]).0) != k || !Double::zero().below(
            entries[j].1,
        )
}

/// Of several changes to one price the last decides: size zero leaves no level
/// there, any other size leaves that size. A price without a change keeps its
/// level, or its absence.
pub proof fn law_last_change_wins(side: Map<i64, Level>, changes: Seq<(Double, Double)>, k: i64)
    ensures
        forall|i: int| #[trigger]
            is_last_for(changes, k, i) ==> (patched(side, changes).contains_key(k)
                <==> !changes[i].1.equals(Double::zero())),
        forall|i: int| #[trigger]
            is_last_for(changes, k, i) && !changes[i].1.equals(Double::zero()) ==> patched(
                side,
                changes,
            )[k].size == changes[i].1,
        (forall|i: int| 0 <= i < changes.len() ==> key((#[trigger] changes[i]).0) != k) ==> (
        patched(side, changes).contains_key(k) == side.contains_key(k) && patched(
            side,
            changes,
        )[k] == side[k]),
    decreases changes.len(),
{
    if changes.len() > 0 {
        let before = changes.drop_last();
        law_last_change_wins(side, before, k);
        if key(changes.last().0) != k {
            assert forall|i: int| #[trigger] is_last_for(changes, k, i) implies is_last_for(
                before,
                k,
                i,
            ) by {
                assert forall|j: int| i < j < before.len() implies key(
                    (#[trigger] before[j]).0,
                ) != k by {
                    assert(before[j] == changes[j]);
                }
            }
            if forall|i: int| 0 <= i < changes.len() ==> key((#[trigger] changes[i]).0) != k {
                assert forall|i: int| 0 <= i < before.len() implies key(
                    (#[trigger] before[i]).0,
                ) != k by {
                    assert(before[i] == changes[i]);
                }
            }
        } else {
            assert forall|i: int| #[trigger] is_last_for(changes, k, i) implies i
                == changes.len() - 1 by {
                if i < changes.len() - 1 {
                    assert(changes[changes.len() - 1] == changes.last());
                }
            }
            assert(changes[changes.len() - 1] == changes.last());
        }
    }
}

/// A snapshot holds a price exactly if the list has it with a positive size,
/// and then with the last such size.
pub proof fn law_snapshot_holds_positive_sizes(levels: Seq<(Double, Double)>, k: i64)
    ensures
        snapshot_of(levels).contains_key(k) <==> exists|i: int|
            #[trigger] is_last_positive_for(levels, k, i),
        forall|i: int| #[trigger]
            is_last_positive_for(levels, k, i) ==> snapshot_of(levels)[k].size == levels[i].1,
    decreases levels.len(),
{
    if levels.len() > 0 {
        let before = levels.drop_last();
        let last = levels.len() - 1;
        law_snapshot_holds_positive_sizes(before, k);
        assert(levels[last] == levels.last());
        if key(levels.last().0) == k && Double::zero().below(levels.last().1) {
            assert(is_last_positive_for(levels, k, last));
            assert forall|i: int| #[trigger] is_last_positive_for(levels, k, i) implies i
                == last by {}
        } else {
            assert forall|i: int|
                is_last_positive_for(levels, k, i) == #[trigger] is_last_positive_for(
                    before,
                    k,
                    i,
                ) by {
                assert forall|j: int| 0 <= j < before.len() implies before[j] == #[trigger] levels[j] by {}
            }
            assert forall|i: int| #[trigger] is_last_positive_for(levels, k, i) implies
                snapshot_of(levels)[k].size == levels[i].1 by {
                assert(is_last_positive_for(before, k, i));
            }
            if exists|i: int| #[trigger] is_last_positive_for(levels, k, i) {
                let i = choose|i: int| #[trigger] is_last_positive_for(levels, k, i);
                assert(is_last_positive_for(before, k, i));
            }
            if exists|i: int| #[trigger] is_last_positive_for(before, k, i) {
                let i = choose|i: int| #[trigger] is_last_positive_for(before, k, i);
                assert(is_last_positive_for(levels, k, i));
            }
        }
    } else {
        if exists|i: int| #[trigger] is_last_positive_for(levels, k, i) {
            let i = choose|i: int| #[trigger] is_last_positive_for(levels, k, i);
            assert(false);
        }
    }
}

/// The price under which a place stands does not depend on how often the same
/// changes were applied.
proof fn lemma_price_settles(
    side: Map<i64, Level>,
    other: Map<i64, Level>,
    changes: Seq<(Double, Double)>,
    k: i64,
)
    requires
        other.contains_key(k),
    ensures
        patched(side, changes).contains_key(k) && other[k].price == patched(side, changes)[k].price
            ==> patched(other, changes).contains_key(k) && patched(other, changes)[k].price
            == other[k].price,
        !patched(side, changes).contains_key(k) && patched(other, changes).contains_key(k)
            ==> patched(other, changes)[k].price == other[k].price,
    decreases changes.len(),
{
    if changes.len() > 0 {
        lemma_price_settles(side, other, changes.drop_last(), k);
    }
}

/// The last of the entries for a place, if there is one.
proof fn lemma_last_for_exists(entries: Seq<(Double, Double)>, k: i64, at: int)
    requires
        0 <= at < entries.len(),
        key(entries[at].0) == k,
    ensures
        exists|i: int| #[trigger] is_last_for(entries, k, i),
    decreases entries.len() - at,
{
    if forall|j: int| at < j < entries.len() ==> key((#[trigger] entries[j]).0) != k {
        assert(is_last_for(entries, k, at));
    } else {
        let j = choose|j: int|
            at < j < entries.len() && key((#[trigger] entries[j]).0) == k;
        lemma_last_for_exists(entries, k, j);
    }
}

/// Applying the same changes again changes nothing.
pub proof fn law_patch_is_idempotent(side: Map<i64, Level>, changes: Seq<(Double, Double)>)
    ensures
        patched(patched(side, changes), changes) == patched(side, changes),
{
    let once = patched(side, changes);
    let twice = patched(once, changes);
    assert forall|k: i64|
        once.contains_key(k) == #[trigger] twice.contains_key(k) && (once.contains_key(k)
            ==> once[k] == twice[k]) by {
        law_last_change_wins(side, changes, k);
        law_last_change_wins(once, changes, k);
        if exists|i: int| 0 <= i < changes.len() && key((#[trigger] changes[i]).0) == k {
            let at = choose|i: int| 0 <= i < changes.len() && key((#[trigger] changes[i]).0) == k;
            lemma_last_for_exists(changes, k, at);
            let i = choose|i: int| #[trigger] is_last_for(changes, k, i);
            if once.contains_key(k) {
                lemma_price_settles(side, once, changes, k);
                assert(once[k].size == twice[k].size);
            }
        }
    }
    assert(once =~= twice);
}

/// No level of a side has size zero.
pub open spec fn no_zero_sizes(side: Map<i64, Level>) -> bool {
    forall|k: i64| #[trigger] side.contains_key(k) ==> !side[k].size.equals(Double::zero())
}

/// A book never holds a level of size zero: snapshots enter none and deltas
/// keep it so.
pub proof fn law_sizes_never_zero(side: Map<i64, Level>, entries: Seq<(Double, Double)>)
    ensures
        no_zero_sizes(snapshot_of(entries)),
        no_zero_sizes(side) ==> no_zero_sizes(patched(side, entries)),
    decreases entries.len(),
{
    if entries.len() > 0 {
        law_sizes_never_zero(side, entries.drop_last());
    }
}

/// Every level of a side has a positive size.
pub open spec fn all_sizes_positive(side: Map<i64, Level>) -> bool {
    forall|k: i64| #[trigger] side.contains_key(k) ==> Double::zero().below(side[k].size)
}

/// No entry has a negative size, or one that is not a number.
pub open spec fn no_negative_entries(entries: Seq<(Double, Double)>) -> bool {
    forall|i: int| 0 <= i < entries.len() ==> (#[trigger] entries[i]).1.at_least(Double::zero())
}

/// Every size that a book holds is positive: a snapshot enters no other, and
/// deltas whose sizes are at least zero keep it so.
pub proof fn law_sizes_stay_positive(side: Map<i64, Level>, entries: Seq<(Double, Double)>)
    ensures
        all_sizes_positive(snapshot_of(entries)),
        all_sizes_positive(side) && no_negative_entries(entries) ==> all_sizes_positive(
            patched(side, entries),
        ),
    decreases entries.len(),
{
    if entries.len() > 0 {
        let before = entries.drop_last();
        law_sizes_stay_positive(side, before);
        if no_negative_entries(entries) {
            assert forall|i: int| 0 <= i < before.len() implies (
            #[trigger] before[i]).1.at_least(Double::zero()) by {
                assert(before[i] == entries[i]);
            }
            assert(entries[entries.len() - 1].1.at_least(Double::zero()));
        }
    }
}

/// A side is listed in one way only.
pub proof fn lemma_lists_agree(side: Map<i64, Level>, s: Seq<Level>, t: Seq<Level>)
    requires
        lists(side, s),
        lists(side, t),
    ensures
        s == t,
{
    if s.len() > 0 {
        lemma_lists_agree_at(side, s, t, s.len() - 1);
    }
    if t.len() > 0 {
        lemma_lists_agree_at(side, t, s, t.len() - 1);
    }
    assert forall|i: int| 0 <= i < s.len() implies s[i] == t[i] by {
        lemma_lists_agree_at(side, s, t, i);
    }
    assert(s =~= t);
}

proof fn lemma_lists_agree_at(side: Map<i64, Level>, s: Seq<Level>, t: Seq<Level>, i: int)
    requires
        lists(side, s),
        lists(side, t),
        0 <= i < s.len(),
    ensures
        i < t.len(),
        s[i] == t[i],
    decreases i,
{
    assert forall|j: int| 0 <= j < i implies j < t.len() && s[j] == t[j] by {
        lemma_lists_agree_at(side, s, t, j);
    }
    assert(side.contains_key(key(s[i].price)));
    assert(t.contains(s[i]));
    let k = choose|k: int| 0 <= k < t.len() && t[k] == s[i];
    if k < i {
        assert(s[k] == t[k]);
        assert(key(s[k].price) < key(s[i].price));
    }
    if i < k {
        assert(key(t[i].price) < key(t[k].price));
        assert(side.contains_key(key(t[i].price)));
        assert(s.contains(t[i]));
        let m = choose|m: int| 0 <= m < s.len() && s[m] == t[i];
        if m > i {
            assert(key(s[i].price) < key(s[m].price));
        }
        if m < i {
            assert(t[m] == s[m]);
            assert(key(t[m].price) < key(t[i].price));
        }
    }
}

/// Entries that are alike, one by one.
pub open spec fn entries_alike(a: Seq<(Double, Double)>, b: Seq<(Double, Double)>) -> bool {
    &&& a.len() == b.len()
    &&& forall|i: int|
        #![trigger a[i]]
        #![trigger b[i]]
        0 <= i < a.len() ==> a[i].0.alike(b[i].0) && a[i].1.alike(b[i].1)
}

/// Sides that are alike: levels at the same prices, with the same sizes, whatever
/// the bits of what is not a number.
pub open spec fn sides_alike(a: Map<i64, Level>, b: Map<i64, Level>) -> bool {
    &&& forall|k: i64| #[trigger] a.contains_key(k) <==> #[trigger] b.contains_key(k)
    &&& forall|k: i64| #[trigger]
        a.contains_key(k) ==> a[k].price.alike(b[k].price) && a[k].size.alike(b[k].size)
}

/// Changes that are alike leave a side alike.
pub proof fn lemma_patched_alike(
    side: Map<i64, Level>,
    a: Seq<(Double, Double)>,
    b: Seq<(Double, Double)>,
)
    requires
        entries_alike(a, b),
    ensures
        sides_alike(patched(side, a), patched(side, b)),
    decreases a.len(),
{
    if a.len() > 0 {
        let c = a.drop_last();
        let d = b.drop_last();
        assert forall|i: int| #![trigger c[i]] #![trigger d[i]] 0 <= i < c.len() implies c[i].0.alike(
            d[i].0,
        ) && c[i].1.alike(d[i].1) by {
            assert(c[i] == a[i] && d[i] == b[i]);
        }
        lemma_patched_alike(side, c, d);
        let n = a.len() - 1;
        assert(a[n].0.alike(b[n].0) && a[n].1.alike(b[n].1));
        assert(a.last() == a[n] && b.last() == b[n]);
        assert(key(a.last().0) == key(b.last().0));
    }
}

} // verus!
