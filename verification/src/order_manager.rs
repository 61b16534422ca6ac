//! Which orders stand on each level, and what is being done about them.
use crate::double::Double;
use std::time::Instant;
use vstd::prelude::*;

verus! {

/// A point of the machine's monotonic clock.
#[verifier::external_type_specification]
#[verifier::external_body]
pub struct ExInstant(Instant);

/// `std::time::Instant::now` reads the clock; nothing is claimed of the point
/// it returns.
pub assume_specification[ Instant::now ]() -> Instant;

#[derive(Debug, Clone, Copy, PartialEq, Eq, Structural)]
pub enum Side {
    Buy,
    Sell,
}

impl Side {
    pub open spec fn name(self) -> Seq<char> {
        match self {
            Side::Buy => "buy"@,
            Side::Sell => "sell"@,
        }
    }

    pub fn as_str(&self) -> (r: &'static str)
        ensures
            r@ == self.name(),
    {
        match self {
            Side::Buy => "buy",
            Side::Sell => "sell",
        }
    }

    /// The name as a string of its own.
    pub fn to_string(&self) -> (r: String)
        ensures
            r@ == self.name(),
    {
        self.as_str().to_owned()
    }
}

#[derive(Debug, Clone, Copy, PartialEq, Eq, Structural)]
pub enum Action {
    Create,
    Modify,
    Cancel,
}

/// A single order operation.
#[derive(Debug, Clone, Copy)]
pub struct BatchOp {
    pub side: Side,
    pub level: usize,
    pub action: Action,
    pub price: Double,
    pub size: Double,
    pub order_id: i64,
    pub exchange_id: i64,
}

#[derive(Debug, Clone, Copy, PartialEq, Eq, Structural)]
pub enum SideStatus {
    Idle,
    Placing,
    Live,
    Modifying,
    Canceling,
}

/// What is being done about the order of one level.
#[derive(Clone, Copy)]
pub struct SideOrderLifecycle {
    pub status: SideStatus,
    pub pending_order_id: Option<i64>,
    pub target_price: Option<Double>,
    pub target_size: Option<Double>,
    pub updated_at: Instant,
}

impl SideOrderLifecycle {
    /// Nothing done or wanted, as of `now`.
    pub open spec fn idle(now: Instant) -> SideOrderLifecycle {
        SideOrderLifecycle {
            status: SideStatus::Idle,
            pending_order_id: None,
            target_price: None,
            target_size: None,
            updated_at: now,
        }
    }

    /// The same lifecycle with another status and other targets, as of `now`.
    pub open spec fn marked(
        self,
        status: SideStatus,
        target_price: Option<Double>,
        target_size: Option<Double>,
        now: Instant,
    ) -> SideOrderLifecycle {
        SideOrderLifecycle {
            status,
            pending_order_id: self.pending_order_id,
            target_price,
            target_size,
            updated_at: now,
        }
    }
}

impl Default for SideOrderLifecycle {
    fn default() -> (r: SideOrderLifecycle)
        ensures
            r == SideOrderLifecycle::idle(r.updated_at),
    {
        SideOrderLifecycle {
            status: SideStatus::Idle,
            pending_order_id: None,
            target_price: None,
            target_size: None,
            updated_at: Instant::now(),
        }
    }
}

/// The orders of one side, by level.
#[verifier::ext_equal]
pub struct SideOrders {
    pub ids: Seq<Option<i64>>,
    pub prices: Seq<Option<Double>>,
    pub sizes: Seq<Option<Double>>,
}

impl SideOrders {
    /// So many levels without an order.
    pub open spec fn vacant(num_levels: nat) -> SideOrders {
        SideOrders {
            ids: Seq::new(num_levels, |i: int| None),
            prices: Seq::new(num_levels, |i: int| None),
            sizes: Seq::new(num_levels, |i: int| None),
        }
    }

    pub open spec fn has_level(self, level: int) -> bool {
        0 <= level < self.ids.len() && level < self.prices.len() && level < self.sizes.len()
    }

    /// The orders with one more on `level`.
    pub open spec fn bound(
        self,
        level: int,
        order_id: i64,
        price: Double,
        size: Double,
    ) -> SideOrders {
        SideOrders {
            ids: self.ids.update(level, Some(order_id)),
            prices: self.prices.update(level, Some(price)),
            sizes: self.sizes.update(level, Some(size)),
        }
    }

    /// The orders without the one on `level`.
    pub open spec fn cleared(self, level: int) -> SideOrders {
        SideOrders {
            ids: self.ids.update(level, None),
            prices: self.prices.update(level, None),
            sizes: self.sizes.update(level, None),
        }
    }

    /// The orders without those of the first `n` levels.
    pub open spec fn cleared_up_to(self, n: nat) -> SideOrders
        decreases n,
    {
        if n == 0 {
            self
        } else {
            self.cleared_up_to((n - 1) as nat).cleared(n - 1)
        }
    }
}

/// Canonical order positions per level.
pub struct OrderState {
    pub bid_order_ids: Vec<Option<i64>>,
    pub ask_order_ids: Vec<Option<i64>>,
    pub bid_prices: Vec<Option<Double>>,
    pub ask_prices: Vec<Option<Double>>,
    pub bid_sizes: Vec<Option<Double>>,
    pub ask_sizes: Vec<Option<Double>>,
}

impl OrderState {
    pub open spec fn orders(self, side: Side) -> SideOrders {
        match side {
            Side::Buy => SideOrders {
                ids: self.bid_order_ids@,
                prices: self.bid_prices@,
                sizes: self.bid_sizes@,
            },
            Side::Sell => SideOrders {
                ids: self.ask_order_ids@,
                prices: self.ask_prices@,
                sizes: self.ask_sizes@,
            },
        }
    }

    pub fn new(num_levels: usize) -> (r: OrderState)
        ensures
            forall|side: Side| #[trigger]
                r.orders(side) == SideOrders::vacant(num_levels as nat),
    {
        let r = OrderState {
            bid_order_ids: vec![None; num_levels],
            ask_order_ids: vec![None; num_levels],
            bid_prices: vec![None; num_levels],
            ask_prices: vec![None; num_levels],
            bid_sizes: vec![None; num_levels],
            ask_sizes: vec![None; num_levels],
        };
        assert forall|side: Side| #[trigger] r.orders(side) == SideOrders::vacant(
            num_levels as nat,
        ) by {
            assert(r.orders(side) =~= SideOrders::vacant(num_levels as nat));
        }
        r
    }
}

/// Lifecycle tracking.
pub struct OrderManager {
    pub bids: Vec<SideOrderLifecycle>,
    pub asks: Vec<SideOrderLifecycle>,
    num_levels: usize,
}

impl OrderManager {
    pub closed spec fn lifecycles(self, side: Side) -> Seq<SideOrderLifecycle> {
        match side {
            Side::Buy => self.bids@,
            Side::Sell => self.asks@,
        }
    }

    /// How many levels each side was made with.
    pub closed spec fn levels(self) -> nat {
        self.num_levels as nat
    }

    pub fn new(num_levels: usize) -> (r: OrderManager)
        ensures
            r.levels() == num_levels,
            forall|side: Side| (#[trigger] r.lifecycles(side)).len() == num_levels,
            forall|side: Side, i: int|
                0 <= i < num_levels ==> #[trigger] r.lifecycles(side)[i]
                    == SideOrderLifecycle::idle(r.lifecycles(side)[i].updated_at),
            forall|side: Side, i: int, j: int|
                0 <= i < num_levels && 0 <= j < num_levels ==> #[trigger] r.lifecycles(side)[i]
                    == #[trigger] r.lifecycles(side)[j],
    {
        OrderManager {
            bids: vec![SideOrderLifecycle::default(); num_levels],
            asks: vec![SideOrderLifecycle::default(); num_levels],
            num_levels,
        }
    }

    pub fn lifecycle(&self, side: Side, level: usize) -> (r: &SideOrderLifecycle)
        requires
            level < self.lifecycles(side).len(),
        ensures
            *r == self.lifecycles(side)[level as int],
    {
        match side {
            Side::Buy => &self.bids[level],
            Side::Sell => &self.asks[level],
        }
    }

    /// Notes a status and targets for a level, as of `now`.
    pub fn mark_status_at(
        &mut self,
        side: Side,
        status: SideStatus,
        level: usize,
        target_price: Option<Double>,
        target_size: Option<Double>,
        now: Instant,
    )
        requires
            level < old(self).lifecycles(side).len(),
        ensures
            final(self).levels() == old(self).levels(),
            final(self).lifecycles(side) == old(self).lifecycles(side).update(
                level as int,
                old(self).lifecycles(side)[level as int].marked(
                    status,
                    target_price,
                    target_size,
                    now,
                ),
            ),
            forall|other: Side|
                other != side ==> #[trigger] final(self).lifecycles(other) == old(self).lifecycles(
                    other,
                ),
    {
        match side {
            Side::Buy => {
                let lc = SideOrderLifecycle {
                    status,
                    pending_order_id: self.bids[level].pending_order_id,
                    target_price,
                    target_size,
                    updated_at: now,
                };
                self.bids[level] = lc;
            },
            Side::Sell => {
                let lc = SideOrderLifecycle {
                    status,
                    pending_order_id: self.asks[level].pending_order_id,
                    target_price,
                    target_size,
                    updated_at: now,
                };
                self.asks[level] = lc;
            },
        }
    }

    /// Notes a status and targets for a level, as of the time of the call.
    pub fn mark_status(
        &mut self,
        side: Side,
        status: SideStatus,
        level: usize,
        target_price: Option<Double>,
        target_size: Option<Double>,
    )
        requires
            level < old(self).lifecycles(side).len(),
        ensures
            final(self).levels() == old(self).levels(),
            final(self).lifecycles(side) == old(self).lifecycles(side).update(
                level as int,
                old(self).lifecycles(side)[level as int].marked(
                    status,
                    target_price,
                    target_size,
                    final(self).lifecycles(side)[level as int].updated_at,
                ),
            ),
            forall|other: Side|
                other != side ==> #[trigger] final(self).lifecycles(other) == old(self).lifecycles(
                    other,
                ),
    {
        let now = Instant::now();
        self.mark_status_at(side, status, level, target_price, target_size, now);
    }

    /// Bind an order as LIVE in the order state and lifecycle.
    pub fn bind_live(
        &mut self,
        orders: &mut OrderState,
        side: Side,
        order_id: i64,
        price: Double,
        size: Double,
        level: usize,
    )
        requires
            level < old(self).lifecycles(side).len(),
            old(orders).orders(side).has_level(level as int),
        ensures
            final(orders).orders(side) == old(orders).orders(side).bound(
                level as int,
                order_id,
                price,
                size,
            ),
            forall|other: Side|
                other != side ==> #[trigger] final(orders).orders(other) == old(orders).orders(
                    other,
                ),
            final(self).levels() == old(self).levels(),
            final(self).lifecycles(side) == old(self).lifecycles(side).update(
                level as int,
                old(self).lifecycles(side)[level as int].marked(
                    SideStatus::Live,
                    Some(price),
                    Some(size),
                    final(self).lifecycles(side)[level as int].updated_at,
                ),
            ),
            forall|other: Side|
                other != side ==> #[trigger] final(self).lifecycles(other) == old(self).lifecycles(
                    other,
                ),
    {
        match side {
            Side::Buy => {
                orders.bid_order_ids[level] = Some(order_id);
                orders.bid_prices[level] = Some(price);
                orders.bid_sizes[level] = Some(size);
            },
            Side::Sell => {
                orders.ask_order_ids[level] = Some(order_id);
                orders.ask_prices[level] = Some(price);
                orders.ask_sizes[level] = Some(size);
            },
        }
        self.mark_status(side, SideStatus::Live, level, Some(price), Some(size));
    }

    /// Clear an order from the order state and set lifecycle to IDLE.
    pub fn clear_live(&mut self, orders: &mut OrderState, side: Side, level: usize)
        requires
            level < old(self).lifecycles(side).len(),
            old(orders).orders(side).has_level(level as int),
        ensures
            final(orders).orders(side) == old(orders).orders(side).cleared(level as int),
            forall|other: Side|
                other != side ==> #[trigger] final(orders).orders(other) == old(orders).orders(
                    other,
                ),
            final(self).levels() == old(self).levels(),
            final(self).lifecycles(side) == old(self).lifecycles(side).update(
                level as int,
                old(self).lifecycles(side)[level as int].marked(
                    SideStatus::Idle,
                    None,
                    None,
                    final(self).lifecycles(side)[level as int].updated_at,
                ),
            ),
            forall|other: Side|
                other != side ==> #[trigger] final(self).lifecycles(other) == old(self).lifecycles(
                    other,
                ),
    {
        match side {
            Side::Buy => {
                orders.bid_order_ids[level] = None;
                orders.bid_prices[level] = None;
                orders.bid_sizes[level] = None;
            },
            Side::Sell => {
                orders.ask_order_ids[level] = None;
                orders.ask_prices[level] = None;
                orders.ask_sizes[level] = None;
            },
        }
        self.mark_status(side, SideStatus::Idle, level, None, None);
    }

    /// Clear all levels for both sides.
    pub fn clear_all(&mut self, orders: &mut OrderState)
        requires
            forall|side: Side|
                (#[trigger] old(self).lifecycles(side)).len() >= old(self).levels(),
            forall|side: Side, level: int|
                0 <= level < old(self).levels() ==> #[trigger] old(orders).orders(side).has_level(
                    level,
                ),
        ensures
            forall|side: Side| #[trigger]
                final(orders).orders(side) == old(orders).orders(side).cleared_up_to(
                    old(self).levels(),
                ),
            final(orders).bid_order_ids@.len() == old(orders).bid_order_ids@.len(),
            final(orders).ask_order_ids@.len() == old(orders).ask_order_ids@.len(),
            final(self).levels() == old(self).levels(),
            forall|side: Side|
                (#[trigger] final(self).lifecycles(side)).len() == old(self).lifecycles(side).len(),
            forall|side: Side, i: int|
                0 <= i < old(self).lifecycles(side).len() ==> #[trigger] final(self).lifecycles(
                    side,
                )[i] == if i < old(self).levels() {
                    old(self).lifecycles(side)[i].marked(
                        SideStatus::Idle,
                        None,
                        None,
                        final(self).lifecycles(side)[i].updated_at,
                    )
                } else {
                    old(self).lifecycles(side)[i]
                },
    {
        let num_levels: usize = self.num_levels;
        for level in 0..num_levels
            invariant
                num_levels == old(self).levels(),
                self.levels() == old(self).levels(),
                forall|side: Side|
                    (#[trigger] self.lifecycles(side)).len() == old(self).lifecycles(side).len(),
                forall|side: Side|
                    (#[trigger] old(self).lifecycles(side)).len() >= old(self).levels(),
                forall|side: Side, l: int|
                    0 <= l < old(self).levels() ==> #[trigger] old(orders).orders(side).has_level(l),
                forall|side: Side| #[trigger]
                    orders.orders(side) == old(orders).orders(side).cleared_up_to(level as nat),
                forall|side: Side, l: int|
                    0 <= l < old(self).levels() ==> #[trigger] orders.orders(side).has_level(l),
                forall|side: Side, i: int|
                    0 <= i < old(self).lifecycles(side).len() ==> #[trigger] self.lifecycles(
                        side,
                    )[i] == if i < level {
                        old(self).lifecycles(side)[i].marked(
                            SideStatus::Idle,
                            None,
                            None,
                            self.lifecycles(side)[i].updated_at,
                        )
                    } else {
                        old(self).lifecycles(side)[i]
                    },
        {
            let ghost before = *orders;
            assert(old(self).lifecycles(Side::Buy).len() == self.lifecycles(Side::Buy).len());
            assert(old(self).lifecycles(Side::Sell).len() == self.lifecycles(Side::Sell).len());
            self.clear_live(orders, Side::Buy, level);
            self.clear_live(orders, Side::Sell, level);
            assert forall|side: Side, l: int|
                0 <= l < old(self).levels() implies #[trigger] orders.orders(side).has_level(l) by {
                assert(before.orders(side).has_level(l));
                assert(before.orders(side).has_level(level as int));
                assert(orders.orders(side) == before.orders(side).cleared(level as int));
            }
        }
        proof {
            let was = *old(orders);
            let n = old(self).levels();
            if n > 0 {
                assert(was.orders(Side::Buy).has_level(n - 1));
                assert(was.orders(Side::Sell).has_level(n - 1));
            }
            lemma_cleared_up_to(was.orders(Side::Buy), n);
            lemma_cleared_up_to(was.orders(Side::Sell), n);
            assert(orders.orders(Side::Buy) == was.orders(Side::Buy).cleared_up_to(n));
            assert(orders.orders(Side::Sell) == was.orders(Side::Sell).cleared_up_to(n));
        }
    }
}

/// Clearing a level undoes a binding there.
pub proof fn law_clear_undoes_bind(
    o: SideOrders,
    level: int,
    order_id: i64,
    price: Double,
    size: Double,
)
    requires
        o.has_level(level),
    ensures
        o.bound(level, order_id, price, size).cleared(level) == o.cleared(level),
        o.ids[level] is None && o.prices[level] is None && o.sizes[level] is None ==> o.bound(
            level,
            order_id,
            price,
            size,
        ).cleared(level) == o,
{
    assert(o.bound(level, order_id, price, size).cleared(level) =~= o.cleared(level));
    if o.ids[level] is None && o.prices[level] is None && o.sizes[level] is None {
        assert(o.cleared(level) =~= o);
    }
}

/// Binding or clearing a level leaves every other level as it was.
pub proof fn law_levels_are_independent(
    o: SideOrders,
    level: int,
    other: int,
    order_id: i64,
    price: Double,
    size: Double,
)
    requires
        o.has_level(level),
        o.has_level(other),
        level != other,
    ensures
        o.bound(level, order_id, price, size).ids[other] == o.ids[other],
        o.bound(level, order_id, price, size).prices[other] == o.prices[other],
        o.bound(level, order_id, price, size).sizes[other] == o.sizes[other],
        o.cleared(level).ids[other] == o.ids[other],
        o.cleared(level).prices[other] == o.prices[other],
        o.cleared(level).sizes[other] == o.sizes[other],
{
}

/// After all levels have been cleared no level holds an order: the orders are
/// what a new state of that many levels holds.
pub proof fn law_clear_all_leaves_nothing(o: SideOrders, n: nat)
    requires
        o.ids.len() == n,
        o.prices.len() == n,
        o.sizes.len() == n,
    ensures
        o.cleared_up_to(n) == SideOrders::vacant(n),
{
    lemma_cleared_up_to(o, n);
    assert(o.cleared_up_to(n) =~= SideOrders::vacant(n));
}

/// Clearing the first `m` levels empties those and no others.
pub proof fn lemma_cleared_up_to(o: SideOrders, m: nat)
    requires
        m <= o.ids.len(),
        m <= o.prices.len(),
        m <= o.sizes.len(),
    ensures
        o.cleared_up_to(m).ids.len() == o.ids.len(),
        o.cleared_up_to(m).prices.len() == o.prices.len(),
        o.cleared_up_to(m).sizes.len() == o.sizes.len(),
        forall|i: int|
            0 <= i < o.ids.len() ==> #[trigger] o.cleared_up_to(m).ids[i] == if i < m {
                None
            } else {
                o.ids[i]
            },
        forall|i: int|
            0 <= i < o.prices.len() ==> #[trigger] o.cleared_up_to(m).prices[i] == if i < m {
                None
            } else {
                o.prices[i]
            },
        forall|i: int|
            0 <= i < o.sizes.len() ==> #[trigger] o.cleared_up_to(m).sizes[i] == if i < m {
                None
            } else {
                o.sizes[i]
            },
    decreases m,
{
    if m > 0 {
        lemma_cleared_up_to(o, (m - 1) as nat);
    }
}

} // verus!
