//! What is kept of orders and fills: every call by what it leaves behind.
use crate::arithmetic;
use crate::arithmetic::Arithmetic;
use crate::document_laws;
use crate::double::Double;
use crate::order_manager;
use crate::order_manager::{OrderManager, OrderState, Side, SideOrderLifecycle, SideStatus};
use crate::text;
use crate::trade_log;
use crate::trade_log::{ClearStage, Fill, FlushStage, TradeLogger};
use std::path::{Path, PathBuf};
use std::time::Instant;
use vstd::prelude::*;

verus! {

/// Eleven columns with commas between them and a line break behind them.
pub open spec fn line_of(
    time: Seq<char>,
    symbol: Seq<char>,
    side: Seq<char>,
    price: Seq<char>,
    size: Seq<char>,
    level: Seq<char>,
    position: Seq<char>,
    pnl: Seq<char>,
    capital: Seq<char>,
    value: Seq<char>,
    simulated: Seq<char>,
) -> Seq<char> {
    time + seq![','] + symbol + seq![','] + side + seq![','] + price + seq![','] + size + seq![',']
        + level + seq![','] + position + seq![','] + pnl + seq![','] + capital + seq![','] + value
        + seq![','] + simulated + seq!['\n']
}

/// A line says what a fill is: the price with ten decimals, size and position with
/// six, the profit with four, capital and value with two, the level in decimal,
/// and whether it was simulated.
pub open spec fn says_fill<A: Arithmetic>(
    ops: &A,
    time: Seq<char>,
    symbol: Seq<char>,
    side: Seq<char>,
    fill: Fill,
    row: Seq<char>,
) -> bool {
    exists|
        price: Seq<char>,
        size: Seq<char>,
        level: Seq<char>,
        position: Seq<char>,
        pnl: Seq<char>,
        capital: Seq<char>,
        value: Seq<char>,
        simulated: Seq<char>,
    |
        row == #[trigger] line_of(
            time,
            symbol,
            side,
            price,
            size,
            level,
            position,
            pnl,
            capital,
            value,
            simulated,
        ) && arithmetic::is_fixed(ops, fill.price, 10, price) && arithmetic::is_fixed(
            ops,
            fill.size,
            6,
            size,
        ) && document_laws::digits_value(level) == fill.level && arithmetic::is_fixed(
            ops,
            fill.position_after,
            6,
            position,
        ) && arithmetic::is_fixed(ops, fill.realized_pnl, 4, pnl) && arithmetic::is_fixed(
            ops,
            fill.available_capital,
            2,
            capital,
        ) && arithmetic::is_fixed(ops, fill.portfolio_value, 2, value) && simulated
            == if fill.simulated {
            "true"@
        } else {
            "false"@
        }
}

/// One line for a fill was put behind what was there.
pub open spec fn gains_fill<A: Arithmetic>(
    ops: &A,
    time: Seq<char>,
    symbol: Seq<char>,
    side: Seq<char>,
    fill: Fill,
    before: Seq<u8>,
    after: Seq<u8>,
) -> bool {
    exists|row: Seq<char>| #[trigger]
        says_fill(ops, time, symbol, side, fill, row) && after == before
            + vstd::utf8::encode_utf8(row)
}

proof fn lemma_gains_fill<A: Arithmetic>(
    ops: &A,
    time: Seq<char>,
    symbol: Seq<char>,
    side: Seq<char>,
    fill: Fill,
    before: Seq<u8>,
    after: Seq<u8>,
)
    requires
        trade_log::adds_row(ops, time, symbol, side, fill, before, after),
    ensures
        gains_fill(ops, time, symbol, side, fill, before, after),
{
    let row = choose|row: Seq<char>| #[trigger]
        trade_log::is_row(ops, time, symbol, side, fill, row) && after == before
            + vstd::utf8::encode_utf8(row);
    let t = choose|t: trade_log::FillTexts| #[trigger]
        trade_log::writes_numbers(ops, fill, t) && row == trade_log::csv_line(
            trade_log::row_fields(time, symbol, side, fill, t),
        );
    let f = trade_log::row_fields(time, symbol, side, fill, t);
    trade_log::lemma_line_of_eleven(f);
    document_laws::law_decimal_reads_back(fill.level as nat);
    assert(row == line_of(
        time,
        symbol,
        side,
        t.price,
        t.size,
        text::decimal(fill.level as nat),
        t.position_after,
        t.realized_pnl,
        t.available_capital,
        t.portfolio_value,
        if fill.simulated {
            "true"@
        } else {
            "false"@
        },
    ));
    assert(says_fill(ops, time, symbol, side, fill, row));
}

/// A fill is logged as one line behind the rows that wait, under the logger's
/// symbol; where the calendar does not reach its time nothing is logged.
pub proof fn law_fills_are_logged_as_lines<A: Arithmetic>(
    ops: &A,
    logger: &mut TradeLogger,
    time: &str,
    side: &str,
    fill: Fill,
    timed: &mut TradeLogger,
    millis: i64,
    logged: bool,
)
    requires
        call_ensures(TradeLogger::log_row::<A>, (logger, ops, time, side, fill), ()),
        call_ensures(TradeLogger::log_fill_at::<A>, (timed, ops, millis, side, fill), logged),
    ensures
        gains_fill(
            ops,
            time@,
            old(logger).symbol(),
            side@,
            fill,
            old(logger).rows(),
            final(logger).rows(),
        ),
        final(logger).log_path() == old(logger).log_path(),
        final(logger).symbol() == old(logger).symbol(),
        logged <==> trade_log::utc_text(millis, "%Y-%m-%dT%H:%M:%S%.3fZ"@) is Some,
        logged ==> gains_fill(
            ops,
            trade_log::utc_text(millis, "%Y-%m-%dT%H:%M:%S%.3fZ"@)->0,
            old(timed).symbol(),
            side@,
            fill,
            old(timed).rows(),
            final(timed).rows(),
        ),
        !logged ==> final(timed).rows() == old(timed).rows(),
        final(timed).log_path() == old(timed).log_path(),
        final(timed).symbol() == old(timed).symbol(),
{
    lemma_gains_fill(
        ops,
        time@,
        old(logger).symbol(),
        side@,
        fill,
        old(logger).rows(),
        final(logger).rows(),
    );
    if logged {
        lemma_gains_fill(
            ops,
            trade_log::utc_text(millis, trade_log::time_pattern())->0,
            old(timed).symbol(),
            side@,
            fill,
            old(timed).rows(),
            final(timed).rows(),
        );
    }
}

/// A fill that is stamped with the time of the call is logged as one line with
/// everything in its column.
pub proof fn law_stamped_fills_are_logged_as_lines<A: Arithmetic>(
    ops: &A,
    logger: &mut TradeLogger,
    side: &str,
    fill: Fill,
)
    requires
        call_ensures(
            TradeLogger::log_fill::<A>,
            (
                logger,
                ops,
                side,
                fill.price,
                fill.size,
                fill.level,
                fill.position_after,
                fill.realized_pnl,
                fill.available_capital,
                fill.portfolio_value,
                fill.simulated,
            ),
            (),
        ),
    ensures
        exists|millis: i64|
            (#[trigger] trade_log::utc_text(millis, "%Y-%m-%dT%H:%M:%S%.3fZ"@)) is Some
                && gains_fill(
                ops,
                trade_log::utc_text(millis, "%Y-%m-%dT%H:%M:%S%.3fZ"@)->0,
                old(logger).symbol(),
                side@,
                fill,
                old(logger).rows(),
                final(logger).rows(),
            ),
        final(logger).log_path() == old(logger).log_path(),
        final(logger).symbol() == old(logger).symbol(),
{
    let millis = choose|millis: i64| #[trigger]
        trade_log::utc_text(millis, trade_log::time_pattern()) is Some && trade_log::adds_row(
            ops,
            trade_log::utc_text(millis, trade_log::time_pattern())->0,
            old(logger).symbol(),
            side@,
            fill,
            old(logger).rows(),
            final(logger).rows(),
        );
    lemma_gains_fill(
        ops,
        trade_log::utc_text(millis, trade_log::time_pattern())->0,
        old(logger).symbol(),
        side@,
        fill,
        old(logger).rows(),
        final(logger).rows(),
    );
    assert(trade_log::utc_text(millis, "%Y-%m-%dT%H:%M:%S%.3fZ"@) is Some);
}

/// A flush of rows writes the temporary file first, with the rows behind what the
/// log holds, and replaces the log only after that went well; it drops the rows
/// only after the replacement went well. Without rows it is over at once.
pub proof fn law_flush_takes_its_course(
    logger: &TradeLogger,
    begun: FlushStage,
    log: &[u8],
    written: Vec<u8>,
    stepped: &mut TradeLogger,
    stage: FlushStage,
    succeeded: bool,
    next: FlushStage,
)
    requires
        call_ensures(TradeLogger::flush, (logger,), begun),
        call_ensures(TradeLogger::with_rows, (logger, log), written),
        call_ensures(TradeLogger::continue_flush, (stepped, stage, succeeded), next),
    ensures
        begun is WriteTemp <==> logger.rows().len() > 0,
        begun is Finished <==> logger.rows().len() == 0,
        written@.len() == log@.len() + logger.rows().len(),
        written@.take(log@.len() as int) == log@,
        written@.skip(log@.len() as int) == logger.rows(),
        next is WriteTemp ==> false,
        next is ReplaceLog <==> stage is WriteTemp && succeeded,
        next is Finished <==> stage is Finished || stage is ReplaceLog && succeeded,
        stage is ReplaceLog && succeeded ==> final(stepped).rows().len() == 0,
        !(stage is ReplaceLog && succeeded) ==> final(stepped).rows() == old(stepped).rows(),
        final(stepped).log_path() == old(stepped).log_path(),
        final(stepped).symbol() == old(stepped).symbol(),
{
    assert(written@.take(log@.len() as int) =~= log@);
    assert(written@.skip(log@.len() as int) =~= logger.rows());
}

/// A deletion forgets the rows that wait at once; it removes the log where there
/// is one, then writes the header, and each step only after the one before went
/// well. A log needs its header where it is missing, empty or of unknown length.
pub proof fn law_deletion_takes_its_course(
    logger: &mut TradeLogger,
    present: bool,
    begun: ClearStage,
    stage: ClearStage,
    succeeded: bool,
    next: ClearStage,
    there: bool,
    len: Option<u64>,
    needed: bool,
)
    requires
        call_ensures(TradeLogger::clear, (logger, present), begun),
        call_ensures(trade_log::continue_clear, (stage, succeeded), next),
        call_ensures(trade_log::needs_header, (there, len), needed),
    ensures
        final(logger).rows().len() == 0,
        final(logger).log_path() == old(logger).log_path(),
        final(logger).symbol() == old(logger).symbol(),
        begun is RemoveLog <==> present,
        begun is WriteHeader <==> !present,
        next is RemoveLog ==> false,
        next is WriteHeader <==> stage is RemoveLog && succeeded,
        next is Finished <==> stage is Finished || stage is WriteHeader && succeeded,
        !needed <==> there && (len matches Some(n) && n > 0),
{
}

/// A logger is made for the log of its symbol in its directory, with no rows; it
/// says where its log is and which rows wait.
pub proof fn law_logger_is_made_for_symbol(
    dir: &Path,
    symbol: &str,
    made: TradeLogger,
    name: String,
    logger: &TradeLogger,
    path: &PathBuf,
    rows: &Vec<u8>,
    process_id: u32,
    temp: String,
    header: &'static str,
)
    requires
        call_ensures(TradeLogger::new, (dir, symbol), made),
        call_ensures(trade_log::file_name, (symbol,), name),
        call_ensures(TradeLogger::path, (logger,), path),
        call_ensures(TradeLogger::pending, (logger,), rows),
        call_ensures(trade_log::temp_file_name, (process_id,), temp),
        call_ensures(trade_log::header, (), header),
    ensures
        name@ == "trades_"@ + symbol@ + ".csv"@,
        made.log_path() == trade_log::joined(dir, name@),
        made.symbol() == symbol@,
        made.rows().len() == 0,
        *path == logger.log_path(),
        rows@ == logger.rows(),
        exists|id: Seq<char>|
            temp@ == ".tmp_trades_"@ + id && #[trigger] document_laws::digits_value(id)
                == process_id,
        header@ == line_of(
            "timestamp"@,
            "symbol"@,
            "side"@,
            "price"@,
            "size"@,
            "level"@,
            "position_after"@,
            "realized_pnl"@,
            "available_capital"@,
            "portfolio_value"@,
            "simulated"@,
        ),
{
    document_laws::law_decimal_reads_back(process_id as nat);
    let fill = arbitrary::<Fill>();
    let t = arbitrary::<trade_log::FillTexts>();
    trade_log::law_header_names_every_column(Seq::empty(), Seq::empty(), Seq::empty(), fill, t);
    trade_log::lemma_line_of_eleven(trade_log::header_fields());
}

/// Nothing is done or wanted on a level.
pub open spec fn is_idle(l: SideOrderLifecycle) -> bool {
    l.status is Idle && l.pending_order_id is None && l.target_price is None && l.target_size
        is None
}

/// A level has a status and targets; the order that was pending is the same.
pub open spec fn is_noted(
    before: SideOrderLifecycle,
    after: SideOrderLifecycle,
    status: SideStatus,
    price: Option<Double>,
    size: Option<Double>,
) -> bool {
    &&& after.status == status && after.target_price == price && after.target_size == size
    &&& after.pending_order_id == before.pending_order_id
}

/// One side is as it was but for one level.
pub open spec fn only_level_changes(
    before: Seq<SideOrderLifecycle>,
    after: Seq<SideOrderLifecycle>,
    level: int,
) -> bool {
    after.len() == before.len() && forall|i: int|
        0 <= i < before.len() && i != level ==> #[trigger] after[i] == before[i]
}

/// What was noted on a level of a side, and that nothing else was.
pub open spec fn notes(
    before: OrderManager,
    after: OrderManager,
    side: Side,
    level: int,
    status: SideStatus,
    price: Option<Double>,
    size: Option<Double>,
) -> bool {
    &&& after.levels() == before.levels()
    &&& is_noted(
        before.lifecycles(side)[level],
        after.lifecycles(side)[level],
        status,
        price,
        size,
    )
    &&& only_level_changes(before.lifecycles(side), after.lifecycles(side), level)
    &&& forall|other: Side|
        other != side ==> #[trigger] after.lifecycles(other) == before.lifecycles(other)
}

/// A new manager has so many idle levels on either side; a lifecycle is read where
/// it stands. Marking notes a status with its targets and the time on one level
/// of one side, and nothing else.
pub proof fn law_marks_are_noted(
    num_levels: usize,
    made: OrderManager,
    manager: &OrderManager,
    side: Side,
    level: usize,
    read: &SideOrderLifecycle,
    marked: &mut OrderManager,
    stamped: &mut OrderManager,
    status: SideStatus,
    price: Option<Double>,
    size: Option<Double>,
    now: Instant,
)
    requires
        call_ensures(OrderManager::new, (num_levels,), made),
        level < manager.lifecycles(side).len(),
        call_ensures(OrderManager::lifecycle, (manager, side, level), read),
        level < old(marked).lifecycles(side).len(),
        call_ensures(
            OrderManager::mark_status_at,
            (marked, side, status, level, price, size, now),
            (),
        ),
        level < old(stamped).lifecycles(side).len(),
        call_ensures(OrderManager::mark_status, (stamped, side, status, level, price, size), ()),
    ensures
        made.levels() == num_levels,
        made.lifecycles(Side::Buy).len() == num_levels,
        made.lifecycles(Side::Sell).len() == num_levels,
        forall|i: int| 0 <= i < num_levels ==> is_idle(#[trigger] made.lifecycles(Side::Buy)[i]),
        forall|i: int| 0 <= i < num_levels ==> is_idle(#[trigger] made.lifecycles(Side::Sell)[i]),
        side is Buy ==> *read == manager.lifecycles(Side::Buy)[level as int],
        side is Sell ==> *read == manager.lifecycles(Side::Sell)[level as int],
        notes(*old(marked), *final(marked), side, level as int, status, price, size),
        side is Buy ==> final(marked).lifecycles(Side::Buy)[level as int].updated_at == now,
        side is Sell ==> final(marked).lifecycles(Side::Sell)[level as int].updated_at == now,
        notes(*old(stamped), *final(stamped), side, level as int, status, price, size),
{
    assert(made.lifecycles(Side::Buy).len() == num_levels);
    assert(made.lifecycles(Side::Sell).len() == num_levels);
    assert forall|i: int| 0 <= i < num_levels implies is_idle(
        #[trigger] made.lifecycles(Side::Buy)[i],
    ) by {
        assert(made.lifecycles(Side::Buy)[i] == SideOrderLifecycle::idle(
            made.lifecycles(Side::Buy)[i].updated_at,
        ));
    }
    assert forall|i: int| 0 <= i < num_levels implies is_idle(
        #[trigger] made.lifecycles(Side::Sell)[i],
    ) by {
        assert(made.lifecycles(Side::Sell)[i] == SideOrderLifecycle::idle(
            made.lifecycles(Side::Sell)[i].updated_at,
        ));
    }
}

/// A list has a value at one place, and is as it was at every other.
pub open spec fn is_set_at<T>(before: Seq<T>, after: Seq<T>, at: int, x: T) -> bool {
    &&& after.len() == before.len()
    &&& forall|i: int|
        0 <= i < before.len() ==> #[trigger] after[i] == if i == at {
            x
        } else {
            before[i]
        }
}

/// One level of one side of the orders has this order, or none, and all else is
/// as it was.
pub open spec fn is_placed(
    before: OrderState,
    after: OrderState,
    side: Side,
    level: int,
    order_id: Option<i64>,
    price: Option<Double>,
    size: Option<Double>,
) -> bool {
    &&& side is Buy ==> {
        &&& is_set_at(before.bid_order_ids@, after.bid_order_ids@, level, order_id)
        &&& is_set_at(before.bid_prices@, after.bid_prices@, level, price)
        &&& is_set_at(before.bid_sizes@, after.bid_sizes@, level, size)
        &&& after.ask_order_ids@ == before.ask_order_ids@ && after.ask_prices@ == before.ask_prices@
            && after.ask_sizes@ == before.ask_sizes@
    }
    &&& side is Sell ==> {
        &&& is_set_at(before.ask_order_ids@, after.ask_order_ids@, level, order_id)
        &&& is_set_at(before.ask_prices@, after.ask_prices@, level, price)
        &&& is_set_at(before.ask_sizes@, after.ask_sizes@, level, size)
        &&& after.bid_order_ids@ == before.bid_order_ids@ && after.bid_prices@ == before.bid_prices@
            && after.bid_sizes@ == before.bid_sizes@
    }
}

/// Every one of the lists has a level.
pub open spec fn has_both_sides(o: OrderState, m: OrderManager, level: int) -> bool {
    &&& level < m.lifecycles(Side::Buy).len() && level < m.lifecycles(Side::Sell).len()
    &&& level < o.bid_order_ids@.len() && level < o.bid_prices@.len() && level < o.bid_sizes@.len()
    &&& level < o.ask_order_ids@.len() && level < o.ask_prices@.len() && level < o.ask_sizes@.len()
}

/// Binding an order puts its id, price and size on its level of its side, which is
/// live at that price and size; clearing takes them away, and the level is idle.
/// Nothing else changes with either.
pub proof fn law_orders_are_bound_and_cleared(
    binder: &mut OrderManager,
    bound: &mut OrderState,
    clearer: &mut OrderManager,
    cleared: &mut OrderState,
    side: Side,
    order_id: i64,
    price: Double,
    size: Double,
    level: usize,
)
    requires
        has_both_sides(*old(bound), *old(binder), level as int),
        call_ensures(
            OrderManager::bind_live,
            (binder, bound, side, order_id, price, size, level),
            (),
        ),
        has_both_sides(*old(cleared), *old(clearer), level as int),
        call_ensures(OrderManager::clear_live, (clearer, cleared, side, level), ()),
    ensures
        is_placed(
            *old(bound),
            *final(bound),
            side,
            level as int,
            Some(order_id),
            Some(price),
            Some(size),
        ),
        notes(
            *old(binder),
            *final(binder),
            side,
            level as int,
            SideStatus::Live,
            Some(price),
            Some(size),
        ),
        is_placed(*old(cleared), *final(cleared), side, level as int, None, None, None),
        notes(*old(clearer), *final(clearer), side, level as int, SideStatus::Idle, None, None),
{
    let other = if side is Buy {
        Side::Sell
    } else {
        Side::Buy
    };
    assert(final(bound).orders(other) == old(bound).orders(other));
    assert(final(cleared).orders(other) == old(cleared).orders(other));
    assert(final(bound).orders(side) == old(bound).orders(side).bound(
        level as int,
        order_id,
        price,
        size,
    ));
    assert(final(cleared).orders(side) == old(cleared).orders(side).cleared(level as int));
}

/// The first `n` places of a list are empty and the rest is as it was.
pub open spec fn is_emptied<T>(before: Seq<Option<T>>, after: Seq<Option<T>>, n: int) -> bool {
    &&& after.len() == before.len()
    &&& forall|i: int|
        0 <= i < before.len() ==> #[trigger] after[i] == if i < n {
            None
        } else {
            before[i]
        }
}

/// The first `n` levels of a side are idle, without targets, and the rest is as it
/// was.
pub open spec fn is_calmed(
    before: Seq<SideOrderLifecycle>,
    after: Seq<SideOrderLifecycle>,
    n: int,
) -> bool {
    &&& after.len() == before.len()
    &&& forall|i: int|
        0 <= i < before.len() ==> if i < n {
            is_noted(before[i], #[trigger] after[i], SideStatus::Idle, None, None)
        } else {
            after[i] == before[i]
        }
}

/// Clearing everything takes the orders of all the manager's levels away, on both
/// sides, and leaves those levels idle; a new state has no orders.
pub proof fn law_everything_is_cleared(
    manager: &mut OrderManager,
    orders: &mut OrderState,
    num_levels: usize,
    made: OrderState,
)
    requires
        forall|side: Side|
            (#[trigger] old(manager).lifecycles(side)).len() >= old(manager).levels(),
        forall|side: Side, level: int|
            0 <= level < old(manager).levels() ==> #[trigger] old(orders).orders(side).has_level(
                level,
            ),
        call_ensures(OrderManager::clear_all, (manager, orders), ()),
        call_ensures(OrderState::new, (num_levels,), made),
    ensures
        ({
            let n = old(manager).levels() as int;
            &&& is_emptied(old(orders).bid_order_ids@, final(orders).bid_order_ids@, n)
            &&& is_emptied(old(orders).bid_prices@, final(orders).bid_prices@, n)
            &&& is_emptied(old(orders).bid_sizes@, final(orders).bid_sizes@, n)
            &&& is_emptied(old(orders).ask_order_ids@, final(orders).ask_order_ids@, n)
            &&& is_emptied(old(orders).ask_prices@, final(orders).ask_prices@, n)
            &&& is_emptied(old(orders).ask_sizes@, final(orders).ask_sizes@, n)
            &&& is_calmed(
                old(manager).lifecycles(Side::Buy),
                final(manager).lifecycles(Side::Buy),
                n,
            )
            &&& is_calmed(
                old(manager).lifecycles(Side::Sell),
                final(manager).lifecycles(Side::Sell),
                n,
            )
        }),
        final(manager).levels() == old(manager).levels(),
        is_vacant(made.bid_order_ids@, num_levels as int),
        is_vacant(made.ask_order_ids@, num_levels as int),
        is_vacant(made.bid_prices@, num_levels as int),
        is_vacant(made.ask_prices@, num_levels as int),
        is_vacant(made.bid_sizes@, num_levels as int),
        is_vacant(made.ask_sizes@, num_levels as int),
{
    let n = old(manager).levels();
    let was = *old(orders);
    if n > 0 {
        assert(was.orders(Side::Buy).has_level(n - 1));
        assert(was.orders(Side::Sell).has_level(n - 1));
    }
    order_manager::lemma_cleared_up_to(was.orders(Side::Buy), n);
    order_manager::lemma_cleared_up_to(was.orders(Side::Sell), n);
    assert(final(orders).orders(Side::Buy) == old(orders).orders(Side::Buy).cleared_up_to(
        old(manager).levels(),
    ));
    assert(final(orders).orders(Side::Sell) == old(orders).orders(Side::Sell).cleared_up_to(
        old(manager).levels(),
    ));
    assert(final(manager).lifecycles(Side::Buy).len() == old(manager).lifecycles(Side::Buy).len());
    assert(final(manager).lifecycles(Side::Sell).len()
        == old(manager).lifecycles(Side::Sell).len());
    let bids = final(manager).lifecycles(Side::Buy);
    let asks = final(manager).lifecycles(Side::Sell);
    assert forall|i: int| 0 <= i < bids.len() implies if i < n {
        is_noted(
            old(manager).lifecycles(Side::Buy)[i],
            #[trigger] bids[i],
            SideStatus::Idle,
            None,
            None,
        )
    } else {
        bids[i] == old(manager).lifecycles(Side::Buy)[i]
    } by {
        let l = final(manager).lifecycles(Side::Buy)[i];
        assert(l == bids[i]);
    }
    assert forall|i: int| 0 <= i < asks.len() implies if i < n {
        is_noted(
            old(manager).lifecycles(Side::Sell)[i],
            #[trigger] asks[i],
            SideStatus::Idle,
            None,
            None,
        )
    } else {
        asks[i] == old(manager).lifecycles(Side::Sell)[i]
    } by {
        let l = final(manager).lifecycles(Side::Sell)[i];
        assert(l == asks[i]);
    }
    assert(made.orders(Side::Buy) == order_manager::SideOrders::vacant(num_levels as nat));
    assert(made.orders(Side::Sell) == order_manager::SideOrders::vacant(num_levels as nat));
}

/// So many places with nothing on them.
pub open spec fn is_vacant<T>(list: Seq<Option<T>>, n: int) -> bool {
    list.len() == n && forall|i: int| 0 <= i < n ==> (#[trigger] list[i]) is None
}

/// The names of the sides; a new lifecycle is idle.
pub proof fn law_sides_are_buy_and_sell(
    side: &Side,
    short: &'static str,
    long: String,
    made: SideOrderLifecycle,
)
    requires
        call_ensures(Side::as_str, (side,), short),
        call_ensures(Side::to_string, (side,), long),
        call_ensures(SideOrderLifecycle::default, (), made),
    ensures
        side is Buy ==> short@ == "buy"@ && long@ == "buy"@,
        side is Sell ==> short@ == "sell"@ && long@ == "sell"@,
        is_idle(made),
{
}

} // verus!
