//! The order manager: takes a parent order through risk, reservation, market
//! data, routing, splitting, execution, aggregation and settlement.
use vstd::prelude::*;
use crate::pepdex::aggregator::{derived_status, execution_sums_fit, AggregatorError, ExecutionAggregator, ParentExecution};
use crate::pepdex::balance::{balance_in, bkey, settlement_applied, Balance, BalanceError, BalanceLedger};
use crate::pepdex::error_text::{aggregator_error_text, balance_error_text, executor_error_text, order_manager_error_text,
    reservation_error_text, risk_error_text, router_error_text, settlement_error_text, splitter_error_text, venue_error_text};
use crate::pepdex::execution::{opt_view, status_of_venue, sum_filled, Execution};
use crate::pepdex::executor::{child_result, failures, plan_results, successes, ChildExecution, ExecutionResult, Executor, ExecutorError};
use crate::pepdex::market::Market;
use crate::pepdex::market_data::MarketDataEngine;
use crate::pepdex::order::{ExecutionPlan, ParentOrder};
use crate::pepdex::orderbook::{is_side_aggregate, side_quotes, AggregatedOrderBook};
use crate::pepdex::order_store::{has_order, managed_record, order_index, OrderStore, OrderStoreError};
use crate::pepdex::reconciliation::ReconciliationEngine;
use crate::pepdex::reservation::{finish_outcome, ReservationStatus, reservation_id_of, sat_sub_i128, ReservationError, ReservationId, ReservationManager, unlock_fits};
use crate::pepdex::risk::{pre_trade_outcome, RiskEngine, RiskError};
use crate::pepdex::router::{routed_plan, Router, RouterError};
use crate::pepdex::settlement::{settlement_status_of, SettlementEngine, SettlementError, SettlementResult, SettlementStatus};
use crate::pepdex::splitter::{effective_rules, rounded_child, split_children, split_plan, Splitter, SplitterError};
use crate::pepdex::venue::{VenueError, VenueOrderSide};

verus! {

#[derive(Debug, Clone, Copy, PartialEq, Eq, Structural)]
pub enum OrderLifecycle {
    Received,
    RiskChecked,
    Reserved,
    MarketData,
    Routed,
    Split,
    Executing,
    Aggregated,
    Settled,
    PartiallySettled,
    Failed,
}

/// A parent order while it is being processed.
#[derive(Debug)]
pub struct ManagedOrder {
    pub order: ParentOrder,
    pub lifecycle: OrderLifecycle,
    pub reservation_id: Option<ReservationId>,
    pub execution_plan: Option<ExecutionPlan>,
    pub execution_result: Option<ExecutionResult>,
    pub executions: Vec<Execution>,
    pub parent_execution: Option<ParentExecution>,
    pub settlement: Option<SettlementResult>,
}

pub open spec fn finished_lifecycle(l: OrderLifecycle) -> bool {
    l == OrderLifecycle::Settled || l == OrderLifecycle::PartiallySettled || l == OrderLifecycle::Failed
}

impl ManagedOrder {
    pub fn new(order: ParentOrder) -> (r: Self)
        ensures
            r.order == order,
            r.lifecycle == OrderLifecycle::Received,
            r.reservation_id is None,
            r.execution_plan is None,
            r.execution_result is None,
            r.executions@.len() == 0,
            r.parent_execution is None,
            r.settlement is None,
    {
        ManagedOrder {
            order,
            lifecycle: OrderLifecycle::Received,
            reservation_id: None,
            execution_plan: None,
            execution_result: None,
            executions: Vec::new(),
            parent_execution: None,
            settlement: None,
        }
    }

    pub fn is_finished(&self) -> (r: bool)
        ensures
            r == finished_lifecycle(self.lifecycle),
    {
        match self.lifecycle {
            OrderLifecycle::Settled | OrderLifecycle::PartiallySettled | OrderLifecycle::Failed => true,
            _ => false,
        }
    }
}

#[derive(Debug)]
pub enum OrderManagerError {
    Risk(RiskError),
    MarketData(VenueError),
    Routing(RouterError),
    Splitting(SplitterError),
    Execution(ExecutorError),
    Aggregation(AggregatorError),
    Settlement(SettlementError),
    Balance(BalanceError),
    Reservation(ReservationError),
    OrderStore(OrderStoreError),
    NoSuccessfulExecution,
    ReservationOverflow,
    MarketBuyRequiresMaxSpend,
    /// A balance or an execution total would leave its integer range.
    ArithmeticOverflow,
}

/// What an order reserves: its quantity of base for a sell; for a buy, quantity
/// times limit price, or the maximum spend of a market buy.
pub open spec fn reservation_amount(order: ParentOrder) -> Result<int, ()> {
    match order.side {
        VenueOrderSide::Sell => Ok(order.quantity as int),
        VenueOrderSide::Buy => match order.limit_price {
            Some(price) => Ok(order.quantity * price),
            None => match order.constraints.max_spend {
                Some(amount) => Ok(amount as int),
                None => Err(()),
            },
        },
    }
}

/// What an execution consumed of the reservation: cost plus fees (saturating) for
/// a buy, the filled quantity for a sell.
pub open spec fn consumed_amount(order: ParentOrder, execution: ParentExecution) -> int {
    match order.side {
        VenueOrderSide::Buy => if execution.total_cost + execution.total_venue_fee > u64::MAX {
            u64::MAX as int
        } else {
            execution.total_cost + execution.total_venue_fee
        },
        VenueOrderSide::Sell => execution.filled_quantity as int,
    }
}

/// The amount to reserve for an order.
pub fn calculate_reservation_amount(order: &ParentOrder) -> (r: Result<i128, OrderManagerError>)
    ensures
        reservation_amount(*order) matches Ok(a) ==> (if a > u64::MAX {
            r matches Err(OrderManagerError::ReservationOverflow)
        } else {
            r == Ok::<i128, OrderManagerError>(a as i128)
        }),
        reservation_amount(*order) is Err ==> r matches Err(OrderManagerError::MarketBuyRequiresMaxSpend),
{
    match order.side {
        VenueOrderSide::Sell => Ok(order.quantity as i128),
        VenueOrderSide::Buy => {
            if let Some(price) = order.limit_price {
                return match order.quantity.checked_mul(price) {
                    Some(amount) => Ok(amount as i128),
                    None => Err(OrderManagerError::ReservationOverflow),
                };
            }
            match order.constraints.max_spend {
                Some(amount) => Ok(amount as i128),
                None => Err(OrderManagerError::MarketBuyRequiresMaxSpend),
            }
        },
    }
}

/// The amount an execution consumed of the reservation.
pub fn calculate_consumed_amount(order: &ParentOrder, execution: &ParentExecution) -> (r: i128)
    ensures
        r == consumed_amount(*order, *execution),
{
    match order.side {
        VenueOrderSide::Buy => execution.total_cost.saturating_add(execution.total_venue_fee) as i128,
        VenueOrderSide::Sell => execution.filled_quantity as i128,
    }
}

/// The lifecycle a settlement status ends an order in.
pub open spec fn final_lifecycle(status: SettlementStatus) -> OrderLifecycle {
    match status {
        SettlementStatus::Settled => OrderLifecycle::Settled,
        SettlementStatus::PartiallySettled => OrderLifecycle::PartiallySettled,
        SettlementStatus::Cancelled | SettlementStatus::Failed => OrderLifecycle::Failed,
    }
}

/// The asset an order reserves: quote for a buy, base for a sell.
pub open spec fn reservation_asset(order: ParentOrder) -> Seq<char> {
    match order.side {
        VenueOrderSide::Buy => order.market.quote@,
        VenueOrderSide::Sell => order.market.base@,
    }
}

/// Every balance of `a` is that of `b` (an absent entry reads as zero).
pub open spec fn same_balances(a: Map<(Seq<char>, Seq<char>), Balance>, b: Map<(Seq<char>, Seq<char>), Balance>) -> bool {
    forall|k: (Seq<char>, Seq<char>)| #[trigger] balance_in(a, k) == balance_in(b, k)
}

/// The text a failed order's record carries for the error it failed with.
pub open spec fn recorded_error(e: OrderManagerError) -> Seq<char> {
    match e {
        OrderManagerError::Risk(x) => risk_error_text(x),
        OrderManagerError::MarketData(x) => venue_error_text(x),
        OrderManagerError::Routing(x) => router_error_text(x),
        OrderManagerError::Splitting(x) => splitter_error_text(x),
        OrderManagerError::Execution(x) => executor_error_text(x),
        OrderManagerError::Aggregation(x) => aggregator_error_text(x),
        OrderManagerError::Settlement(x) => settlement_error_text(x),
        OrderManagerError::Balance(x) => balance_error_text(x),
        OrderManagerError::Reservation(x) => reservation_error_text(x),
        OrderManagerError::NoSuccessfulExecution => "No successful execution"@,
        _ => order_manager_error_text(e),
    }
}

/// `e` is the execution a venue reported for one dispatched child order.
pub open spec fn reported_execution(e: Execution, c: ChildExecution) -> bool {
    &&& e.child_order_id@ == c.child_order.id@
    &&& e.parent_order_id@ == c.child_order.parent_id@
    &&& e.venue == c.venue_order.venue
    &&& e.requested_quantity == c.venue_order.requested_quantity
    &&& e.filled_quantity == c.venue_order.filled_quantity
    &&& e.average_price == c.venue_order.average_price
    &&& e.status == status_of_venue(c.venue_order.status)
}

/// `amount` of the entry `k` moved from available to locked.
pub open spec fn locked_in(l: Map<(Seq<char>, Seq<char>), Balance>, k: (Seq<char>, Seq<char>), amount: int) -> Map<(Seq<char>, Seq<char>), Balance> {
    l.insert(k, Balance { available: (balance_in(l, k).available - amount) as i128, locked: (balance_in(l, k).locked + amount) as i128 })
}

/// `amount` of the entry `k` moved back from locked to available (nothing when not positive).
pub open spec fn unlocked_in(l: Map<(Seq<char>, Seq<char>), Balance>, k: (Seq<char>, Seq<char>), amount: int) -> Map<(Seq<char>, Seq<char>), Balance> {
    if amount > 0 {
        l.insert(k, Balance { available: (balance_in(l, k).available + amount) as i128, locked: (balance_in(l, k).locked - amount) as i128 })
    } else {
        l
    }
}

/// Whether releasing the reservation `id` keeps the owner's available balance
/// in range (true when there is no such reservation).
pub open spec fn release_in_range(reservations: ReservationManager, id: Seq<char>) -> bool {
    reservations.view().contains_key(id) ==> ({
        let v = reservations.view()[id];
        let s = balance_in(reservations.ledger().view(), bkey(v.2, v.3)).available + sat_sub_i128(v.4, v.5);
        i128::MIN <= s <= i128::MAX
    })
}

/// Right after a reservation of `amount` (> 0) is taken, releasing it stays in range.
proof fn lemma_fresh_release_in_range(l0: Map<(Seq<char>, Seq<char>), Balance>, res: ReservationManager, id: Seq<char>)
    requires
        res.view().contains_key(id),
        res.view()[id].4 > 0,
        res.view()[id].5 == 0,
        balance_in(l0, bkey(res.view()[id].2, res.view()[id].3)).available >= res.view()[id].4,
        res.ledger().view() == locked_in(l0, bkey(res.view()[id].2, res.view()[id].3), res.view()[id].4 as int),
    ensures
        release_in_range(res, id),
{
}

/// Releasing a reservation right after it was taken gives every balance back.
proof fn lemma_fresh_release_restores(l0: Map<(Seq<char>, Seq<char>), Balance>, res: ReservationManager,
    after: ReservationManager, id: Seq<char>, r: Result<i128, ReservationError>)
    requires
        res.view().contains_key(id),
        res.view()[id].4 > 0,
        res.view()[id].5 == 0,
        res.view()[id].6 == ReservationStatus::Active,
        balance_in(l0, bkey(res.view()[id].2, res.view()[id].3)).available >= res.view()[id].4,
        balance_in(l0, bkey(res.view()[id].2, res.view()[id].3)).locked + res.view()[id].4 <= i128::MAX,
        balance_in(l0, bkey(res.view()[id].2, res.view()[id].3)).locked >= 0,
        res.ledger().view() == locked_in(l0, bkey(res.view()[id].2, res.view()[id].3), res.view()[id].4 as int),
        finish_outcome(res.view(), res.ledger(), after.view(), after.ledger(), id, false, r),
    ensures
        same_balances(after.ledger().view(), l0),
        after.view().contains_key(id),
        after.view()[id].6 == ReservationStatus::Released,
{
    let v = res.view()[id];
    let k = bkey(v.2, v.3);
    let b0 = balance_in(l0, k);
    let b = balance_in(res.ledger().view(), k);
    assert(b.available == b0.available - v.4);
    assert(b.locked == b0.locked + v.4);
    assert(sat_sub_i128(v.4, v.5) == v.4);
    assert(!(v.6 == ReservationStatus::Released || v.6 == ReservationStatus::Cancelled));
    assert(!(b.locked < v.4));
    assert(after.ledger().view() == res.ledger().view().insert(k,
        Balance { available: (b.available + v.4) as i128, locked: (b.locked - v.4) as i128 }));
    assert forall|q: (Seq<char>, Seq<char>)| #[trigger] balance_in(after.ledger().view(), q) == balance_in(l0, q) by {
        if q == k {
            assert(balance_in(after.ledger().view(), q) == Balance { available: b0.available, locked: b0.locked });
        } else {
            assert(balance_in(res.ledger().view(), q) == balance_in(l0, q));
        }
    }
}

/// Runs parent orders through every stage, recording each stage in the order store.
pub struct OrderManager {
    pub market_data: MarketDataEngine,
    pub risk: RiskEngine,
    pub router: Router,
    pub splitter: Splitter,
    pub executor: Executor,
    pub aggregator: ExecutionAggregator,
    pub settlement: SettlementEngine,
    /// The reservations, over the balance ledger they own.
    pub reservations: ReservationManager,
    pub orders: OrderStore,
    pub reconciliation: ReconciliationEngine,
}

impl OrderManager {
    pub open spec fn wf(&self) -> bool {
        self.market_data.wf() && self.reservations.wf() && self.orders.wf()
    }

    /// The stored record of the order with this id.
    pub open spec fn record_of(&self, id: Seq<char>) -> crate::pepdex::order_store::StoredOrder {
        self.orders.records()[order_index(self.orders.records(), id)]
    }

    pub fn new(
        market_data: MarketDataEngine,
        router: Router,
        splitter: Splitter,
        executor: Executor,
        balances: BalanceLedger,
        orders: OrderStore,
    ) -> (r: Self)
        requires
            market_data.wf(),
            balances.wf(),
            orders.wf(),
        ensures
            r.wf(),
            r.market_data == market_data,
            r.router == router,
            r.splitter == splitter,
            r.executor == executor,
            r.orders == orders,
            r.reservations.ledger() == balances,
            r.reservations.view() == Map::<Seq<char>, crate::pepdex::reservation::ReservationView>::empty(),
    {
        OrderManager {
            market_data,
            risk: RiskEngine::new(),
            router,
            splitter,
            executor,
            aggregator: ExecutionAggregator::new(),
            settlement: SettlementEngine::new(),
            reservations: ReservationManager::new(balances),
            orders,
            reconciliation: ReconciliationEngine::new(),
        }
    }

    /// The ledger the reservations are made on.
    pub fn balances(&self) -> (r: &BalanceLedger)
        ensures
            *r == self.reservations.ledger(),
    {
        self.reservations.balances()
    }

    fn persist(&mut self, managed: &ManagedOrder) -> (r: Result<(), OrderManagerError>)
        requires
            old(self).wf(),
        ensures
            old(self).orders.infallible() ==> r is Ok,
            final(self).orders.infallible() == old(self).orders.infallible(),
            final(self).wf(),
            final(self).reservations == old(self).reservations,
            final(self).market_data == old(self).market_data,
            final(self).splitter == old(self).splitter,
            r is Err ==> r matches Err(OrderManagerError::OrderStore(_)),
            r is Ok ==> has_order(final(self).orders.records(), managed.order.id@)
                && managed_record(final(self).record_of(managed.order.id@), *managed),
    {
        match self.orders.save_managed(managed) {
            Ok(()) => Ok(()),
            Err(e) => Err(OrderManagerError::OrderStore(e)),
        }
    }

    /// Saves the order, then records the error against it.
    fn persist_error(&mut self, managed: &ManagedOrder, error: &str) -> (r: Result<(), OrderManagerError>)
        requires
            old(self).wf(),
        ensures
            old(self).orders.infallible() ==> r is Ok,
            final(self).orders.infallible() == old(self).orders.infallible(),
            final(self).wf(),
            final(self).reservations == old(self).reservations,
            final(self).market_data == old(self).market_data,
            final(self).splitter == old(self).splitter,
            r is Err ==> r matches Err(OrderManagerError::OrderStore(_)),
            r is Ok ==> has_order(final(self).orders.records(), managed.order.id@)
                && opt_view(final(self).record_of(managed.order.id@).last_error) == Some(error@),
            old(self).orders.infallible() ==> final(self).record_of(managed.order.id@).lifecycle == managed.lifecycle,
    {
        let _ = self.orders.save_managed(managed);
        let ghost saved = self.orders.records();
        match self.orders.set_error(&managed.order.id, error) {
            Ok(()) => Ok(()),
            Err(e) => Err(OrderManagerError::OrderStore(e)),
        }
    }

    /// Whether releasing the reservation keeps the balance in range.
    fn release_fits(&self, id: &ReservationId) -> (r: bool)
        requires
            self.reservations.wf(),
        ensures
            r ==> (self.reservations.view().contains_key(id@)
                ==> unlock_fits(self.reservations.view()[id@], self.reservations.ledger())),
            r == release_in_range(self.reservations, id@),
    {
        match self.reservations.get(id) {
            None => true,
            Some(res) => {
                let remaining = res.remaining();
                let b = self.reservations.balances().get(res.user.as_str(), res.asset.as_str());
                b.available.checked_add(remaining).is_some()
            },
        }
    }

    /// Gives back the unused part of the order's reservation, if any; a failure is ignored.
    fn release_reservation(&mut self, managed: &ManagedOrder)
        requires
            old(self).wf(),
        ensures
            final(self).wf(),
            final(self).market_data == old(self).market_data,
            final(self).splitter == old(self).splitter,
            final(self).orders == old(self).orders,
            match managed.reservation_id {
                Some(id) => if release_in_range(old(self).reservations, id@) {
                    exists|r: Result<i128, ReservationError>| finish_outcome(old(self).reservations.view(),
                        old(self).reservations.ledger(), final(self).reservations.view(), final(self).reservations.ledger(), id@, false, r)
                } else {
                    final(self).reservations == old(self).reservations
                },
                None => final(self).reservations == old(self).reservations,
            },
    {
        if let Some(id) = &managed.reservation_id {
            if self.release_fits(id) {
                let _ = self.reservations.release(id);
            }
        }
    }

    /// Marks the order failed and records why.
    fn fail(&mut self, managed: &mut ManagedOrder, why: &str) -> (r: Result<(), OrderManagerError>)
        requires
            old(self).wf(),
        ensures
            old(self).orders.infallible() ==> r is Ok,
            final(self).orders.infallible() == old(self).orders.infallible(),
            final(self).wf(),
            final(self).reservations == old(self).reservations,
            final(self).market_data == old(self).market_data,
            final(self).splitter == old(self).splitter,
            final(managed).lifecycle == OrderLifecycle::Failed,
            final(managed).order == old(managed).order,
            r is Err ==> r matches Err(OrderManagerError::OrderStore(_)),
            r is Ok ==> has_order(final(self).orders.records(), old(managed).order.id@)
                && opt_view(final(self).record_of(old(managed).order.id@).last_error) == Some(why@),
            old(self).orders.infallible() ==> final(self).record_of(old(managed).order.id@).lifecycle == OrderLifecycle::Failed,
    {
        managed.lifecycle = OrderLifecycle::Failed;
        self.persist_error(managed, why)
    }

    /// Takes a parent order through risk check, reservation, market data, routing,
    /// splitting, execution, aggregation, the final risk check, consumption of the
    /// reservation, settlement, the balance update and the release of what is left
    /// reserved; every stage is recorded in the order store.
    #[verifier::spinoff_prover]
    #[verifier::rlimit(60)]
    pub fn process(&mut self, order: ParentOrder, market: &Market) -> (r: Result<ManagedOrder, OrderManagerError>)
        requires
            old(self).wf(),
        ensures
            old(self).orders.infallible() ==> !(r matches Err(OrderManagerError::OrderStore(_))),
            final(self).wf(),
            pre_trade_outcome(order.quantity, order.side, order.limit_price, order.constraints) is Err
                ==> (r matches Err(OrderManagerError::Risk(_)) || r matches Err(OrderManagerError::OrderStore(_))),
            pre_trade_outcome(order.quantity, order.side, order.limit_price, order.constraints) is Err
                ==> final(self).reservations == old(self).reservations,
            r matches Ok(m) ==> {
                &&& m.order == order
                &&& m.reservation_id matches Some(id) && id@ == reservation_id_of(order.id@)
                &&& m.settlement matches Some(s) && m.lifecycle == final_lifecycle(s.status)
                &&& m.executions@.len() > 0
                &&& m.parent_execution is Some
                &&& m.parent_execution->0.requested_quantity == order.quantity
                &&& m.parent_execution->0.filled_quantity == sum_filled(m.executions@)
                &&& m.parent_execution->0.remaining_quantity == (if sum_filled(m.executions@) <= order.quantity {
                        order.quantity - sum_filled(m.executions@) } else { 0 })
                &&& m.parent_execution->0.status == derived_status(sum_filled(m.executions@), order.quantity as nat, m.executions@)
                &&& Some(m.settlement->0.status) == settlement_status_of(m.parent_execution->0.status)
                &&& m.execution_plan is Some
                &&& m.execution_plan->0.parent_order_id@ == order.id@
                &&& m.execution_plan->0.children@.len() > 0
                &&& m.execution_result matches Some(er) && m.executions@.len() == er.executions@.len()
                &&& forall|k: int| 0 <= k < m.executions@.len()
                    ==> reported_execution(#[trigger] m.executions@[k], m.execution_result->0.executions@[k])
                &&& exists|outs: Seq<Result<ChildExecution, ExecutorError>>|
                    plan_results(m.execution_plan->0.children@, outs)
                    && #[trigger] successes(outs) == m.execution_result->0.executions@
                &&& exists|book: AggregatedOrderBook, routed: ExecutionPlan| {
                    &&& is_side_aggregate(side_quotes(final(self).market_data.books(), true), true, book.bids@)
                    &&& is_side_aggregate(side_quotes(final(self).market_data.books(), false), false, book.asks@)
                    &&& routed_plan(routed, order, book)
                    &&& split_plan(m.execution_plan->0, routed, effective_rules(old(self).splitter.default_rules, *market))
                }
                &&& has_order(final(self).orders.records(), order.id@)
                &&& managed_record(final(self).record_of(order.id@), m)
                &&& final(self).reservations.ledger().view() == unlocked_in(
                        settlement_applied(
                            locked_in(old(self).reservations.ledger().view(), bkey(order.user@, reservation_asset(order)),
                                reservation_amount(order)->Ok_0),
                            m.settlement->0),
                        bkey(order.user@, reservation_asset(order)),
                        reservation_amount(order)->Ok_0 - consumed_amount(order, m.parent_execution->0))
                &&& final(self).reservations.view().contains_key(reservation_id_of(order.id@))
                &&& final(self).reservations.view()[reservation_id_of(order.id@)].6 == ReservationStatus::Released
            },
            pre_trade_outcome(order.quantity, order.side, order.limit_price, order.constraints) is Err
                ==> (r matches Err(OrderManagerError::Risk(e)) ==> Err::<(), RiskError>(e)
                    == pre_trade_outcome(order.quantity, order.side, order.limit_price, order.constraints)),
            pre_trade_outcome(order.quantity, order.side, order.limit_price, order.constraints) is Ok
                ==> (r matches Err(OrderManagerError::Risk(e)) ==> (e is ExecutionExceededMaxSpend
                    || e is InvalidReferencePrice || e is SlippageExceeded)),
            (pre_trade_outcome(order.quantity, order.side, order.limit_price, order.constraints) is Ok
                && reservation_amount(order) is Ok && 0 < reservation_amount(order)->Ok_0 <= u64::MAX
                && balance_in(old(self).reservations.ledger().view(), bkey(order.user@, reservation_asset(order))).available
                    >= reservation_amount(order)->Ok_0
                && balance_in(old(self).reservations.ledger().view(), bkey(order.user@, reservation_asset(order))).locked
                    + reservation_amount(order)->Ok_0 <= i128::MAX)
                ==> !(r matches Err(OrderManagerError::MarketBuyRequiresMaxSpend))
                    && !(r matches Err(OrderManagerError::ReservationOverflow))
                    && !(r matches Err(OrderManagerError::Reservation(ReservationError::Balance(BalanceError::InsufficientAvailable { .. })))),
            (pre_trade_outcome(order.quantity, order.side, order.limit_price, order.constraints) is Ok
                && reservation_amount(order) is Ok && 0 < reservation_amount(order)->Ok_0 <= u64::MAX
                && balance_in(old(self).reservations.ledger().view(), bkey(order.user@, reservation_asset(order))).available
                    >= reservation_amount(order)->Ok_0
                && balance_in(old(self).reservations.ledger().view(), bkey(order.user@, reservation_asset(order))).locked
                    + reservation_amount(order)->Ok_0 <= i128::MAX
                && old(self).market_data.venue_total() == 0 && old(self).orders.infallible())
                ==> (r matches Err(OrderManagerError::MarketData(VenueError::Internal(m)))
                    && m@ == "No market-data venues configured"@),
            (r matches Err(OrderManagerError::MarketBuyRequiresMaxSpend) || r matches Err(OrderManagerError::ReservationOverflow))
                ==> final(self).reservations == old(self).reservations,
            r matches Err(OrderManagerError::Reservation(ReservationError::Balance(BalanceError::InsufficientAvailable { .. })))
                ==> same_balances(final(self).reservations.ledger().view(), old(self).reservations.ledger().view())
                    && final(self).reservations.view() == old(self).reservations.view(),
            (r matches Err(OrderManagerError::MarketData(_)) || r matches Err(OrderManagerError::Routing(_))
                || r matches Err(OrderManagerError::Splitting(_)) || r matches Err(OrderManagerError::NoSuccessfulExecution))
                ==> same_balances(final(self).reservations.ledger().view(), old(self).reservations.ledger().view())
                    && final(self).reservations.view().contains_key(reservation_id_of(order.id@))
                    && final(self).reservations.view()[reservation_id_of(order.id@)].6 == ReservationStatus::Released,
            (r matches Err(OrderManagerError::Execution(_)) || r matches Err(OrderManagerError::Aggregation(_))) ==> {
                &&& final(self).reservations.ledger().view() == locked_in(old(self).reservations.ledger().view(),
                        bkey(order.user@, reservation_asset(order)), reservation_amount(order)->Ok_0)
                &&& final(self).reservations.view().contains_key(reservation_id_of(order.id@))
                &&& final(self).reservations.view()[reservation_id_of(order.id@)].6 == ReservationStatus::Active
            },
            old(self).orders.infallible() && r is Err ==> final(self).record_of(order.id@).lifecycle == OrderLifecycle::Failed,
            old(self).orders.infallible() ==> (r matches Err(e)
                ==> opt_view(final(self).record_of(order.id@).last_error) == Some(recorded_error(e))),
            r matches Ok(m) ==> m.parent_execution->0.filled_quantity > 0
                && (m.lifecycle == OrderLifecycle::Settled || m.lifecycle == OrderLifecycle::PartiallySettled),
            r is Err && !(r matches Err(OrderManagerError::OrderStore(_))) ==> {
                &&& has_order(final(self).orders.records(), order.id@)
                &&& final(self).record_of(order.id@).last_error is Some
            },
    {
        let mut managed = ManagedOrder::new(order);
        self.persist(&managed)?;

        // Risk check.
        if let Err(error) = self.risk.validate(&managed.order, &managed.order.constraints) {
            let text = error.text();
            self.fail(&mut managed, text.as_str())?;
            return Err(OrderManagerError::Risk(error));
        }
        managed.lifecycle = OrderLifecycle::RiskChecked;
        self.persist(&managed)?;

        // Reservation.
        let asset = match managed.order.side {
            VenueOrderSide::Buy => managed.order.market.quote.clone(),
            VenueOrderSide::Sell => managed.order.market.base.clone(),
        };
        let amount = match calculate_reservation_amount(&managed.order) {
            Ok(a) => a,
            Err(error) => {
                let text = error.text();
                self.fail(&mut managed, text.as_str())?;
                return Err(error);
            },
        };
        if amount > 0 {
            let b = self.reservations.balances().get(managed.order.user.as_str(), asset.as_str());
            if b.locked.checked_add(amount).is_none() {
                self.fail(&mut managed, "ArithmeticOverflow")?;
                return Err(OrderManagerError::ArithmeticOverflow);
            }
        }
        let reservation_id = match self.reservations.reserve(&managed.order, asset.as_str(), amount) {
            Ok(id) => id,
            Err(error) => {
                let text = error.text();
                self.fail(&mut managed, text.as_str())?;
                return Err(OrderManagerError::Reservation(error));
            },
        };
        let ghost reserved = self.reservations;
        let ghost rid = reservation_id_of(order.id@);
        proof {
            old(self).reservations.lemma_ledger_wf();
            old(self).reservations.ledger().lemma_nonnegative(bkey(order.user@, asset@));
            assert(reserved.view()[rid].2 == order.user@);
            assert(reserved.view()[rid].3 == asset@);
        }
        managed.reservation_id = Some(reservation_id);
        managed.lifecycle = OrderLifecycle::Reserved;
        self.persist(&managed)?;

        // Market data.
        managed.lifecycle = OrderLifecycle::MarketData;
        self.persist(&managed)?;
        let book = match self.market_data.snapshot(&managed.order.market) {
            Ok(book) => book,
            Err(error) => {
                proof {
                    lemma_fresh_release_in_range(old(self).reservations.ledger().view(), reserved, rid);
                }
                self.release_reservation(&managed);
                proof {
                    let rr = choose|rr: Result<i128, ReservationError>| finish_outcome(reserved.view(),
                        reserved.ledger(), self.reservations.view(), self.reservations.ledger(), rid, false, rr);
                    lemma_fresh_release_restores(old(self).reservations.ledger().view(), reserved, self.reservations, rid, rr);
                }
                let text = error.text();
                self.fail(&mut managed, text.as_str())?;
                return Err(OrderManagerError::MarketData(error));
            },
        };

        let ghost book_g = book;
        // Routing.
        let plan = match self.router.route(&managed.order, &book) {
            Ok(plan) => plan,
            Err(error) => {
                proof {
                    lemma_fresh_release_in_range(old(self).reservations.ledger().view(), reserved, rid);
                }
                self.release_reservation(&managed);
                proof {
                    let rr = choose|rr: Result<i128, ReservationError>| finish_outcome(reserved.view(),
                        reserved.ledger(), self.reservations.view(), self.reservations.ledger(), rid, false, rr);
                    lemma_fresh_release_restores(old(self).reservations.ledger().view(), reserved, self.reservations, rid, rr);
                }
                let text = error.text();
                self.fail(&mut managed, text.as_str())?;
                return Err(OrderManagerError::Routing(error));
            },
        };
        managed.lifecycle = OrderLifecycle::Routed;
        self.persist(&managed)?;

        let ghost routed = plan;
        // Splitting.
        let plan = match self.splitter.split(&plan, market) {
            Ok(plan) => plan,
            Err(error) => {
                proof {
                    lemma_fresh_release_in_range(old(self).reservations.ledger().view(), reserved, rid);
                }
                self.release_reservation(&managed);
                proof {
                    let rr = choose|rr: Result<i128, ReservationError>| finish_outcome(reserved.view(),
                        reserved.ledger(), self.reservations.view(), self.reservations.ledger(), rid, false, rr);
                    lemma_fresh_release_restores(old(self).reservations.ledger().view(), reserved, self.reservations, rid, rr);
                }
                let text = error.text();
                self.fail(&mut managed, text.as_str())?;
                return Err(OrderManagerError::Splitting(error));
            },
        };
        managed.execution_plan = Some(plan.clone());
        proof {
            let rules = effective_rules(old(self).splitter.default_rules, *market);
            let kept = managed.execution_plan->0;
            let cs = split_children(routed.children@, rules)->0;
            assert(split_plan(plan, routed, rules));
            assert forall|i: int| 0 <= i < cs.len() implies rounded_child(#[trigger] kept.children@[i], cs[i].0, cs[i].1) by {
                assert(kept.children@[i].same(plan.children@[i]));
                assert(rounded_child(plan.children@[i], cs[i].0, cs[i].1));
            }
            assert(split_plan(kept, routed, rules));
        }
        managed.lifecycle = OrderLifecycle::Split;
        self.persist(&managed)?;

        // Execution.
        managed.lifecycle = OrderLifecycle::Executing;
        self.persist(&managed)?;
        let execution_result = match self.executor.execute(&plan) {
            Ok(result) => result,
            Err(error) => {
                let text = error.text();
                self.fail(&mut managed, text.as_str())?;
                return Err(OrderManagerError::Execution(error));
            },
        };
        let ghost outs_g = choose|outs: Seq<Result<ChildExecution, ExecutorError>>| {
            &&& plan_results(plan.children@, outs)
            &&& execution_result.parent_order_id@ == plan.parent_order_id@
            &&& execution_result.executions@ == successes(outs)
            &&& #[trigger] failures(outs) == execution_result.errors@
            &&& (successes(outs).len() > 0 || failures(outs).len() == 0)
        };
        proof {
            let kept = managed.execution_plan->0;
            assert forall|k: int| 0 <= k < outs_g.len() implies child_result(kept.children@[k], #[trigger] outs_g[k]) by {
                assert(child_result(plan.children@[k], outs_g[k]));
                assert(kept.children@[k].same(plan.children@[k]));
            }
            assert(plan_results(kept.children@, outs_g));
        }
        let mut executions: Vec<Execution> = Vec::new();
        let mut i: usize = 0;
        while i < execution_result.executions.len()
            invariant
                i <= execution_result.executions@.len(),
                executions@.len() == i,
                forall|k: int| 0 <= k < i ==> reported_execution(#[trigger] executions@[k], execution_result.executions@[k]),
            decreases execution_result.executions@.len() - i,
        {
            let child_execution = &execution_result.executions[i];
            let execution = Execution::from_venue_order(&child_execution.child_order, &child_execution.venue_order);
            executions.push(execution);
            i += 1;
        }
        managed.execution_result = Some(execution_result);
        managed.executions = executions;
        self.persist(&managed)?;
        if managed.executions.len() == 0 {
            proof {
                lemma_fresh_release_in_range(old(self).reservations.ledger().view(), reserved, rid);
            }
            self.release_reservation(&managed);
            proof {
                let rr = choose|rr: Result<i128, ReservationError>| finish_outcome(reserved.view(),
                    reserved.ledger(), self.reservations.view(), self.reservations.ledger(), rid, false, rr);
                lemma_fresh_release_restores(old(self).reservations.ledger().view(), reserved, self.reservations, rid, rr);
            }
            self.fail(&mut managed, "No successful execution")?;
            return Err(OrderManagerError::NoSuccessfulExecution);
        }

        // Aggregation.
        if !execution_sums_fit(managed.executions.as_slice()) {
            self.fail(&mut managed, "ArithmeticOverflow")?;
            return Err(OrderManagerError::ArithmeticOverflow);
        }
        let parent_execution = match self.aggregator.aggregate(&managed.order, managed.executions.as_slice()) {
            Ok(execution) => execution,
            Err(error) => {
                let text = error.text();
                self.fail(&mut managed, text.as_str())?;
                return Err(OrderManagerError::Aggregation(error));
            },
        };
        let total_cost = parent_execution.total_cost;
        let total_fee = parent_execution.total_venue_fee;
        let consumed = calculate_consumed_amount(&managed.order, &parent_execution);
        let settled = self.settlement.settle(&managed.order, &parent_execution);
        managed.parent_execution = Some(parent_execution);
        managed.lifecycle = OrderLifecycle::Aggregated;
        self.persist(&managed)?;

        // Final risk check.
        let reference_price = if managed.order.constraints.max_slippage_bps.is_some() {
            match self.risk.reference_price(&managed.order, &self.market_data) {
                Ok(p) => Some(p),
                Err(_) => None,
            }
        } else {
            None
        };
        if let Err(error) = self.risk.validate_execution_cost(
            &managed.order,
            &managed.order.constraints,
            total_cost.saturating_add(total_fee),
            reference_price,
        ) {
            let text = error.text();
            self.fail(&mut managed, text.as_str())?;
            return Err(OrderManagerError::Risk(error));
        }

        // Consumption of the reservation.
        let rid = match &managed.reservation_id {
            Some(id) => id.clone(),
            None => {
                self.fail(&mut managed, "reservation missing")?;
                return Err(OrderManagerError::Reservation(ReservationError::NotFound));
            },
        };
        if let Err(error) = self.reservations.consume(&rid, consumed) {
            let text = error.text();
            self.fail(&mut managed, text.as_str())?;
            return Err(OrderManagerError::Reservation(error));
        }

        // Settlement.
        let settlement = match settled {
            Ok(result) => result,
            Err(error) => {
                let text = error.text();
                self.fail(&mut managed, text.as_str())?;
                return Err(OrderManagerError::Settlement(error));
            },
        };

        // Balance update.
        if let Err(error) = self.reservations.apply_settlement(&settlement) {
            let text = error.text();
            self.fail(&mut managed, text.as_str())?;
            return Err(OrderManagerError::Balance(error));
        }

        // Release of what is left reserved.
        if !self.release_fits(&rid) {
            self.fail(&mut managed, "ArithmeticOverflow")?;
            return Err(OrderManagerError::ArithmeticOverflow);
        }
        if let Err(error) = self.reservations.release(&rid) {
            let text = error.text();
            self.fail(&mut managed, text.as_str())?;
            return Err(OrderManagerError::Reservation(error));
        }

        managed.lifecycle = match settlement.status {
            SettlementStatus::Settled => OrderLifecycle::Settled,
            SettlementStatus::PartiallySettled => OrderLifecycle::PartiallySettled,
            SettlementStatus::Cancelled | SettlementStatus::Failed => OrderLifecycle::Failed,
        };
        managed.settlement = Some(settlement);
        self.persist(&managed)?;
        proof {
            assert(split_plan(managed.execution_plan->0, routed, effective_rules(old(self).splitter.default_rules, *market)));
            assert(routed_plan(routed, order, book_g));
        }
        Ok(managed)
    }
}


/// What an order reserves: a sell its quantity of the base asset; a limit buy
/// its quantity times its limit price of the quote asset; a market buy its
/// spending cap, and without one it cannot reserve.
pub proof fn lemma_reservation_amounts(order: ParentOrder)
    ensures
        order.side == VenueOrderSide::Sell ==> reservation_amount(order) == Ok::<int, ()>(order.quantity as int)
            && reservation_asset(order) == order.market.base@,
        order.side == VenueOrderSide::Buy ==> reservation_asset(order) == order.market.quote@,
        order.side == VenueOrderSide::Buy && order.limit_price is Some
            ==> reservation_amount(order) == Ok::<int, ()>(order.quantity * order.limit_price->0),
        order.side == VenueOrderSide::Buy && order.limit_price is None && order.constraints.max_spend is Some
            ==> reservation_amount(order) == Ok::<int, ()>(order.constraints.max_spend->0 as int),
        order.side == VenueOrderSide::Buy && order.limit_price is None && order.constraints.max_spend is None
            ==> reservation_amount(order) is Err,
{
}

} // verus!
