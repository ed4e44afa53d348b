//! Turns a parent execution into the balance changes of the user.
use vstd::prelude::*;
use crate::pepdex::aggregator::{ParentExecution, ParentExecutionStatus};
use crate::pepdex::order::{OrderId, ParentOrder};
use crate::pepdex::venue::VenueOrderSide;

verus! {

#[derive(Debug, Clone, Copy, PartialEq, Eq, Structural)]
pub enum SettlementStatus {
    Settled,
    PartiallySettled,
    Cancelled,
    Failed,
}

#[derive(Debug)]
pub struct SettlementResult {
    pub parent_order_id: OrderId,
    pub user: String,
    pub asset: String,
    pub quote_asset: String,
    pub asset_delta: i128,
    pub quote_delta: i128,
    pub execution_quantity: u64,
    pub execution_cost: u64,
    pub venue_fee: u64,
    pub status: SettlementStatus,
}

impl SettlementResult {
    pub fn is_successful(&self) -> (r: bool)
        ensures
            r == (self.status == SettlementStatus::Settled || self.status == SettlementStatus::PartiallySettled),
    {
        match self.status {
            SettlementStatus::Settled | SettlementStatus::PartiallySettled => true,
            _ => false,
        }
    }
}

#[derive(Debug)]
pub enum SettlementError {
    ParentOrderMismatch,
    InvalidExecutionState,
    ZeroFilledQuantity,
    InsufficientSettlementData,
}

/// Settlement status of a parent execution status; none while still running.
pub open spec fn settlement_status_of(s: ParentExecutionStatus) -> Option<SettlementStatus> {
    match s {
        ParentExecutionStatus::Filled => Some(SettlementStatus::Settled),
        ParentExecutionStatus::PartiallyFilled => Some(SettlementStatus::PartiallySettled),
        ParentExecutionStatus::Cancelled => Some(SettlementStatus::Cancelled),
        ParentExecutionStatus::Failed => Some(SettlementStatus::Failed),
        _ => None,
    }
}

/// Base-asset change: the filled quantity, received on a buy, given on a sell.
pub open spec fn asset_delta_of(side: VenueOrderSide, filled: u64) -> int {
    if side == VenueOrderSide::Buy { filled as int } else { -(filled as int) }
}

/// Quote-asset change: cost paid plus fees on a buy, cost received less fees on a sell.
pub open spec fn quote_delta_of(side: VenueOrderSide, cost: u64, fee: u64) -> int {
    if side == VenueOrderSide::Buy { -(cost as int) - fee as int } else { cost as int - fee as int }
}

pub struct SettlementEngine;

impl SettlementEngine {
    pub fn new() -> (r: Self) {
        SettlementEngine
    }

    pub fn settle(&self, parent_order: &ParentOrder, execution: &ParentExecution) -> (r: Result<SettlementResult, SettlementError>)
        ensures
            parent_order.id@ != execution.parent_order_id@ ==> r matches Err(SettlementError::ParentOrderMismatch),
            parent_order.id@ == execution.parent_order_id@ && execution.filled_quantity == 0
                ==> r matches Err(SettlementError::ZeroFilledQuantity),
            parent_order.id@ == execution.parent_order_id@ && execution.filled_quantity > 0
                && settlement_status_of(execution.status) is None
                ==> r matches Err(SettlementError::InvalidExecutionState),
            r is Ok <==> parent_order.id@ == execution.parent_order_id@ && execution.filled_quantity > 0
                && settlement_status_of(execution.status) is Some,
            r matches Ok(s) ==> {
                &&& s.parent_order_id@ == parent_order.id@
                &&& s.user@ == parent_order.user@
                &&& s.asset@ == parent_order.market.base@
                &&& s.quote_asset@ == parent_order.market.quote@
                &&& s.asset_delta == asset_delta_of(parent_order.side, execution.filled_quantity)
                &&& s.quote_delta == quote_delta_of(parent_order.side, execution.total_cost, execution.total_venue_fee)
                &&& s.execution_quantity == execution.filled_quantity
                &&& s.execution_cost == execution.total_cost
                &&& s.venue_fee == execution.total_venue_fee
                &&& Some(s.status) == settlement_status_of(execution.status)
            },
    {
        if !parent_order.id.same_as(&execution.parent_order_id) {
            return Err(SettlementError::ParentOrderMismatch);
        }
        if execution.filled_quantity == 0 {
            return Err(SettlementError::ZeroFilledQuantity);
        }
        let status = match execution.status {
            ParentExecutionStatus::Filled => SettlementStatus::Settled,
            ParentExecutionStatus::PartiallyFilled => SettlementStatus::PartiallySettled,
            ParentExecutionStatus::Cancelled => SettlementStatus::Cancelled,
            ParentExecutionStatus::Failed => SettlementStatus::Failed,
            ParentExecutionStatus::Pending | ParentExecutionStatus::Executing => {
                return Err(SettlementError::InvalidExecutionState);
            },
        };
        let filled = execution.filled_quantity as i128;
        let cost = execution.total_cost as i128;
        let fee = execution.total_venue_fee as i128;
        let (asset_delta, quote_delta) = match parent_order.side {
            VenueOrderSide::Buy => (filled, -cost - fee),
            VenueOrderSide::Sell => (-filled, cost - fee),
        };
        Ok(SettlementResult {
            parent_order_id: parent_order.id.clone(),
            user: parent_order.user.clone(),
            asset: parent_order.market.base.clone(),
            quote_asset: parent_order.market.quote.clone(),
            asset_delta,
            quote_delta,
            execution_quantity: execution.filled_quantity,
            execution_cost: execution.total_cost,
            venue_fee: execution.total_venue_fee,
            status,
        })
    }
}

impl Default for SettlementEngine {
    fn default() -> (r: Self) {
        SettlementEngine
    }
}


/// A settlement moves the filled quantity into the buyer's base balance and
/// out of the seller's; the buyer pays cost plus fees in the quote asset and
/// the seller receives cost less fees. A filled parent settles, a partially
/// filled one settles partially, and one still pending or executing does
/// not settle.
pub proof fn lemma_settlement_flows(side: VenueOrderSide, filled: u64, cost: u64, fee: u64)
    ensures
        side == VenueOrderSide::Buy ==> asset_delta_of(side, filled) == filled as int
            && quote_delta_of(side, cost, fee) == -(cost as int + fee as int),
        side == VenueOrderSide::Sell ==> asset_delta_of(side, filled) == -(filled as int)
            && quote_delta_of(side, cost, fee) == cost as int - fee as int,
        settlement_status_of(ParentExecutionStatus::Filled) == Some(SettlementStatus::Settled),
        settlement_status_of(ParentExecutionStatus::PartiallyFilled) == Some(SettlementStatus::PartiallySettled),
        settlement_status_of(ParentExecutionStatus::Cancelled) == Some(SettlementStatus::Cancelled),
        settlement_status_of(ParentExecutionStatus::Failed) == Some(SettlementStatus::Failed),
        settlement_status_of(ParentExecutionStatus::Pending) is None,
        settlement_status_of(ParentExecutionStatus::Executing) is None,
{
}

} // verus!
