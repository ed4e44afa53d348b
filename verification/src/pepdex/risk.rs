//! Pre-trade and post-trade limits of a parent order.
use vstd::prelude::*;
use crate::pepdex::order::ParentOrder;
use crate::pepdex::orderbook::{AggregatedOrderBook, is_side_aggregate, lemma_best_level_is_extreme, price_quoted, side_quotes, totals_fit};
use crate::pepdex::market_data::MarketDataEngine;
use crate::pepdex::venue::VenueOrderSide;

verus! {

#[derive(Debug, Clone, Copy, PartialEq, Eq, Structural)]
pub struct OrderConstraints {
    /// Maximum quote asset the user is willing to spend.
    pub max_spend: Option<u64>,
    /// Maximum acceptable slippage in basis points (100 bps = 1%).
    pub max_slippage_bps: Option<u64>,
    /// Maximum quantity the user is willing to trade.
    pub max_quantity: Option<u64>,
}

impl Default for OrderConstraints {
    fn default() -> (r: Self)
        ensures
            r.max_spend is None,
            r.max_slippage_bps is None,
            r.max_quantity is None,
    {
        OrderConstraints { max_spend: None, max_slippage_bps: None, max_quantity: None }
    }
}

impl OrderConstraints {
    pub fn new() -> (r: Self)
        ensures
            r.max_spend is None,
            r.max_slippage_bps is None,
            r.max_quantity is None,
    {
        OrderConstraints { max_spend: None, max_slippage_bps: None, max_quantity: None }
    }

    pub fn with_max_spend(self, amount: u64) -> (r: Self)
        ensures
            r == (OrderConstraints { max_spend: Some(amount), ..self }),
    {
        OrderConstraints { max_spend: Some(amount), ..self }
    }

    pub fn with_max_slippage_bps(self, bps: u64) -> (r: Self)
        ensures
            r == (OrderConstraints { max_slippage_bps: Some(bps), ..self }),
    {
        OrderConstraints { max_slippage_bps: Some(bps), ..self }
    }

    pub fn with_max_quantity(self, quantity: u64) -> (r: Self)
        ensures
            r == (OrderConstraints { max_quantity: Some(quantity), ..self }),
    {
        OrderConstraints { max_quantity: Some(quantity), ..self }
    }
}

#[derive(Debug, Clone, Copy)]
pub struct RiskContext {
    pub constraints: OrderConstraints,
    /// Reference price obtained from the current aggregated market data.
    pub reference_price: Option<u64>,
}

impl RiskContext {
    pub fn new(constraints: OrderConstraints) -> (r: Self)
        ensures
            r.constraints == constraints,
            r.reference_price is None,
    {
        RiskContext { constraints, reference_price: None }
    }
}

#[derive(Debug)]
pub enum RiskError {
    ZeroQuantity,
    QuantityLimitExceeded { requested: u64, maximum: u64 },
    MaxSpendExceeded { estimated: u64, maximum: u64 },
    ExecutionExceededMaxSpend { actual: u64, maximum: u64 },
    MarketBuyRequiresConstraint,
    InvalidSlippage,
    SlippageExceeded { reference_price: u64, execution_price: u64, maximum_price: u64 },
    InvalidReferencePrice,
    NoMarketData,
    ArithmeticOverflow,
}

/// The outcome of the pre-trade check, in the order the checks run.
pub open spec fn pre_trade_outcome(quantity: u64, side: VenueOrderSide, limit_price: Option<u64>, c: OrderConstraints) -> Result<(), RiskError> {
    if quantity == 0 {
        Err(RiskError::ZeroQuantity)
    } else if c.max_quantity is Some && quantity > c.max_quantity->0 {
        Err(RiskError::QuantityLimitExceeded { requested: quantity, maximum: c.max_quantity->0 })
    } else if side == VenueOrderSide::Buy && limit_price is Some && quantity * limit_price->0 > u64::MAX {
        Err(RiskError::ArithmeticOverflow)
    } else if side == VenueOrderSide::Buy && limit_price is Some && c.max_spend is Some
        && quantity * limit_price->0 > c.max_spend->0 {
        Err(RiskError::MaxSpendExceeded { estimated: (quantity * limit_price->0) as u64, maximum: c.max_spend->0 })
    } else if side == VenueOrderSide::Buy && limit_price is None && c.max_spend is None && c.max_slippage_bps is None {
        Err(RiskError::MarketBuyRequiresConstraint)
    } else if c.max_slippage_bps is Some && c.max_slippage_bps->0 > 10_000 {
        Err(RiskError::InvalidSlippage)
    } else {
        Ok(())
    }
}

/// Highest execution price that the slippage limit allows around a reference price.
pub open spec fn maximum_price(reference: u64, bps: u64) -> int {
    let factor = if 10_000 + bps > u64::MAX { u64::MAX as int } else { 10_000 + bps };
    let product = if reference * factor > u64::MAX { u64::MAX as int } else { reference * factor };
    product / 10_000
}

/// The outcome of the post-trade check on the actual execution cost.
pub open spec fn post_trade_outcome(side: VenueOrderSide, quantity: u64, c: OrderConstraints, actual_cost: u64, reference_price: Option<u64>) -> Result<(), RiskError> {
    if side != VenueOrderSide::Buy {
        Ok(())
    } else if c.max_spend is Some && actual_cost > c.max_spend->0 {
        Err(RiskError::ExecutionExceededMaxSpend { actual: actual_cost, maximum: c.max_spend->0 })
    } else if c.max_slippage_bps is Some && reference_price is Some && reference_price->0 == 0 {
        Err(RiskError::InvalidReferencePrice)
    } else if c.max_slippage_bps is Some && reference_price is Some
        && actual_cost as int / (if quantity == 0 { 1 } else { quantity as int }) > maximum_price(reference_price->0, c.max_slippage_bps->0) {
        Err(RiskError::SlippageExceeded {
            reference_price: reference_price->0,
            execution_price: (actual_cost as int / (if quantity == 0 { 1 } else { quantity as int })) as u64,
            maximum_price: maximum_price(reference_price->0, c.max_slippage_bps->0) as u64,
        })
    } else {
        Ok(())
    }
}

pub struct RiskEngine;

impl RiskEngine {
    pub fn new() -> (r: Self) {
        RiskEngine
    }

    /// Validate order constraints before routing.
    pub fn validate(&self, order: &ParentOrder, constraints: &OrderConstraints) -> (r: Result<(), RiskError>)
        ensures
            r == pre_trade_outcome(order.quantity, order.side, order.limit_price, *constraints),
    {
        if order.quantity == 0 {
            return Err(RiskError::ZeroQuantity);
        }
        if let Some(max_quantity) = constraints.max_quantity {
            if order.quantity > max_quantity {
                return Err(RiskError::QuantityLimitExceeded { requested: order.quantity, maximum: max_quantity });
            }
        }
        match order.side {
            VenueOrderSide::Buy => {
                self.validate_buy(order, constraints)?;
            },
            VenueOrderSide::Sell => {
                self.validate_sell(order, constraints)?;
            },
        }
        if let Some(max_slippage) = constraints.max_slippage_bps {
            if max_slippage > 10_000 {
                return Err(RiskError::InvalidSlippage);
            }
        }
        Ok(())
    }

    fn validate_buy(&self, order: &ParentOrder, constraints: &OrderConstraints) -> (r: Result<(), RiskError>)
        ensures
            r is Ok <==> !(order.limit_price is Some && order.quantity * order.limit_price->0 > u64::MAX)
                && !(order.limit_price is Some && constraints.max_spend is Some
                    && order.quantity * order.limit_price->0 > constraints.max_spend->0)
                && !(order.limit_price is None && constraints.max_spend is None && constraints.max_slippage_bps is None),
            (order.limit_price is Some && order.quantity * order.limit_price->0 > u64::MAX) ==> r == Err::<(), RiskError>(RiskError::ArithmeticOverflow),
            (order.limit_price is Some && order.quantity * order.limit_price->0 <= u64::MAX && constraints.max_spend is Some
                && order.quantity * order.limit_price->0 > constraints.max_spend->0) ==> r == Err::<(), RiskError>(RiskError::MaxSpendExceeded {
                    estimated: (order.quantity * order.limit_price->0) as u64, maximum: constraints.max_spend->0 }),
            (order.limit_price is None && constraints.max_spend is None && constraints.max_slippage_bps is None)
                ==> r == Err::<(), RiskError>(RiskError::MarketBuyRequiresConstraint),
    {
        if let Some(limit_price) = order.limit_price {
            let maximum_cost = match order.quantity.checked_mul(limit_price) {
                Some(v) => v,
                None => return Err(RiskError::ArithmeticOverflow),
            };
            if let Some(max_spend) = constraints.max_spend {
                if maximum_cost > max_spend {
                    return Err(RiskError::MaxSpendExceeded { estimated: maximum_cost, maximum: max_spend });
                }
            }
        } else {
            if constraints.max_spend.is_none() && constraints.max_slippage_bps.is_none() {
                return Err(RiskError::MarketBuyRequiresConstraint);
            }
        }
        Ok(())
    }

    fn validate_sell(&self, order: &ParentOrder, constraints: &OrderConstraints) -> (r: Result<(), RiskError>)
        ensures
            r is Ok <==> !(constraints.max_quantity is Some && order.quantity > constraints.max_quantity->0),
            !(r is Ok) ==> r == Err::<(), RiskError>(RiskError::QuantityLimitExceeded {
                requested: order.quantity, maximum: constraints.max_quantity->0 }),
    {
        if let Some(max_quantity) = constraints.max_quantity {
            if order.quantity > max_quantity {
                return Err(RiskError::QuantityLimitExceeded { requested: order.quantity, maximum: max_quantity });
            }
        }
        Ok(())
    }

    /// Validate the actual execution against the user's limits after routing.
    pub fn validate_execution_cost(&self, order: &ParentOrder, constraints: &OrderConstraints, actual_cost: u64, reference_price: Option<u64>) -> (r: Result<(), RiskError>)
        ensures
            r == post_trade_outcome(order.side, order.quantity, *constraints, actual_cost, reference_price),
    {
        if order.side != VenueOrderSide::Buy {
            return Ok(());
        }
        if let Some(max_spend) = constraints.max_spend {
            if actual_cost > max_spend {
                return Err(RiskError::ExecutionExceededMaxSpend { actual: actual_cost, maximum: max_spend });
            }
        }
        if let (Some(max_slippage_bps), Some(reference)) = (constraints.max_slippage_bps, reference_price) {
            if reference == 0 {
                return Err(RiskError::InvalidReferencePrice);
            }
            let divisor = if order.quantity == 0 { 1 } else { order.quantity };
            let executed_price = actual_cost / divisor;
            let maximum_price = reference.saturating_mul(10_000u64.saturating_add(max_slippage_bps)) / 10_000;
            if executed_price > maximum_price {
                return Err(RiskError::SlippageExceeded {
                    reference_price: reference,
                    execution_price: executed_price,
                    maximum_price,
                });
            }
        }
        Ok(())
    }

    /// Reference price from an aggregated orderbook: best ask for a buy,
    /// best bid for a sell.
    pub fn reference_price_from(&self, order: &ParentOrder, book: Option<&AggregatedOrderBook>) -> (r: Result<u64, RiskError>)
        ensures
            book is None ==> r matches Err(RiskError::NoMarketData),
            book matches Some(b) ==> (order.side == VenueOrderSide::Buy ==> (
                (b.asks@.len() > 0 ==> r == Ok::<u64, RiskError>(b.asks@[0].price))
                && (b.asks@.len() == 0 ==> r matches Err(RiskError::NoMarketData)))),
            book matches Some(b) ==> (order.side == VenueOrderSide::Sell ==> (
                (b.bids@.len() > 0 ==> r == Ok::<u64, RiskError>(b.bids@[0].price))
                && (b.bids@.len() == 0 ==> r matches Err(RiskError::NoMarketData)))),
    {
        let book = match book {
            Some(b) => b,
            None => return Err(RiskError::NoMarketData),
        };
        match order.side {
            VenueOrderSide::Buy => match book.best_ask() {
                Some(level) => Ok(level.price),
                None => Err(RiskError::NoMarketData),
            },
            VenueOrderSide::Sell => match book.best_bid() {
                Some(level) => Ok(level.price),
                None => Err(RiskError::NoMarketData),
            },
        }
    }
}

/// A sell is priced against the bids, a buy against the asks.
pub open spec fn quotes_bids(side: VenueOrderSide) -> bool {
    side == VenueOrderSide::Sell
}

impl RiskEngine {
    /// Reference price from the engine's merged book: its best ask for a buy, its
    /// best bid for a sell; `NoMarketData` when there is no merged book or that side
    /// is empty.
    pub fn reference_price(&self, order: &ParentOrder, market_data: &MarketDataEngine) -> (r: Result<u64, RiskError>)
        ensures
            r is Ok <==> ({
                let books = market_data.books();
                &&& books.len() > 0
                &&& totals_fit(side_quotes(books, true))
                &&& totals_fit(side_quotes(books, false))
                &&& exists|x: u64| #[trigger] price_quoted(side_quotes(books, quotes_bids(order.side)), x)
            }),
            r is Err ==> r matches Err(RiskError::NoMarketData),
            r matches Ok(p) ==> {
                let q = side_quotes(market_data.books(), quotes_bids(order.side));
                &&& price_quoted(q, p)
                &&& forall|x: u64| #[trigger] price_quoted(q, x) ==> (if order.side == VenueOrderSide::Buy { x >= p } else { x <= p })
            },
    {
        let book = market_data.aggregated();
        let ghost books = market_data.books();
        let ghost buy_side = quotes_bids(order.side);
        let r = self.reference_price_from(order, book.as_ref());
        proof {
            if let Some(b) = book {
                let q = side_quotes(books, buy_side);
                let levels = if buy_side { b.bids@ } else { b.asks@ };
                assert(is_side_aggregate(q, buy_side, levels));
                if levels.len() > 0 {
                    assert(price_quoted(q, levels[0].price));
                    assert forall|x: u64| #[trigger] price_quoted(q, x) implies (if order.side == VenueOrderSide::Buy { x >= levels[0].price } else { x <= levels[0].price }) by {
                        lemma_best_level_is_extreme(q, buy_side, levels, x);
                    }
                } else {
                    assert(!exists|x: u64| #[trigger] price_quoted(q, x)) by {
                        if exists|x: u64| #[trigger] price_quoted(q, x) {
                            let x = choose|x: u64| price_quoted(q, x);
                            lemma_best_level_is_extreme(q, buy_side, levels, x);
                        }
                    }
                }
            }
        }
        r
    }
}

impl Default for RiskEngine {
    fn default() -> (r: Self) {
        RiskEngine
    }
}


/// The slippage ceiling: when the product fits in a `u64`, it is the
/// reference price raised by `bps` hundredths of a percent, rounded down,
/// and so never below the reference price.
pub proof fn lemma_maximum_price(reference: u64, bps: u64)
    requires
        reference * (10_000 + bps) <= u64::MAX,
    ensures
        maximum_price(reference, bps) == reference * (10_000 + bps) / 10_000,
        maximum_price(reference, bps) >= reference,
{
    if reference > 0 {
        assert(10_000 + bps <= reference * (10_000 + bps)) by (nonlinear_arith) requires reference >= 1;
    } else {
        assert(reference * (10_000 + bps) == 0);
        assert(reference * u64::MAX == 0);
    }
    assert(reference * (10_000 + bps) >= reference * 10_000) by (nonlinear_arith);
    assert(reference * 10_000 / 10_000 == reference) by (nonlinear_arith);
    assert(reference * (10_000 + bps) / 10_000 >= reference * 10_000 / 10_000) by (nonlinear_arith)
        requires reference * (10_000 + bps) >= reference * 10_000;
}

/// After a buy with a slippage limit and a positive reference price (and no
/// spending cap exceeded), the check passes exactly when the executed price
/// (cost over quantity) is at most `reference * (10_000 + bps) / 10_000`;
/// otherwise it fails with `SlippageExceeded` naming that ceiling.
pub proof fn lemma_slippage_check(quantity: u64, c: OrderConstraints, actual_cost: u64, reference: u64)
    requires
        c.max_slippage_bps is Some,
        c.max_spend is None || actual_cost <= c.max_spend->0,
        reference > 0,
        reference * (10_000 + c.max_slippage_bps->0) <= u64::MAX,
    ensures
        ({
            let ceiling = reference * (10_000 + c.max_slippage_bps->0) / 10_000;
            let executed = actual_cost as int / (if quantity == 0 { 1 } else { quantity as int });
            &&& executed <= ceiling ==> post_trade_outcome(VenueOrderSide::Buy, quantity, c, actual_cost, Some(reference)) is Ok
            &&& executed > ceiling ==> post_trade_outcome(VenueOrderSide::Buy, quantity, c, actual_cost, Some(reference))
                == Err::<(), RiskError>(RiskError::SlippageExceeded {
                    reference_price: reference,
                    execution_price: executed as u64,
                    maximum_price: ceiling as u64,
                })
        }),
{
    lemma_maximum_price(reference, c.max_slippage_bps->0);
}


/// An order passes the pre-trade check exactly when its quantity is positive
/// and within any quantity cap, a limit buy's estimated cost (quantity times
/// limit) fits and is within any spending cap, a market buy carries a
/// spending cap or a slippage limit, and any slippage limit is at most
/// 10_000 basis points. A zero quantity is always refused as such.
pub proof fn lemma_pre_trade_passes(quantity: u64, side: VenueOrderSide, limit_price: Option<u64>, c: OrderConstraints)
    ensures
        pre_trade_outcome(quantity, side, limit_price, c) is Ok <==> {
            &&& quantity > 0
            &&& (c.max_quantity is Some ==> quantity <= c.max_quantity->0)
            &&& (side == VenueOrderSide::Buy && limit_price is Some ==> quantity * limit_price->0 <= u64::MAX
                    && (c.max_spend is Some ==> quantity * limit_price->0 <= c.max_spend->0))
            &&& (side == VenueOrderSide::Buy && limit_price is None ==> c.max_spend is Some || c.max_slippage_bps is Some)
            &&& (c.max_slippage_bps is Some ==> c.max_slippage_bps->0 <= 10_000)
        },
        quantity == 0 ==> pre_trade_outcome(quantity, side, limit_price, c) == Err::<(), RiskError>(RiskError::ZeroQuantity),
{
}

} // verus!
