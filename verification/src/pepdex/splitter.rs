//! Makes each child order valid for its venue: lot and tick rounding.
use vstd::prelude::*;
use crate::pepdex::market::{Market, MarketStatus};
use crate::pepdex::order::{ChildOrder, ExecutionPlan};
use crate::pepdex::venue::{VenueId, VenueOrderType};

verus! {

#[derive(Debug, Clone, Copy, PartialEq, Eq, Structural)]
pub struct SplitRules {
    /// Minimum quantity that can be sent to a venue.
    pub lot_size: u64,
    /// Minimum price increment accepted by a venue.
    pub tick_size: u64,
    /// If true, a remainder smaller than lot_size is rejected.
    pub reject_remainder: bool,
}

impl Default for SplitRules {
    fn default() -> (r: Self)
        ensures
            r == (SplitRules { lot_size: 1, tick_size: 1, reject_remainder: true }),
    {
        SplitRules { lot_size: 1, tick_size: 1, reject_remainder: true }
    }
}

#[derive(Debug, Clone, Copy)]
pub struct Splitter {
    pub default_rules: SplitRules,
}

#[derive(Debug)]
pub enum SplitterError {
    MarketInactive,
    NothingExecutable,
    QuantityBelowLotSize { venue: VenueId, quantity: u64, lot_size: u64 },
}

/// Rounds down to a multiple of `step` (no rounding for steps of 0 or 1).
pub open spec fn round_down(v: u64, step: u64) -> u64 {
    if step <= 1 { v } else { ((v / step) * step) as u64 }
}

/// Round quantity down to a valid lot size.
pub fn normalize_quantity(quantity: u64, lot_size: u64) -> (r: u64)
    ensures
        r == round_down(quantity, lot_size),
        r <= quantity,
{
    if lot_size <= 1 {
        return quantity;
    }
    proof {
        vstd::arithmetic::div_mod::lemma_fundamental_div_mod(quantity as int, lot_size as int);
        assert((quantity / lot_size) * lot_size <= quantity) by (nonlinear_arith)
            requires lot_size > 1, lot_size * (quantity / lot_size) + quantity % lot_size == quantity, quantity % lot_size >= 0;
    }
    (quantity / lot_size) * lot_size
}

/// Round price down to the nearest valid tick.
pub fn normalize_price(price: u64, tick_size: u64) -> (r: u64)
    ensures
        r == round_down(price, tick_size),
        r <= price,
{
    normalize_quantity(price, tick_size)
}

/// The rules used for a market: its own sizes, or the defaults where they are 0.
pub open spec fn effective_rules(default: SplitRules, market: Market) -> SplitRules {
    SplitRules {
        lot_size: if market.lot_size == 0 { default.lot_size } else { market.lot_size },
        tick_size: if market.tick_size == 0 { default.tick_size } else { market.tick_size },
        reject_remainder: default.reject_remainder,
    }
}

/// What normalizing one child gives: dropped (none), rejected (err), or the rounded child.
pub open spec fn child_outcome(child: ChildOrder, rules: SplitRules) -> Result<Option<(u64, Option<u64>)>, ()> {
    if child.quantity == 0 {
        Ok(None)
    } else if round_down(child.quantity, rules.lot_size) == 0 {
        if rules.reject_remainder { Err(()) } else { Ok(None) }
    } else if child.order_type == VenueOrderType::Limit && child.price is Some {
        Ok(Some((round_down(child.quantity, rules.lot_size), Some(round_down(child.price->0, rules.tick_size)))))
    } else {
        Ok(Some((round_down(child.quantity, rules.lot_size), child.price)))
    }
}

/// The normalized children of a plan, or none if one is rejected.
/// While the split goes through, every child so far had an outcome.
proof fn lemma_split_some_prefix(children: Seq<ChildOrder>, rules: SplitRules)
    requires
        split_children(children, rules) is Some,
    ensures
        forall|j: int| 0 <= j < children.len() ==> child_outcome(#[trigger] children[j], rules) is Ok,
    decreases children.len(),
{
    if children.len() > 0 {
        lemma_split_some_prefix(children.drop_last(), rules);
        assert forall|j: int| 0 <= j < children.len() implies child_outcome(#[trigger] children[j], rules) is Ok by {
            if j < children.len() - 1 {
                assert(children.drop_last()[j] == children[j]);
            }
        }
    }
}

pub open spec fn split_children(children: Seq<ChildOrder>, rules: SplitRules) -> Option<Seq<(ChildOrder, (u64, Option<u64>))>>
    decreases children.len(),
{
    if children.len() == 0 {
        Some(Seq::empty())
    } else {
        match split_children(children.drop_last(), rules) {
            None => None,
            Some(prev) => match child_outcome(children.last(), rules) {
                Err(_) => None,
                Ok(None) => Some(prev),
                Ok(Some(qp)) => Some(prev.push((children.last(), qp))),
            },
        }
    }
}

/// `c` is `orig` with the given quantity and price.
pub open spec fn rounded_child(c: ChildOrder, orig: ChildOrder, qp: (u64, Option<u64>)) -> bool {
    &&& c.id@ == orig.id@
    &&& c.parent_id@ == orig.parent_id@
    &&& c.venue == orig.venue
    &&& c.market@ == orig.market@
    &&& c.side == orig.side
    &&& c.order_type == orig.order_type
    &&& c.quantity == qp.0
    &&& c.price == qp.1
    &&& c.client_order_id@ == orig.client_order_id@
    &&& c.timestamp_ms == orig.timestamp_ms
    &&& c.status == orig.status
}

/// `out` is `plan` with each child fitted to `rules`, the children left out
/// dropped, and at least one child left.
pub open spec fn split_plan(out: ExecutionPlan, plan: ExecutionPlan, rules: SplitRules) -> bool {
    let cs = split_children(plan.children@, rules)->0;
    &&& split_children(plan.children@, rules) is Some
    &&& cs.len() > 0
    &&& out.parent_order_id@ == plan.parent_order_id@
    &&& out.children@.len() == cs.len()
    &&& forall|i: int| 0 <= i < cs.len() ==> rounded_child(#[trigger] out.children@[i], cs[i].0, cs[i].1)
}

impl Splitter {
    pub fn new() -> (r: Self)
        ensures
            r.default_rules == (SplitRules { lot_size: 1, tick_size: 1, reject_remainder: true }),
    {
        Splitter { default_rules: SplitRules::default() }
    }

    pub fn with_rules(rules: SplitRules) -> (r: Self)
        ensures
            r.default_rules == rules,
    {
        Splitter { default_rules: rules }
    }

    /// Normalize an execution plan before it reaches the executor.
    pub fn split(&self, plan: &ExecutionPlan, market: &Market) -> (r: Result<ExecutionPlan, SplitterError>)
        ensures
            market.status != MarketStatus::Active ==> r matches Err(SplitterError::MarketInactive),
            market.status == MarketStatus::Active && split_children(plan.children@, effective_rules(self.default_rules, *market)) is None
                ==> r matches Err(SplitterError::QuantityBelowLotSize { .. }),
            (split_children(plan.children@, effective_rules(self.default_rules, *market)) matches Some(cs)
                && market.status == MarketStatus::Active && cs.len() == 0) ==> r matches Err(SplitterError::NothingExecutable),
            r matches Ok(out) ==> market.status == MarketStatus::Active
                && split_plan(out, *plan, effective_rules(self.default_rules, *market)),
            (split_children(plan.children@, effective_rules(self.default_rules, *market)) matches Some(cs)
                && market.status == MarketStatus::Active && cs.len() > 0) ==> r is Ok,
            r matches Err(SplitterError::MarketInactive) <==> market.status != MarketStatus::Active,
            r matches Err(SplitterError::QuantityBelowLotSize { .. }) <==> (market.status == MarketStatus::Active
                && split_children(plan.children@, effective_rules(self.default_rules, *market)) is None),
            r matches Err(SplitterError::NothingExecutable) <==> (market.status == MarketStatus::Active
                && split_children(plan.children@, effective_rules(self.default_rules, *market)) is Some
                && split_children(plan.children@, effective_rules(self.default_rules, *market))->0.len() == 0),
            r matches Err(SplitterError::QuantityBelowLotSize { venue, quantity, lot_size }) ==> exists|k: int| {
                &&& 0 <= k < plan.children@.len()
                &&& child_outcome(plan.children@[k], effective_rules(self.default_rules, *market)) is Err
                &&& forall|j: int| 0 <= j < k ==> child_outcome(#[trigger] plan.children@[j], effective_rules(self.default_rules, *market)) is Ok
                &&& venue == plan.children@[k].venue
                &&& quantity == plan.children@[k].quantity
                &&& lot_size == effective_rules(self.default_rules, *market).lot_size
            },
    {
        if !market.is_active() {
            return Err(SplitterError::MarketInactive);
        }
        let rules = SplitRules {
            lot_size: if market.lot_size == 0 { self.default_rules.lot_size } else { market.lot_size },
            tick_size: if market.tick_size == 0 { self.default_rules.tick_size } else { market.tick_size },
            reject_remainder: self.default_rules.reject_remainder,
        };
        let mut output = ExecutionPlan::new(plan.parent_order_id.clone());
        let mut i: usize = 0;
        while i < plan.children.len()
            invariant
                i <= plan.children@.len(),
                rules == effective_rules(self.default_rules, *market),
                market.status == MarketStatus::Active,
                (split_children(plan.children@.take(i as int), rules) matches Some(cs) && output.children@.len() == cs.len()
                    && forall|k: int| 0 <= k < cs.len() ==> rounded_child(#[trigger] output.children@[k], cs[k].0, cs[k].1)),
                output.parent_order_id@ == plan.parent_order_id@,
            decreases plan.children@.len() - i,
        {
            proof {
                assert(plan.children@.take(i + 1).drop_last() =~= plan.children@.take(i as int));
            }
            let normalized = self.normalize_child(&plan.children[i], rules);
            match normalized {
                Err(e) => {
                    proof {
                        lemma_split_none_extends(plan.children@, rules, i as int + 1);
                        lemma_split_some_prefix(plan.children@.take(i as int), rules);
                        assert forall|j: int| 0 <= j < i implies child_outcome(#[trigger] plan.children@[j], rules) is Ok by {
                            assert(plan.children@.take(i as int)[j] == plan.children@[j]);
                        }
                    }
                    return Err(e);
                },
                Ok(Some(child)) => {
                    output.add_child(child);
                },
                Ok(None) => {},
            }
            i += 1;
        }
        assert(plan.children@.take(plan.children@.len() as int) =~= plan.children@);
        if output.children.len() == 0 {
            return Err(SplitterError::NothingExecutable);
        }
        Ok(output)
    }

    fn normalize_child(&self, child: &ChildOrder, rules: SplitRules) -> (r: Result<Option<ChildOrder>, SplitterError>)
        ensures
            child_outcome(*child, rules) is Err <==> r is Err,
            r is Err ==> r matches Err(SplitterError::QuantityBelowLotSize { .. }),
            r matches Err(SplitterError::QuantityBelowLotSize { venue, quantity, lot_size })
                ==> venue == child.venue && quantity == child.quantity && lot_size == rules.lot_size,
            child_outcome(*child, rules) matches Ok(None) ==> r matches Ok(None),
            child_outcome(*child, rules) matches Ok(Some(qp)) ==> (r matches Ok(Some(c)) && rounded_child(c, *child, qp)),
    {
        if child.quantity == 0 {
            return Ok(None);
        }
        let quantity = normalize_quantity(child.quantity, rules.lot_size);
        if quantity == 0 {
            if rules.reject_remainder {
                return Err(SplitterError::QuantityBelowLotSize {
                    venue: child.venue,
                    quantity: child.quantity,
                    lot_size: rules.lot_size,
                });
            }
            return Ok(None);
        }
        if child.order_type == VenueOrderType::Limit {
            if let Some(price) = child.price {
                let normalized_price = normalize_price(price, rules.tick_size);
                let mut new_child = child.clone();
                new_child.quantity = quantity;
                new_child.price = Some(normalized_price);
                return Ok(Some(new_child));
            }
        }
        let mut new_child = child.clone();
        new_child.quantity = quantity;
        Ok(Some(new_child))
    }
}

/// Once a prefix is rejected, every longer prefix is too.
pub proof fn lemma_split_none_extends(children: Seq<ChildOrder>, rules: SplitRules, k: int)
    requires
        0 < k <= children.len(),
        split_children(children.take(k), rules) is None,
    ensures
        split_children(children, rules) is None,
    decreases children.len() - k,
{
    if k < children.len() {
        assert(children.take(k + 1).drop_last() =~= children.take(k));
        lemma_split_none_extends(children, rules, k + 1);
    } else {
        assert(children.take(k) =~= children);
    }
}

impl Default for Splitter {
    fn default() -> (r: Self)
        ensures
            r.default_rules == (SplitRules { lot_size: 1, tick_size: 1, reject_remainder: true }),
    {
        Self::new()
    }
}

} // verus!
