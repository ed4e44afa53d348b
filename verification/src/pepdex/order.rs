//! Parent orders from users, the child orders routed to venues, and plans.
use vstd::prelude::*;
use crate::clock::now_ms;
use crate::pepdex::market::MarketId;
use crate::pepdex::risk::OrderConstraints;
use crate::pepdex::venue::{VenueId, VenueOrderSide, VenueOrderType};
use crate::text::push_str;

verus! {

/// Unique identifier of a PEPDEX order.
#[derive(Debug, PartialEq, Eq, Hash)]
pub struct OrderId(pub String);

impl View for OrderId {
    type V = Seq<char>;

    open spec fn view(&self) -> Seq<char> {
        self.0@
    }
}

impl Clone for OrderId {
    fn clone(&self) -> (r: Self)
        ensures
            r@ == self@,
    {
        OrderId(self.0.clone())
    }
}

impl OrderId {
    pub fn new(id: &str) -> (r: Self)
        ensures
            r@ == id@,
    {
        OrderId(id.to_string())
    }

    pub fn as_str(&self) -> (r: &str)
        ensures
            r@ == self@,
    {
        self.0.as_str()
    }

    /// Whether two identifiers are the same text.
    pub fn same_as(&self, other: &OrderId) -> (r: bool)
        ensures
            r == (self@ == other@),
    {
        self.0.eq(&other.0)
    }
}

#[derive(Debug, Clone, Copy, PartialEq, Eq, Structural)]
pub enum ParentOrderStatus {
    New,
    Routing,
    PartiallyFilled,
    Filled,
    Cancelled,
    Failed,
}

/// Order submitted by a PEPDEX user; never sent to a venue as such.
#[derive(Debug)]
pub struct ParentOrder {
    pub id: OrderId,
    pub user: String,
    pub market: MarketId,
    pub side: VenueOrderSide,
    pub order_type: VenueOrderType,
    /// Total quantity requested by the user.
    pub quantity: u64,
    /// Limit price; none for market orders.
    pub limit_price: Option<u64>,
    /// Execution/risk constraints belonging to this order.
    pub constraints: OrderConstraints,
    pub timestamp_ms: u64,
    pub status: ParentOrderStatus,
}

impl Clone for ParentOrder {
    fn clone(&self) -> (r: Self)
        ensures
            r.same(*self),
    {
        ParentOrder {
            id: self.id.clone(),
            user: self.user.clone(),
            market: self.market.clone(),
            side: self.side,
            order_type: self.order_type,
            quantity: self.quantity,
            limit_price: self.limit_price,
            constraints: self.constraints,
            timestamp_ms: self.timestamp_ms,
            status: self.status,
        }
    }
}

impl ParentOrder {
    /// Field-by-field equality over views.
    pub open spec fn same(self, o: ParentOrder) -> bool {
        &&& self.id@ == o.id@
        &&& self.user@ == o.user@
        &&& self.market@ == o.market@
        &&& self.side == o.side
        &&& self.order_type == o.order_type
        &&& self.quantity == o.quantity
        &&& self.limit_price == o.limit_price
        &&& self.constraints == o.constraints
        &&& self.timestamp_ms == o.timestamp_ms
        &&& self.status == o.status
    }

    /// A new order with no constraints, stamped with the current time.
    pub fn new(id: &str, user: &str, market: MarketId, side: VenueOrderSide, order_type: VenueOrderType, quantity: u64, limit_price: Option<u64>) -> (r: Self)
        ensures
            r.id@ == id@,
            r.user@ == user@,
            r.market@ == market@,
            r.side == side,
            r.order_type == order_type,
            r.quantity == quantity,
            r.limit_price == limit_price,
            r.constraints == (OrderConstraints { max_spend: None, max_slippage_bps: None, max_quantity: None }),
            r.status == ParentOrderStatus::New,
    {
        ParentOrder {
            id: OrderId::new(id),
            user: user.to_string(),
            market,
            side,
            order_type,
            quantity,
            limit_price,
            constraints: OrderConstraints::new(),
            timestamp_ms: now_ms(),
            status: ParentOrderStatus::New,
        }
    }

    /// Attach risk constraints to the order.
    pub fn with_constraints(self, constraints: OrderConstraints) -> (r: Self)
        ensures
            r.constraints == constraints,
            r.id@ == self.id@,
            r.user@ == self.user@,
            r.market@ == self.market@,
            r.side == self.side,
            r.order_type == self.order_type,
            r.quantity == self.quantity,
            r.limit_price == self.limit_price,
            r.timestamp_ms == self.timestamp_ms,
            r.status == self.status,
    {
        let mut s = self;
        s.constraints = constraints;
        s
    }

    pub fn is_market_order(&self) -> (r: bool)
        ensures
            r == (self.order_type == VenueOrderType::Market),
    {
        self.order_type == VenueOrderType::Market
    }

    pub fn is_limit_order(&self) -> (r: bool)
        ensures
            r == (self.order_type == VenueOrderType::Limit),
    {
        self.order_type == VenueOrderType::Limit
    }

    pub fn max_spend(&self) -> (r: Option<u64>)
        ensures
            r == self.constraints.max_spend,
    {
        self.constraints.max_spend
    }

    pub fn max_slippage_bps(&self) -> (r: Option<u64>)
        ensures
            r == self.constraints.max_slippage_bps,
    {
        self.constraints.max_slippage_bps
    }

    pub fn max_quantity(&self) -> (r: Option<u64>)
        ensures
            r == self.constraints.max_quantity,
    {
        self.constraints.max_quantity
    }
}

#[derive(Debug, Clone, Copy, PartialEq, Eq, Structural)]
pub enum ChildOrderStatus {
    Pending,
    Submitted,
    Open,
    PartiallyFilled,
    Filled,
    Cancelled,
    Rejected,
}

/// Child order created by PEPDEX for one venue.
#[derive(Debug)]
pub struct ChildOrder {
    pub id: OrderId,
    pub parent_id: OrderId,
    pub venue: VenueId,
    pub market: MarketId,
    pub side: VenueOrderSide,
    pub order_type: VenueOrderType,
    pub quantity: u64,
    pub price: Option<u64>,
    pub client_order_id: String,
    pub timestamp_ms: u64,
    pub status: ChildOrderStatus,
}

impl Clone for ChildOrder {
    fn clone(&self) -> (r: Self)
        ensures
            r.same(*self),
    {
        ChildOrder {
            id: self.id.clone(),
            parent_id: self.parent_id.clone(),
            venue: self.venue,
            market: self.market.clone(),
            side: self.side,
            order_type: self.order_type,
            quantity: self.quantity,
            price: self.price,
            client_order_id: self.client_order_id.clone(),
            timestamp_ms: self.timestamp_ms,
            status: self.status,
        }
    }
}

/// The client order id a child carries: `PEPDEX-` and the child's id.
pub open spec fn client_id_of(id: Seq<char>) -> Seq<char> {
    "PEPDEX-"@ + id
}

impl ChildOrder {
    /// Field-by-field equality over views.
    pub open spec fn same(self, o: ChildOrder) -> bool {
        &&& self.id@ == o.id@
        &&& self.parent_id@ == o.parent_id@
        &&& self.venue == o.venue
        &&& self.market@ == o.market@
        &&& self.side == o.side
        &&& self.order_type == o.order_type
        &&& self.quantity == o.quantity
        &&& self.price == o.price
        &&& self.client_order_id@ == o.client_order_id@
        &&& self.timestamp_ms == o.timestamp_ms
        &&& self.status == o.status
    }

    /// A pending child of `parent` for one venue.
    pub fn new(id: &str, parent: &ParentOrder, venue: VenueId, quantity: u64, price: Option<u64>) -> (r: Self)
        ensures
            r.id@ == id@,
            r.parent_id@ == parent.id@,
            r.venue == venue,
            r.market@ == parent.market@,
            r.side == parent.side,
            r.order_type == parent.order_type,
            r.quantity == quantity,
            r.price == price,
            r.client_order_id@ == client_id_of(id@),
            r.status == ChildOrderStatus::Pending,
    {
        let id = OrderId::new(id);
        let mut client_order_id = "PEPDEX-".to_string();
        push_str(&mut client_order_id, id.as_str());
        proof {
            reveal_strlit("PEPDEX-");
        }
        ChildOrder {
            id,
            parent_id: parent.id.clone(),
            venue,
            market: parent.market.clone(),
            side: parent.side,
            order_type: parent.order_type,
            quantity,
            price,
            client_order_id,
            timestamp_ms: now_ms(),
            status: ChildOrderStatus::Pending,
        }
    }

    pub fn is_finished(&self) -> (r: bool)
        ensures
            r == (self.status == ChildOrderStatus::Filled || self.status == ChildOrderStatus::Cancelled
                || self.status == ChildOrderStatus::Rejected),
    {
        match self.status {
            ChildOrderStatus::Filled | ChildOrderStatus::Cancelled | ChildOrderStatus::Rejected => true,
            _ => false,
        }
    }
}

/// Sum of the children's quantities.
pub open spec fn children_quantity(children: Seq<ChildOrder>) -> nat
    decreases children.len(),
{
    if children.len() == 0 {
        0
    } else {
        children_quantity(children.drop_last()) + children.last().quantity as nat
    }
}

/// Result of routing a parent order.
#[derive(Debug)]
pub struct ExecutionPlan {
    pub parent_order_id: OrderId,
    pub children: Vec<ChildOrder>,
}

impl Clone for ExecutionPlan {
    fn clone(&self) -> (r: Self)
        ensures
            r.parent_order_id@ == self.parent_order_id@,
            r.children@.len() == self.children@.len(),
            forall|i: int| 0 <= i < r.children@.len() ==> #[trigger] r.children@[i].same(self.children@[i]),
    {
        let mut children: Vec<ChildOrder> = Vec::new();
        let mut i: usize = 0;
        while i < self.children.len()
            invariant
                i <= self.children@.len(),
                children@.len() == i,
                forall|j: int| 0 <= j < i ==> #[trigger] children@[j].same(self.children@[j]),
            decreases self.children@.len() - i,
        {
            children.push(self.children[i].clone());
            i += 1;
        }
        ExecutionPlan { parent_order_id: self.parent_order_id.clone(), children }
    }
}

impl ExecutionPlan {
    pub fn new(parent_order_id: OrderId) -> (r: Self)
        ensures
            r.parent_order_id == parent_order_id,
            r.children@.len() == 0,
    {
        ExecutionPlan { parent_order_id, children: Vec::new() }
    }

    pub fn add_child(&mut self, child: ChildOrder)
        ensures
            final(self).children@ == old(self).children@.push(child),
            final(self).parent_order_id == old(self).parent_order_id,
    {
        self.children.push(child);
    }

    /// Sum of the children's quantities; the sum must fit in a `u64`.
    pub fn total_quantity(&self) -> (r: u64)
        requires
            children_quantity(self.children@) <= u64::MAX,
        ensures
            r == children_quantity(self.children@),
    {
        let mut total: u64 = 0;
        let mut i: usize = 0;
        while i < self.children.len()
            invariant
                i <= self.children@.len(),
                total == children_quantity(self.children@.take(i as int)),
                children_quantity(self.children@) <= u64::MAX,
            decreases self.children@.len() - i,
        {
            proof {
                assert(self.children@.take(i + 1).drop_last() =~= self.children@.take(i as int));
                lemma_children_quantity_prefix(self.children@, i + 1);
            }
            total = total + self.children[i].quantity;
            i += 1;
        }
        assert(self.children@.take(self.children@.len() as int) =~= self.children@);
        total
    }

    pub fn child_count(&self) -> (r: usize)
        ensures
            r == self.children@.len(),
    {
        self.children.len()
    }
}

/// A prefix never sums to more than the whole.
pub proof fn lemma_children_quantity_prefix(s: Seq<ChildOrder>, k: int)
    requires
        0 <= k <= s.len(),
    ensures
        children_quantity(s.take(k)) <= children_quantity(s),
    decreases s.len() - k,
{
    if k < s.len() {
        lemma_children_quantity_prefix(s, k + 1);
        assert(s.take(k + 1).drop_last() =~= s.take(k));
    } else {
        assert(s.take(k) =~= s);
    }
}

} // verus!
