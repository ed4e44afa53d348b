//! Persistent records of parent orders: what is kept of each, the in-memory
//! store, and the store front the engine talks to.
use vstd::prelude::*;
use crate::clock::now_ms;
use crate::pepdex::execution::{clone_opt_string, opt_view, Execution, ExecutionStatus};
use crate::pepdex::order::{ChildOrder, ChildOrderStatus, OrderId, ParentOrder};
use crate::pepdex::order_manager::{ManagedOrder, OrderLifecycle};
use crate::pepdex::order_journal::{encode_delete, encode_order};
use crate::pepdex::venue::VenueId;

verus! {

#[verifier::external_type_specification]
#[verifier::external_body]
pub struct ExIoError(std::io::Error);

#[derive(Debug)]
pub enum OrderStoreError {
    NotFound,
    Io(std::io::Error),
    LockPoisoned,
    CorruptedRecord,
}

#[derive(Debug)]
pub struct StoredChildOrder {
    pub child_order_id: OrderId,
    pub venue: VenueId,
    pub client_order_id: String,
    pub quantity: u64,
    pub price: Option<u64>,
    pub status: String,
}

impl View for StoredChildOrder {
    type V = (Seq<char>, VenueId, Seq<char>, u64, Option<u64>, Seq<char>);

    open spec fn view(&self) -> Self::V {
        (self.child_order_id@, self.venue, self.client_order_id@, self.quantity, self.price, self.status@)
    }
}

impl Clone for StoredChildOrder {
    fn clone(&self) -> (r: Self)
        ensures
            r@ == self@,
    {
        StoredChildOrder {
            child_order_id: self.child_order_id.clone(),
            venue: self.venue,
            client_order_id: self.client_order_id.clone(),
            quantity: self.quantity,
            price: self.price,
            status: self.status.clone(),
        }
    }
}

#[derive(Debug)]
pub struct StoredExternalOrder {
    pub child_order_id: OrderId,
    pub venue: VenueId,
    pub external_order_id: String,
    pub filled_quantity: u64,
    pub remaining_quantity: u64,
    pub status: String,
}

impl View for StoredExternalOrder {
    type V = (Seq<char>, VenueId, Seq<char>, u64, u64, Seq<char>);

    open spec fn view(&self) -> Self::V {
        (self.child_order_id@, self.venue, self.external_order_id@, self.filled_quantity, self.remaining_quantity, self.status@)
    }
}

impl Clone for StoredExternalOrder {
    fn clone(&self) -> (r: Self)
        ensures
            r@ == self@,
    {
        StoredExternalOrder {
            child_order_id: self.child_order_id.clone(),
            venue: self.venue,
            external_order_id: self.external_order_id.clone(),
            filled_quantity: self.filled_quantity,
            remaining_quantity: self.remaining_quantity,
            status: self.status.clone(),
        }
    }
}

pub open spec fn child_views(v: Seq<StoredChildOrder>) -> Seq<(Seq<char>, VenueId, Seq<char>, u64, Option<u64>, Seq<char>)> {
    v.map_values(|c: StoredChildOrder| c@)
}

pub open spec fn external_views(v: Seq<StoredExternalOrder>) -> Seq<(Seq<char>, VenueId, Seq<char>, u64, u64, Seq<char>)> {
    v.map_values(|e: StoredExternalOrder| e@)
}

/// What is kept of a parent order across restarts.
#[derive(Debug)]
pub struct StoredOrder {
    pub order: ParentOrder,
    pub lifecycle: OrderLifecycle,
    pub reservation_id: Option<String>,
    pub child_orders: Vec<StoredChildOrder>,
    pub external_orders: Vec<StoredExternalOrder>,
    pub last_error: Option<String>,
    pub created_at_ms: u64,
    pub updated_at_ms: u64,
}

impl StoredOrder {
    /// Field-by-field equality over views.
    pub open spec fn same(self, o: StoredOrder) -> bool {
        &&& self.order.same(o.order)
        &&& self.lifecycle == o.lifecycle
        &&& opt_view(self.reservation_id) == opt_view(o.reservation_id)
        &&& child_views(self.child_orders@) == child_views(o.child_orders@)
        &&& external_views(self.external_orders@) == external_views(o.external_orders@)
        &&& opt_view(self.last_error) == opt_view(o.last_error)
        &&& self.created_at_ms == o.created_at_ms
        &&& self.updated_at_ms == o.updated_at_ms
    }
}

fn clone_children(v: &Vec<StoredChildOrder>) -> (r: Vec<StoredChildOrder>)
    ensures
        child_views(r@) == child_views(v@),
{
    let mut out: Vec<StoredChildOrder> = Vec::new();
    let mut i: usize = 0;
    while i < v.len()
        invariant
            i <= v@.len(),
            child_views(out@) == child_views(v@).take(i as int),
        decreases v@.len() - i,
    {
        let c = v[i].clone();
        let ghost before = out@;
        out.push(c);
        assert(child_views(out@) =~= child_views(before).push(c@));
        assert(child_views(v@).take(i + 1) =~= child_views(v@).take(i as int).push(child_views(v@)[i as int]));
        i += 1;
    }
    assert(child_views(v@).take(v@.len() as int) =~= child_views(v@));
    out
}

fn clone_externals(v: &Vec<StoredExternalOrder>) -> (r: Vec<StoredExternalOrder>)
    ensures
        external_views(r@) == external_views(v@),
{
    let mut out: Vec<StoredExternalOrder> = Vec::new();
    let mut i: usize = 0;
    while i < v.len()
        invariant
            i <= v@.len(),
            external_views(out@) == external_views(v@).take(i as int),
        decreases v@.len() - i,
    {
        let c = v[i].clone();
        let ghost before = out@;
        out.push(c);
        assert(external_views(out@) =~= external_views(before).push(c@));
        assert(external_views(v@).take(i + 1) =~= external_views(v@).take(i as int).push(external_views(v@)[i as int]));
        i += 1;
    }
    assert(external_views(v@).take(v@.len() as int) =~= external_views(v@));
    out
}

impl Clone for StoredOrder {
    fn clone(&self) -> (r: Self)
        ensures
            r.same(*self),
    {
        StoredOrder {
            order: self.order.clone(),
            lifecycle: self.lifecycle,
            reservation_id: clone_opt_string(&self.reservation_id),
            child_orders: clone_children(&self.child_orders),
            external_orders: clone_externals(&self.external_orders),
            last_error: clone_opt_string(&self.last_error),
            created_at_ms: self.created_at_ms,
            updated_at_ms: self.updated_at_ms,
        }
    }
}

/// The `Debug` name of a child order status.
pub open spec fn child_status_name(s: ChildOrderStatus) -> Seq<char> {
    match s {
        ChildOrderStatus::Pending => "Pending"@,
        ChildOrderStatus::Submitted => "Submitted"@,
        ChildOrderStatus::Open => "Open"@,
        ChildOrderStatus::PartiallyFilled => "PartiallyFilled"@,
        ChildOrderStatus::Filled => "Filled"@,
        ChildOrderStatus::Cancelled => "Cancelled"@,
        ChildOrderStatus::Rejected => "Rejected"@,
    }
}

/// The `Debug` name of an execution status.
pub open spec fn execution_status_name(s: ExecutionStatus) -> Seq<char> {
    match s {
        ExecutionStatus::Pending => "Pending"@,
        ExecutionStatus::Submitted => "Submitted"@,
        ExecutionStatus::Open => "Open"@,
        ExecutionStatus::PartiallyFilled => "PartiallyFilled"@,
        ExecutionStatus::Filled => "Filled"@,
        ExecutionStatus::Cancelled => "Cancelled"@,
        ExecutionStatus::Rejected => "Rejected"@,
        ExecutionStatus::Failed => "Failed"@,
    }
}

fn child_status_text(s: ChildOrderStatus) -> (r: &'static str)
    ensures
        r@ == child_status_name(s),
{
    match s {
        ChildOrderStatus::Pending => "Pending",
        ChildOrderStatus::Submitted => "Submitted",
        ChildOrderStatus::Open => "Open",
        ChildOrderStatus::PartiallyFilled => "PartiallyFilled",
        ChildOrderStatus::Filled => "Filled",
        ChildOrderStatus::Cancelled => "Cancelled",
        ChildOrderStatus::Rejected => "Rejected",
    }
}

fn execution_status_text(s: ExecutionStatus) -> (r: &'static str)
    ensures
        r@ == execution_status_name(s),
{
    match s {
        ExecutionStatus::Pending => "Pending",
        ExecutionStatus::Submitted => "Submitted",
        ExecutionStatus::Open => "Open",
        ExecutionStatus::PartiallyFilled => "PartiallyFilled",
        ExecutionStatus::Filled => "Filled",
        ExecutionStatus::Cancelled => "Cancelled",
        ExecutionStatus::Rejected => "Rejected",
        ExecutionStatus::Failed => "Failed",
    }
}

/// What is kept of a planned child order.
pub open spec fn stored_child_view(c: ChildOrder) -> (Seq<char>, VenueId, Seq<char>, u64, Option<u64>, Seq<char>) {
    (c.id@, c.venue, c.client_order_id@, c.quantity, c.price, child_status_name(c.status))
}

/// What is kept of the executions that reached a venue (those with an external id).
pub open spec fn stored_externals(execs: Seq<Execution>) -> Seq<(Seq<char>, VenueId, Seq<char>, u64, u64, Seq<char>)>
    decreases execs.len(),
{
    if execs.len() == 0 {
        Seq::empty()
    } else {
        let prev = stored_externals(execs.drop_last());
        let e = execs.last();
        match e.external_order_id {
            Some(x) => prev.push((e.child_order_id@, e.venue, x@, e.filled_quantity, e.remaining_quantity, execution_status_name(e.status))),
            None => prev,
        }
    }
}

pub open spec fn reconcilable_lifecycle(l: OrderLifecycle) -> bool {
    l == OrderLifecycle::Executing || l == OrderLifecycle::Aggregated || l == OrderLifecycle::Failed
}

/// `o` is the record of the managed order `m`, its times aside.
pub open spec fn managed_record(o: StoredOrder, m: ManagedOrder) -> bool {
    &&& o.order.same(m.order)
    &&& o.lifecycle == m.lifecycle
    &&& opt_view(o.reservation_id) == match m.reservation_id {
        Some(id) => Some(id@),
        None => None::<Seq<char>>,
    }
    &&& child_views(o.child_orders@) == match m.execution_plan {
        Some(plan) => plan.children@.map_values(|c: ChildOrder| stored_child_view(c)),
        None => Seq::empty(),
    }
    &&& external_views(o.external_orders@) == stored_externals(m.executions@)
    &&& o.last_error is None
    &&& o.created_at_ms == m.order.timestamp_ms
}

impl StoredOrder {
    /// The record of a managed order, stamped with the current time.
    pub fn from_managed(managed: &ManagedOrder) -> (r: Self)
        ensures
            r.order.same(managed.order),
            r.lifecycle == managed.lifecycle,
            opt_view(r.reservation_id) == match managed.reservation_id {
                Some(id) => Some(id@),
                None => None::<Seq<char>>,
            },
            child_views(r.child_orders@) == match managed.execution_plan {
                Some(plan) => plan.children@.map_values(|c: ChildOrder| stored_child_view(c)),
                None => Seq::empty(),
            },
            external_views(r.external_orders@) == stored_externals(managed.executions@),
            r.last_error is None,
            r.created_at_ms == managed.order.timestamp_ms,
            managed_record(r, *managed),
    {
        let mut child_orders: Vec<StoredChildOrder> = Vec::new();
        match &managed.execution_plan {
            Some(plan) => {
                let ghost target = plan.children@.map_values(|c: ChildOrder| stored_child_view(c));
                let mut i: usize = 0;
                while i < plan.children.len()
                    invariant
                        i <= plan.children@.len(),
                        target == plan.children@.map_values(|c: ChildOrder| stored_child_view(c)),
                        child_views(child_orders@) == target.take(i as int),
                    decreases plan.children@.len() - i,
                {
                    let child = &plan.children[i];
                    let status = child_status_text(child.status).to_string();
                    let stored = StoredChildOrder {
                        child_order_id: child.id.clone(),
                        venue: child.venue,
                        client_order_id: child.client_order_id.clone(),
                        quantity: child.quantity,
                        price: child.price,
                        status,
                    };
                    let ghost before = child_orders@;
                    child_orders.push(stored);
                    assert(child_views(child_orders@) =~= child_views(before).push(stored@));
                    assert(target.take(i + 1) =~= target.take(i as int).push(target[i as int]));
                    i += 1;
                }
                assert(target.take(plan.children@.len() as int) =~= target);
            },
            None => {
                assert(child_views(child_orders@) =~= Seq::empty());
            },
        }
        let mut external_orders: Vec<StoredExternalOrder> = Vec::new();
        let mut k: usize = 0;
        while k < managed.executions.len()
            invariant
                k <= managed.executions@.len(),
                external_views(external_orders@) == stored_externals(managed.executions@.take(k as int)),
            decreases managed.executions@.len() - k,
        {
            let e = &managed.executions[k];
            assert(managed.executions@.take(k + 1).drop_last() =~= managed.executions@.take(k as int));
            if let Some(x) = &e.external_order_id {
                let stored = StoredExternalOrder {
                    child_order_id: e.child_order_id.clone(),
                    venue: e.venue,
                    external_order_id: x.clone(),
                    filled_quantity: e.filled_quantity,
                    remaining_quantity: e.remaining_quantity,
                    status: execution_status_text(e.status).to_string(),
                };
                let ghost before = external_orders@;
                external_orders.push(stored);
                assert(external_views(external_orders@) =~= external_views(before).push(stored@));
            }
            k += 1;
        }
        assert(managed.executions@.take(managed.executions@.len() as int) =~= managed.executions@);
        let reservation_id = match &managed.reservation_id {
            Some(id) => Some(id.as_str().to_string()),
            None => None,
        };
        StoredOrder {
            order: managed.order.clone(),
            lifecycle: managed.lifecycle,
            reservation_id,
            child_orders,
            external_orders,
            last_error: None,
            created_at_ms: managed.order.timestamp_ms,
            updated_at_ms: now_ms(),
        }
    }

    /// Whether reconciliation should look at this order: it reached execution and
    /// some child has an external order.
    pub fn is_reconcilable(&self) -> (r: bool)
        ensures
            r == (reconcilable_lifecycle(self.lifecycle) && self.external_orders@.len() > 0),
    {
        let in_flight = match self.lifecycle {
            OrderLifecycle::Executing | OrderLifecycle::Aggregated | OrderLifecycle::Failed => true,
            _ => false,
        };
        in_flight && self.external_orders.len() > 0
    }
}

// ---------------------------------------------------------------------------
// The in-memory store.
// ---------------------------------------------------------------------------

/// No two records share an order id.
pub open spec fn ids_unique(s: Seq<StoredOrder>) -> bool {
    forall|i: int, j: int| 0 <= i < j < s.len() ==> (#[trigger] s[i]).order.id@ != (#[trigger] s[j]).order.id@
}

/// Whether some record has this id.
pub open spec fn has_order(s: Seq<StoredOrder>, id: Seq<char>) -> bool {
    exists|i: int| 0 <= i < s.len() && s[i].order.id@ == id
}

/// The position of the record with this id.
pub open spec fn order_index(s: Seq<StoredOrder>, id: Seq<char>) -> int {
    choose|i: int| 0 <= i < s.len() && s[i].order.id@ == id
}

/// The records after storing `o`: it replaces the record with its id, or is appended.
pub open spec fn stored_with(s: Seq<StoredOrder>, o: StoredOrder) -> Seq<StoredOrder> {
    if has_order(s, o.order.id@) { s.update(order_index(s, o.order.id@), o) } else { s.push(o) }
}

/// Storing a record into records with distinct ids keeps the ids distinct;
/// looking its id up afterwards finds exactly that record, and every other
/// id finds what it found before.
pub proof fn lemma_store_then_find(s: Seq<StoredOrder>, o: StoredOrder, id: Seq<char>)
    requires
        ids_unique(s),
    ensures
        ids_unique(stored_with(s, o)),
        has_order(stored_with(s, o), o.order.id@),
        stored_with(s, o)[order_index(stored_with(s, o), o.order.id@)] == o,
        id != o.order.id@ ==> (has_order(stored_with(s, o), id) <==> has_order(s, id)),
        id != o.order.id@ && has_order(s, id) ==> stored_with(s, o)[order_index(stored_with(s, o), id)] == s[order_index(s, id)],
{
    let t = stored_with(s, o);
    if has_order(s, o.order.id@) {
        let k = order_index(s, o.order.id@);
        assert forall|a: int, b: int| 0 <= a < b < t.len() implies (#[trigger] t[a]).order.id@ != (#[trigger] t[b]).order.id@ by {
            assert(s[a].order.id@ != s[b].order.id@);
        }
    } else {
        assert forall|a: int, b: int| 0 <= a < b < t.len() implies (#[trigger] t[a]).order.id@ != (#[trigger] t[b]).order.id@ by {
            if b == s.len() {
                assert(!(s[a].order.id@ == o.order.id@));
            } else {
                assert(s[a].order.id@ != s[b].order.id@);
            }
        }
        assert(t[s.len() as int].order.id@ == o.order.id@);
    }
    let j = order_index(t, o.order.id@);
    assert(t[j] == o) by {
        if has_order(s, o.order.id@) {
            let k = order_index(s, o.order.id@);
            assert(t[k].order.id@ == o.order.id@);
            if j != k {
                assert(t[j].order.id@ != t[k].order.id@);
            }
        } else {
            let n = s.len() as int;
            assert(t[n].order.id@ == o.order.id@);
            if j != n {
                assert(t[j].order.id@ != t[n].order.id@);
            }
        }
    }
    if id != o.order.id@ {
        if has_order(s, id) {
            let k = order_index(s, id);
            assert(t[k].order.id@ == id);
            let j2 = order_index(t, id);
            if j2 != k {
                assert(t[j2].order.id@ != t[k].order.id@);
            }
        }
        if has_order(t, id) {
            let j2 = order_index(t, id);
            assert(s[j2].order.id@ == id);
        }
    }
}

/// Removing a record keeps the ids distinct.
proof fn lemma_remove_unique(s: Seq<StoredOrder>, i: int)
    requires
        ids_unique(s),
        0 <= i < s.len(),
    ensures
        ids_unique(s.remove(i)),
{
    let t = s.remove(i);
    assert forall|a: int, b: int| 0 <= a < b < t.len() implies (#[trigger] t[a]).order.id@ != (#[trigger] t[b]).order.id@ by {
        if a < i {
            if b < i {
                assert(s[a].order.id@ != s[b].order.id@);
            } else {
                assert(s[a].order.id@ != s[b + 1].order.id@);
            }
        } else {
            assert(s[a + 1].order.id@ != s[b + 1].order.id@);
        }
    }
}

/// Replacing a record by one with the same id keeps the ids distinct.
proof fn lemma_replace_unique(s: Seq<StoredOrder>, i: int, o: StoredOrder)
    requires
        ids_unique(s),
        0 <= i < s.len(),
        o.order.id@ == s[i].order.id@,
    ensures
        ids_unique(s.update(i, o)),
{
    let t = s.update(i, o);
    assert forall|a: int, b: int| 0 <= a < b < t.len() implies (#[trigger] t[a]).order.id@ != (#[trigger] t[b]).order.id@ by {
        assert(s[a].order.id@ != s[b].order.id@);
    }
}

/// Orders kept in memory, one record per order id, in the order first stored.
pub struct MemoryOrderStore {
    orders: Vec<StoredOrder>,
}

impl MemoryOrderStore {
    #[verifier::type_invariant]
    closed spec fn unique(&self) -> bool {
        ids_unique(self.orders@)
    }

    pub closed spec fn records(&self) -> Seq<StoredOrder> {
        self.orders@
    }

    pub fn new() -> (r: Self)
        ensures
            r.records() == Seq::<StoredOrder>::empty(),
    {
        MemoryOrderStore { orders: Vec::new() }
    }

    fn position(&self, id: &OrderId) -> (r: Option<usize>)
        ensures
            r is None <==> !has_order(self.records(), id@),
            r matches Some(i) ==> i < self.records().len() && i == order_index(self.records(), id@),
    {
        proof {
            use_type_invariant(self);
        }
        let mut i: usize = 0;
        while i < self.orders.len()
            invariant
                i <= self.orders@.len(),
                ids_unique(self.orders@),
                forall|k: int| 0 <= k < i ==> self.orders@[k].order.id@ != id@,
            decreases self.orders@.len() - i,
        {
            if self.orders[i].order.id.same_as(id) {
                proof {
                    let c = order_index(self.orders@, id@);
                    assert(self.orders@[i as int].order.id@ == id@);
                    assert(c == i) by {
                        if c != i as int {
                            assert(self.orders@[c].order.id@ != self.orders@[i as int].order.id@);
                        }
                    }
                }
                return Some(i);
            }
            i += 1;
        }
        None
    }

    /// Stores a record, replacing the one with its order id.
    pub fn put(&mut self, order: StoredOrder)
        ensures
            final(self).records() == stored_with(old(self).records(), order),
    {
        proof {
            use_type_invariant(&*self);
        }
        let ghost before = self.orders@;
        match self.position(&order.order.id) {
            Some(i) => {
                let ghost o = order;
                let mut orders = Vec::new();
                std::mem::swap(&mut orders, &mut self.orders);
                orders.set(i, order);
                proof {
                    assert forall|a: int, b: int| 0 <= a < b < orders@.len()
                        implies (#[trigger] orders@[a]).order.id@ != (#[trigger] orders@[b]).order.id@ by {
                        assert(before[a].order.id@ != before[b].order.id@);
                    }
                }
                self.orders = orders;
            },
            None => {
                let mut orders = Vec::new();
                std::mem::swap(&mut orders, &mut self.orders);
                orders.push(order);
                proof {
                    assert forall|a: int, b: int| 0 <= a < b < orders@.len()
                        implies (#[trigger] orders@[a]).order.id@ != (#[trigger] orders@[b]).order.id@ by {
                        if b == before.len() {
                            assert(!(before[a].order.id@ == orders@[b].order.id@));
                        } else {
                            assert(before[a].order.id@ != before[b].order.id@);
                        }
                    }
                }
                self.orders = orders;
            },
        }
    }

    /// A copy of the record with this id.
    pub fn find(&self, id: &OrderId) -> (r: Option<StoredOrder>)
        ensures
            r is Some <==> has_order(self.records(), id@),
            r matches Some(o) ==> o.same(self.records()[order_index(self.records(), id@)]),
    {
        match self.position(id) {
            Some(i) => Some(self.orders[i].clone()),
            None => None,
        }
    }

    /// Removes the record with this id and hands it back.
    pub fn take(&mut self, id: &OrderId) -> (r: Option<StoredOrder>)
        ensures
            r is Some <==> has_order(old(self).records(), id@),
            r is None ==> final(self).records() == old(self).records(),
            r matches Some(o) ==> {
                &&& o == old(self).records()[order_index(old(self).records(), id@)]
                &&& final(self).records() == old(self).records().remove(order_index(old(self).records(), id@))
            },
    {
        proof {
            use_type_invariant(&*self);
        }
        let ghost before = self.orders@;
        match self.position(id) {
            Some(i) => {
                let mut orders = Vec::new();
                std::mem::swap(&mut orders, &mut self.orders);
                let o = orders.remove(i);
                proof {
                    assert forall|a: int, b: int| 0 <= a < b < orders@.len()
                        implies (#[trigger] orders@[a]).order.id@ != (#[trigger] orders@[b]).order.id@ by {
                        if a < i {
                            if b < i {
                                assert(before[a].order.id@ != before[b].order.id@);
                            } else {
                                assert(before[a].order.id@ != before[b + 1].order.id@);
                            }
                        } else {
                            assert(before[a + 1].order.id@ != before[b + 1].order.id@);
                        }
                    }
                }
                self.orders = orders;
                Some(o)
            },
            None => None,
        }
    }

    /// Copies of every record, in store order.
    pub fn copies(&self) -> (r: Vec<StoredOrder>)
        ensures
            r@.len() == self.records().len(),
            forall|i: int| 0 <= i < r@.len() ==> (#[trigger] r@[i]).same(self.records()[i]),
    {
        let mut out: Vec<StoredOrder> = Vec::new();
        let mut i: usize = 0;
        while i < self.orders.len()
            invariant
                i <= self.orders@.len(),
                out@.len() == i,
                forall|k: int| 0 <= k < i ==> (#[trigger] out@[k]).same(self.orders@[k]),
            decreases self.orders@.len() - i,
        {
            out.push(self.orders[i].clone());
            i += 1;
        }
        out
    }

    /// Copies of the records reconciliation should look at, in store order.
    pub fn reconcilable(&self) -> (r: Vec<StoredOrder>)
        ensures
            forall|i: int| 0 <= i < r@.len() ==> (#[trigger] r@[i]).is_reconcilable_spec(),
            r@.len() == reconcilable_count(self.records()),
            r@.len() == reconcilable_of(self.records()).len(),
            forall|i: int| 0 <= i < r@.len() ==> (#[trigger] r@[i]).same(reconcilable_of(self.records())[i]),
    {
        let mut out: Vec<StoredOrder> = Vec::new();
        let mut i: usize = 0;
        while i < self.orders.len()
            invariant
                i <= self.orders@.len(),
                out@.len() == reconcilable_count(self.orders@.take(i as int)),
                out@.len() == reconcilable_of(self.orders@.take(i as int)).len(),
                forall|k: int| 0 <= k < out@.len() ==> (#[trigger] out@[k]).is_reconcilable_spec(),
                forall|k: int| 0 <= k < out@.len() ==> (#[trigger] out@[k]).same(reconcilable_of(self.orders@.take(i as int))[k]),
            decreases self.orders@.len() - i,
        {
            assert(self.orders@.take(i + 1).drop_last() =~= self.orders@.take(i as int));
            assert(self.orders@.take(i + 1).last() == self.orders@[i as int]);
            if self.orders[i].is_reconcilable() {
                let c = self.orders[i].clone();
                assert(external_views(c.external_orders@).len() == c.external_orders@.len());
                assert(external_views(self.orders@[i as int].external_orders@).len() == self.orders@[i as int].external_orders@.len());
                let ghost before = out@;
                out.push(c);
                assert(forall|k: int| 0 <= k < before.len() ==> out@[k] == before[k]);
            }
            i += 1;
        }
        assert(self.orders@.take(self.orders@.len() as int) =~= self.orders@);
        out
    }
}

impl StoredOrder {
    pub open spec fn is_reconcilable_spec(self) -> bool {
        reconcilable_lifecycle(self.lifecycle) && self.external_orders@.len() > 0
    }
}

/// The records reconciliation should look at, in store order.
pub open spec fn reconcilable_of(s: Seq<StoredOrder>) -> Seq<StoredOrder>
    decreases s.len(),
{
    if s.len() == 0 {
        Seq::empty()
    } else if s.last().is_reconcilable_spec() {
        reconcilable_of(s.drop_last()).push(s.last())
    } else {
        reconcilable_of(s.drop_last())
    }
}

pub open spec fn reconcilable_count(s: Seq<StoredOrder>) -> nat
    decreases s.len(),
{
    if s.len() == 0 {
        0
    } else {
        reconcilable_count(s.drop_last()) + if s.last().is_reconcilable_spec() { 1nat } else { 0nat }
    }
}

impl Default for MemoryOrderStore {
    fn default() -> (r: Self)
        ensures
            r.records() == Seq::<StoredOrder>::empty(),
    {
        Self::new()
    }
}

/// Where order records are kept; implemented in memory here, and on disk by
/// an append-only journal. `records` is what a backend holds, one record per
/// order id; a failed call leaves it as it was.
pub trait OrderStoreBackend {
    spec fn records(&self) -> Seq<StoredOrder>;

    /// Whether every call succeeds (so for a store kept in memory only).
    spec fn infallible(&self) -> bool;

    fn insert(&mut self, order: StoredOrder) -> (r: Result<(), OrderStoreError>)
        ensures
            old(self).infallible() ==> r is Ok,
            final(self).infallible() == old(self).infallible(),
            r is Ok ==> final(self).records() == stored_with(old(self).records(), order),
            r is Err ==> final(self).records() == old(self).records();

    fn get(&self, order_id: &OrderId) -> (r: Result<Option<StoredOrder>, OrderStoreError>)
        ensures
            self.infallible() ==> r is Ok,
            r matches Ok(found) ==> (found is Some <==> has_order(self.records(), order_id@)),
            r matches Ok(Some(o)) ==> o.same(self.records()[order_index(self.records(), order_id@)]);

    fn update(&mut self, order: StoredOrder) -> (r: Result<(), OrderStoreError>)
        ensures
            old(self).infallible() ==> r is Ok,
            final(self).infallible() == old(self).infallible(),
            r is Ok ==> final(self).records() == stored_with(old(self).records(), order),
            r is Err ==> final(self).records() == old(self).records();

    fn remove(&mut self, order_id: &OrderId) -> (r: Result<Option<StoredOrder>, OrderStoreError>)
        ensures
            old(self).infallible() ==> r is Ok,
            final(self).infallible() == old(self).infallible(),
            r matches Ok(found) ==> (found is Some <==> has_order(old(self).records(), order_id@)),
            r matches Ok(Some(o)) ==> final(self).records() == old(self).records().remove(order_index(old(self).records(), order_id@)),
            !(r matches Ok(Some(_))) ==> final(self).records() == old(self).records();

    fn all(&self) -> (r: Result<Vec<StoredOrder>, OrderStoreError>)
        ensures
            self.infallible() ==> r is Ok,
            r matches Ok(v) ==> v@.len() == self.records().len(),
            r matches Ok(v) ==> forall|i: int| 0 <= i < v@.len() ==> (#[trigger] v@[i]).same(self.records()[i]);

    fn pending_reconciliation(&self) -> (r: Result<Vec<StoredOrder>, OrderStoreError>)
        ensures
            self.infallible() ==> r is Ok,
            r matches Ok(v) ==> v@.len() == reconcilable_count(self.records()),
            r matches Ok(v) ==> v@.len() == reconcilable_of(self.records()).len(),
            r matches Ok(v) ==> forall|i: int| 0 <= i < v@.len() ==> (#[trigger] v@[i]).same(reconcilable_of(self.records())[i]),
            r matches Ok(v) ==> forall|i: int| 0 <= i < v@.len() ==> (#[trigger] v@[i]).is_reconcilable_spec();
}

impl OrderStoreBackend for MemoryOrderStore {
    closed spec fn records(&self) -> Seq<StoredOrder> {
        self.orders@
    }

    open spec fn infallible(&self) -> bool {
        true
    }

    fn insert(&mut self, order: StoredOrder) -> (r: Result<(), OrderStoreError>)
        ensures
            r is Ok,
    {
        self.put(order);
        Ok(())
    }

    fn get(&self, order_id: &OrderId) -> (r: Result<Option<StoredOrder>, OrderStoreError>)
        ensures
            r is Ok,
    {
        Ok(self.find(order_id))
    }

    fn update(&mut self, order: StoredOrder) -> (r: Result<(), OrderStoreError>)
        ensures
            r is Ok,
    {
        self.put(order);
        Ok(())
    }

    fn remove(&mut self, order_id: &OrderId) -> (r: Result<Option<StoredOrder>, OrderStoreError>)
        ensures
            r is Ok,
    {
        Ok(self.take(order_id))
    }

    fn all(&self) -> (r: Result<Vec<StoredOrder>, OrderStoreError>)
        ensures
            r is Ok,
    {
        Ok(self.copies())
    }

    fn pending_reconciliation(&self) -> (r: Result<Vec<StoredOrder>, OrderStoreError>)
        ensures
            r is Ok,
    {
        Ok(self.reconcilable())
    }
}

// ---------------------------------------------------------------------------
// The journalled store.
// ---------------------------------------------------------------------------

/// Where a journalled store writes its record lines (a file, for the node).
pub trait OrderJournal {
    /// Appends one record line durably.
    fn append(&mut self, line: &str) -> Result<(), OrderStoreError>;
}

/// Orders kept in memory and journalled: every change is appended to the
/// journal first, and applied in memory only once the journal took it.
pub struct JournaledOrderStore<J: OrderJournal> {
    journal: J,
    orders: MemoryOrderStore,
}

impl<J: OrderJournal> JournaledOrderStore<J> {
    /// A store over a journal, holding the records replayed from it.
    pub fn new(journal: J, orders: MemoryOrderStore) -> (r: Self)
        ensures
            OrderStoreBackend::records(&r) == orders.records(),
    {
        JournaledOrderStore { journal, orders }
    }
}

impl<J: OrderJournal> OrderStoreBackend for JournaledOrderStore<J> {
    closed spec fn records(&self) -> Seq<StoredOrder> {
        self.orders.records()
    }

    /// A journal write can fail.
    open spec fn infallible(&self) -> bool {
        false
    }

    fn insert(&mut self, order: StoredOrder) -> (r: Result<(), OrderStoreError>) {
        let line = encode_order("I", &order);
        match self.journal.append(line.as_str()) {
            Ok(()) => {
                self.orders.put(order);
                Ok(())
            },
            Err(e) => Err(e),
        }
    }

    fn get(&self, order_id: &OrderId) -> (r: Result<Option<StoredOrder>, OrderStoreError>)
        ensures
            r is Ok,
    {
        Ok(self.orders.find(order_id))
    }

    fn update(&mut self, order: StoredOrder) -> (r: Result<(), OrderStoreError>) {
        let line = encode_order("U", &order);
        match self.journal.append(line.as_str()) {
            Ok(()) => {
                self.orders.put(order);
                Ok(())
            },
            Err(e) => Err(e),
        }
    }

    fn remove(&mut self, order_id: &OrderId) -> (r: Result<Option<StoredOrder>, OrderStoreError>) {
        let line = encode_delete(order_id);
        match self.journal.append(line.as_str()) {
            Ok(()) => Ok(self.orders.take(order_id)),
            Err(e) => Err(e),
        }
    }

    fn all(&self) -> (r: Result<Vec<StoredOrder>, OrderStoreError>)
        ensures
            r is Ok,
    {
        Ok(self.orders.copies())
    }

    fn pending_reconciliation(&self) -> (r: Result<Vec<StoredOrder>, OrderStoreError>)
        ensures
            r is Ok,
    {
        Ok(self.orders.reconcilable())
    }
}

// ---------------------------------------------------------------------------
// The store front.
// ---------------------------------------------------------------------------

/// The backend behind an order store: records in memory, or any other backend.
pub enum StoreBackend {
    Memory(MemoryOrderStore),
    Other(Box<dyn OrderStoreBackend>),
}

impl OrderStoreBackend for StoreBackend {
    closed spec fn records(&self) -> Seq<StoredOrder> {
        match self {
            StoreBackend::Memory(m) => OrderStoreBackend::records(m),
            StoreBackend::Other(b) => b.records(),
        }
    }

    closed spec fn infallible(&self) -> bool {
        match self {
            StoreBackend::Memory(m) => true,
            StoreBackend::Other(b) => b.infallible(),
        }
    }

    fn insert(&mut self, order: StoredOrder) -> (r: Result<(), OrderStoreError>) {
        match self {
            StoreBackend::Memory(m) => m.insert(order),
            StoreBackend::Other(b) => b.insert(order),
        }
    }

    fn get(&self, order_id: &OrderId) -> (r: Result<Option<StoredOrder>, OrderStoreError>) {
        match self {
            StoreBackend::Memory(m) => m.get(order_id),
            StoreBackend::Other(b) => b.get(order_id),
        }
    }

    fn update(&mut self, order: StoredOrder) -> (r: Result<(), OrderStoreError>) {
        match self {
            StoreBackend::Memory(m) => m.update(order),
            StoreBackend::Other(b) => b.update(order),
        }
    }

    fn remove(&mut self, order_id: &OrderId) -> (r: Result<Option<StoredOrder>, OrderStoreError>) {
        match self {
            StoreBackend::Memory(m) => OrderStoreBackend::remove(m, order_id),
            StoreBackend::Other(b) => b.remove(order_id),
        }
    }

    fn all(&self) -> (r: Result<Vec<StoredOrder>, OrderStoreError>) {
        match self {
            StoreBackend::Memory(m) => m.all(),
            StoreBackend::Other(b) => b.all(),
        }
    }

    fn pending_reconciliation(&self) -> (r: Result<Vec<StoredOrder>, OrderStoreError>) {
        match self {
            StoreBackend::Memory(m) => m.pending_reconciliation(),
            StoreBackend::Other(b) => b.pending_reconciliation(),
        }
    }
}

/// The order store the engine uses, over any backend.
pub struct OrderStore {
    backend: StoreBackend,
}

/// The record with its lifecycle replaced and its update time set.
pub open spec fn with_lifecycle(o: StoredOrder, lifecycle: OrderLifecycle, now: u64) -> StoredOrder {
    StoredOrder { lifecycle: lifecycle, updated_at_ms: now, ..o }
}

/// `n` is `o` with its last error set to `error` (its update time aside).
pub open spec fn error_set(n: StoredOrder, o: StoredOrder, error: Seq<char>) -> bool {
    &&& n.order.same(o.order)
    &&& n.lifecycle == o.lifecycle
    &&& opt_view(n.reservation_id) == opt_view(o.reservation_id)
    &&& child_views(n.child_orders@) == child_views(o.child_orders@)
    &&& external_views(n.external_orders@) == external_views(o.external_orders@)
    &&& opt_view(n.last_error) == Some(error)
    &&& n.created_at_ms == o.created_at_ms
}

impl OrderStore {
    /// The records the backend holds.
    pub closed spec fn records(&self) -> Seq<StoredOrder> {
        self.backend.records()
    }

    /// Whether every call on the backend succeeds (a store kept in memory).
    pub closed spec fn infallible(&self) -> bool {
        self.backend.infallible()
    }

    /// One record per order id.
    pub open spec fn wf(&self) -> bool {
        ids_unique(self.records())
    }

    /// A store that keeps records in memory.
    pub fn memory() -> (r: Self)
        ensures
            r.records() == Seq::<StoredOrder>::empty(),
            r.wf(),
            r.infallible(),
    {
        let m = MemoryOrderStore::new();
        assert(OrderStoreBackend::records(&m) == m.records());
        OrderStore { backend: StoreBackend::Memory(m) }
    }

    /// A store over the given backend, boxed as a trait object.
    pub fn with_backend<B: OrderStoreBackend + 'static>(backend: B) -> (r: Self) {
        let boxed: Box<dyn OrderStoreBackend> = Box::new(backend);
        OrderStore { backend: StoreBackend::Other(boxed) }
    }

    pub fn insert(&mut self, order: StoredOrder) -> (r: Result<(), OrderStoreError>)
        ensures
            final(self).infallible() == old(self).infallible(),
            old(self).infallible() ==> r is Ok,
            r is Ok ==> final(self).records() == stored_with(old(self).records(), order),
            r is Err ==> final(self).records() == old(self).records(),
            old(self).wf() ==> final(self).wf(),
    {
        let ghost o = order;
        let r = self.backend.insert(order);
        proof {
            if old(self).wf() {
                lemma_store_then_find(old(self).records(), o, o.order.id@);
            }
        }
        r
    }

    /// Stores the record of a managed order; with one record per id, looking
    /// the order up afterwards finds that record.
    pub fn save_managed(&mut self, managed: &ManagedOrder) -> (r: Result<(), OrderStoreError>)
        ensures
            final(self).infallible() == old(self).infallible(),
            old(self).infallible() ==> r is Ok,
            r is Ok ==> exists|o: StoredOrder| #[trigger] managed_record(o, *managed)
                && final(self).records() == stored_with(old(self).records(), o),
            r is Ok && old(self).wf() ==> has_order(final(self).records(), managed.order.id@)
                && managed_record(final(self).records()[order_index(final(self).records(), managed.order.id@)], *managed),
            r is Err ==> final(self).records() == old(self).records(),
            old(self).wf() ==> final(self).wf(),
    {
        let record = StoredOrder::from_managed(managed);
        let ghost o = record;
        let r = self.insert(record);
        proof {
            if old(self).wf() {
                lemma_store_then_find(old(self).records(), o, o.order.id@);
            }
        }
        r
    }

    pub fn get(&self, order_id: &OrderId) -> (r: Result<Option<StoredOrder>, OrderStoreError>)
        ensures
            self.infallible() ==> r is Ok,
            r matches Ok(found) ==> (found is Some <==> has_order(self.records(), order_id@)),
            r matches Ok(Some(o)) ==> o.same(self.records()[order_index(self.records(), order_id@)]),
    {
        self.backend.get(order_id)
    }

    pub fn update(&mut self, order: StoredOrder) -> (r: Result<(), OrderStoreError>)
        ensures
            final(self).infallible() == old(self).infallible(),
            old(self).infallible() ==> r is Ok,
            r is Ok ==> final(self).records() == stored_with(old(self).records(), order),
            r is Err ==> final(self).records() == old(self).records(),
            old(self).wf() ==> final(self).wf(),
    {
        let ghost o = order;
        let r = self.backend.update(order);
        proof {
            if old(self).wf() {
                lemma_store_then_find(old(self).records(), o, o.order.id@);
            }
        }
        r
    }

    /// Sets the lifecycle of a stored order; `NotFound` when there is none.
    pub fn update_lifecycle(&mut self, order_id: &OrderId, lifecycle: OrderLifecycle) -> (r: Result<(), OrderStoreError>)
        ensures
            final(self).infallible() == old(self).infallible(),
            old(self).infallible() ==> (r is Ok <==> has_order(old(self).records(), order_id@)),
            old(self).infallible() && !has_order(old(self).records(), order_id@) ==> r matches Err(OrderStoreError::NotFound),
            r is Ok ==> has_order(old(self).records(), order_id@),
            r is Ok ==> {
                let i = order_index(old(self).records(), order_id@);
                let o = final(self).records()[i];
                &&& final(self).records() == old(self).records().update(i, o)
                &&& o.same(with_lifecycle(old(self).records()[i], lifecycle, o.updated_at_ms))
            },
            r is Err ==> final(self).records() == old(self).records(),
            old(self).wf() ==> final(self).wf(),
    {
        let mut order = match self.get(order_id)? {
            Some(o) => o,
            None => return Err(OrderStoreError::NotFound),
        };
        order.lifecycle = lifecycle;
        order.updated_at_ms = now_ms();
        let ghost o = order;
        let r = self.update(order);
        proof {
            if r is Ok {
                let i = order_index(old(self).records(), order_id@);
                assert(final(self).records()[i] == o);
                if old(self).wf() {
                    lemma_replace_unique(old(self).records(), i, o);
                }
            }
        }
        r
    }

    /// Records the last error of a stored order; `NotFound` when there is none.
    pub fn set_error(&mut self, order_id: &OrderId, error: &str) -> (r: Result<(), OrderStoreError>)
        ensures
            final(self).infallible() == old(self).infallible(),
            old(self).infallible() ==> (r is Ok <==> has_order(old(self).records(), order_id@)),
            old(self).infallible() && !has_order(old(self).records(), order_id@) ==> r matches Err(OrderStoreError::NotFound),
            r is Ok ==> has_order(old(self).records(), order_id@),
            r is Ok ==> {
                let i = order_index(old(self).records(), order_id@);
                let o = final(self).records()[i];
                &&& final(self).records() == old(self).records().update(i, o)
                &&& error_set(o, old(self).records()[i], error@)
            },
            r is Err ==> final(self).records() == old(self).records(),
            old(self).wf() ==> final(self).wf(),
    {
        let mut order = match self.get(order_id)? {
            Some(o) => o,
            None => return Err(OrderStoreError::NotFound),
        };
        order.last_error = Some(error.to_string());
        order.updated_at_ms = now_ms();
        let ghost o = order;
        let r = self.update(order);
        proof {
            if r is Ok {
                let i = order_index(old(self).records(), order_id@);
                assert(final(self).records()[i] == o);
                if old(self).wf() {
                    lemma_replace_unique(old(self).records(), i, o);
                }
            }
        }
        r
    }

    pub fn remove(&mut self, order_id: &OrderId) -> (r: Result<Option<StoredOrder>, OrderStoreError>)
        ensures
            final(self).infallible() == old(self).infallible(),
            old(self).infallible() ==> r is Ok,
            r matches Ok(found) ==> (found is Some <==> has_order(old(self).records(), order_id@)),
            r matches Ok(Some(o)) ==> final(self).records() == old(self).records().remove(order_index(old(self).records(), order_id@)),
            !(r matches Ok(Some(_))) ==> final(self).records() == old(self).records(),
            old(self).wf() ==> final(self).wf(),
    {
        let r = self.backend.remove(order_id);
        proof {
            if old(self).wf() && r matches Ok(Some(_)) {
                lemma_remove_unique(old(self).records(), order_index(old(self).records(), order_id@));
            }
        }
        r
    }

    pub fn all(&self) -> (r: Result<Vec<StoredOrder>, OrderStoreError>)
        ensures
            self.infallible() ==> r is Ok,
            r matches Ok(v) ==> v@.len() == self.records().len(),
            r matches Ok(v) ==> forall|i: int| 0 <= i < v@.len() ==> (#[trigger] v@[i]).same(self.records()[i]),
    {
        self.backend.all()
    }

    pub fn pending_reconciliation(&self) -> (r: Result<Vec<StoredOrder>, OrderStoreError>)
        ensures
            self.infallible() ==> r is Ok,
            r matches Ok(v) ==> v@.len() == reconcilable_count(self.records()),
            r matches Ok(v) ==> v@.len() == reconcilable_of(self.records()).len(),
            r matches Ok(v) ==> forall|i: int| 0 <= i < v@.len() ==> (#[trigger] v@[i]).same(reconcilable_of(self.records())[i]),
            r matches Ok(v) ==> forall|i: int| 0 <= i < v@.len() ==> (#[trigger] v@[i]).is_reconcilable_spec(),
    {
        self.backend.pending_reconciliation()
    }
}

} // verus!
