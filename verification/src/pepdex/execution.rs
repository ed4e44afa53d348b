//! Executions of child orders on venues and their tracking.
use vstd::prelude::*;
use crate::pepdex::order::{ChildOrder, OrderId};
use crate::pepdex::venue::{VenueId, VenueOrder, VenueOrderStatus};

verus! {

#[derive(Debug, Clone, Copy, PartialEq, Eq, Structural)]
pub enum ExecutionStatus {
    Pending,
    Submitted,
    Open,
    PartiallyFilled,
    Filled,
    Cancelled,
    Rejected,
    Failed,
}

pub open spec fn status_of_venue(status: VenueOrderStatus) -> ExecutionStatus {
    match status {
        VenueOrderStatus::New => ExecutionStatus::Submitted,
        VenueOrderStatus::Open => ExecutionStatus::Open,
        VenueOrderStatus::PartiallyFilled => ExecutionStatus::PartiallyFilled,
        VenueOrderStatus::Filled => ExecutionStatus::Filled,
        VenueOrderStatus::Cancelled => ExecutionStatus::Cancelled,
        VenueOrderStatus::Rejected => ExecutionStatus::Rejected,
    }
}

impl ExecutionStatus {
    pub fn from_venue_status(status: VenueOrderStatus) -> (r: Self)
        ensures
            r == status_of_venue(status),
    {
        match status {
            VenueOrderStatus::New => ExecutionStatus::Submitted,
            VenueOrderStatus::Open => ExecutionStatus::Open,
            VenueOrderStatus::PartiallyFilled => ExecutionStatus::PartiallyFilled,
            VenueOrderStatus::Filled => ExecutionStatus::Filled,
            VenueOrderStatus::Cancelled => ExecutionStatus::Cancelled,
            VenueOrderStatus::Rejected => ExecutionStatus::Rejected,
        }
    }
}

/// Copy of an optional string.
pub fn clone_opt_string(s: &Option<String>) -> (r: Option<String>)
    ensures
        r is Some <==> s is Some,
        r matches Some(v) ==> v@ == s->0@,
{
    match s {
        Some(v) => Some(v.clone()),
        None => None,
    }
}

#[derive(Debug)]
pub struct Execution {
    pub child_order_id: OrderId,
    pub parent_order_id: OrderId,
    pub venue: VenueId,
    pub requested_quantity: u64,
    pub filled_quantity: u64,
    pub remaining_quantity: u64,
    pub average_price: Option<u64>,
    /// Fee paid to the external venue.
    pub venue_fee: u64,
    pub status: ExecutionStatus,
    pub external_order_id: Option<String>,
}

/// Views of an optional string.
pub open spec fn opt_view(s: Option<String>) -> Option<Seq<char>> {
    match s {
        Some(v) => Some(v@),
        None => None,
    }
}

impl Clone for Execution {
    fn clone(&self) -> (r: Self)
        ensures
            r.same(*self),
    {
        Execution {
            child_order_id: self.child_order_id.clone(),
            parent_order_id: self.parent_order_id.clone(),
            venue: self.venue,
            requested_quantity: self.requested_quantity,
            filled_quantity: self.filled_quantity,
            remaining_quantity: self.remaining_quantity,
            average_price: self.average_price,
            venue_fee: self.venue_fee,
            status: self.status,
            external_order_id: clone_opt_string(&self.external_order_id),
        }
    }
}

impl Execution {
    /// Field-by-field equality over views.
    pub open spec fn same(self, o: Execution) -> bool {
        &&& self.child_order_id@ == o.child_order_id@
        &&& self.parent_order_id@ == o.parent_order_id@
        &&& self.venue == o.venue
        &&& self.requested_quantity == o.requested_quantity
        &&& self.filled_quantity == o.filled_quantity
        &&& self.remaining_quantity == o.remaining_quantity
        &&& self.average_price == o.average_price
        &&& self.venue_fee == o.venue_fee
        &&& self.status == o.status
        &&& opt_view(self.external_order_id) == opt_view(o.external_order_id)
    }

    /// A pending execution for a child order that has not been sent yet.
    pub fn from_child_order(child: &ChildOrder) -> (r: Self)
        ensures
            r.child_order_id@ == child.id@,
            r.parent_order_id@ == child.parent_id@,
            r.venue == child.venue,
            r.requested_quantity == child.quantity,
            r.filled_quantity == 0,
            r.remaining_quantity == child.quantity,
            r.average_price is None,
            r.venue_fee == 0,
            r.status == ExecutionStatus::Pending,
            r.external_order_id is None,
    {
        Execution {
            child_order_id: child.id.clone(),
            parent_order_id: child.parent_id.clone(),
            venue: child.venue,
            requested_quantity: child.quantity,
            filled_quantity: 0,
            remaining_quantity: child.quantity,
            average_price: None,
            venue_fee: 0,
            status: ExecutionStatus::Pending,
            external_order_id: None,
        }
    }

    /// The execution a venue reports for a child order.
    pub fn from_venue_order(child: &ChildOrder, venue_order: &VenueOrder) -> (r: Self)
        ensures
            r.child_order_id@ == child.id@,
            r.parent_order_id@ == child.parent_id@,
            r.venue == venue_order.venue,
            r.requested_quantity == venue_order.requested_quantity,
            r.filled_quantity == venue_order.filled_quantity,
            r.remaining_quantity == (if venue_order.filled_quantity <= venue_order.requested_quantity {
                venue_order.requested_quantity - venue_order.filled_quantity } else { 0 }),
            r.average_price == venue_order.average_price,
            r.venue_fee == 0,
            r.status == status_of_venue(venue_order.status),
            opt_view(r.external_order_id) == Some(venue_order.external_order_id@),
    {
        let filled = venue_order.filled_quantity;
        let requested = venue_order.requested_quantity;
        Execution {
            child_order_id: child.id.clone(),
            parent_order_id: child.parent_id.clone(),
            venue: venue_order.venue,
            requested_quantity: requested,
            filled_quantity: filled,
            remaining_quantity: requested.saturating_sub(filled),
            average_price: venue_order.average_price,
            venue_fee: 0,
            status: ExecutionStatus::from_venue_status(venue_order.status),
            external_order_id: Some(venue_order.external_order_id.clone()),
        }
    }

    pub fn is_complete(&self) -> (r: bool)
        ensures
            r == (self.status == ExecutionStatus::Filled || self.status == ExecutionStatus::Cancelled
                || self.status == ExecutionStatus::Rejected),
    {
        match self.status {
            ExecutionStatus::Filled | ExecutionStatus::Cancelled | ExecutionStatus::Rejected => true,
            _ => false,
        }
    }

    pub fn is_filled(&self) -> (r: bool)
        ensures
            r == (self.status == ExecutionStatus::Filled),
    {
        self.status == ExecutionStatus::Filled
    }

    pub fn has_remaining(&self) -> (r: bool)
        ensures
            r == (self.remaining_quantity > 0),
    {
        self.remaining_quantity > 0
    }
}

#[derive(Debug)]
pub struct ExecutionUpdate {
    pub child_order_id: OrderId,
    pub filled_quantity: u64,
    pub average_price: Option<u64>,
    pub venue_fee: u64,
    pub status: ExecutionStatus,
    pub external_order_id: Option<String>,
}

#[derive(Debug)]
pub enum ExecutionError {
    ChildOrderMismatch,
    FilledQuantityExceeded,
}

impl ExecutionUpdate {
    /// What applying the update to `e` gives, when it applies.
    pub open spec fn applied(self, e: Execution, r: Execution) -> bool {
        &&& r.child_order_id@ == e.child_order_id@
        &&& r.parent_order_id@ == e.parent_order_id@
        &&& r.venue == e.venue
        &&& r.requested_quantity == e.requested_quantity
        &&& r.filled_quantity == self.filled_quantity
        &&& r.remaining_quantity == e.requested_quantity - self.filled_quantity
        &&& r.average_price == self.average_price
        &&& r.venue_fee == self.venue_fee
        &&& r.status == self.status
        &&& opt_view(r.external_order_id) == (if self.external_order_id is Some {
                opt_view(self.external_order_id) } else { opt_view(e.external_order_id) })
    }

    /// Applies a venue update to the execution of the same child order.
    pub fn apply_to(&self, execution: &mut Execution) -> (r: Result<(), ExecutionError>)
        ensures
            old(execution).child_order_id@ != self.child_order_id@ ==> r matches Err(ExecutionError::ChildOrderMismatch),
            old(execution).child_order_id@ == self.child_order_id@ && self.filled_quantity > old(execution).requested_quantity
                ==> r matches Err(ExecutionError::FilledQuantityExceeded),
            r is Ok <==> (old(execution).child_order_id@ == self.child_order_id@
                && self.filled_quantity <= old(execution).requested_quantity),
            r is Ok ==> self.applied(*old(execution), *final(execution)),
            r is Err ==> final(execution).same(*old(execution)),
    {
        if !execution.child_order_id.same_as(&self.child_order_id) {
            return Err(ExecutionError::ChildOrderMismatch);
        }
        if self.filled_quantity > execution.requested_quantity {
            return Err(ExecutionError::FilledQuantityExceeded);
        }
        execution.filled_quantity = self.filled_quantity;
        execution.remaining_quantity = execution.requested_quantity.saturating_sub(self.filled_quantity);
        execution.average_price = self.average_price;
        execution.venue_fee = self.venue_fee;
        execution.status = self.status;
        if self.external_order_id.is_some() {
            execution.external_order_id = clone_opt_string(&self.external_order_id);
        }
        Ok(())
    }
}

/// Sums over a list of executions.
pub open spec fn sum_requested(s: Seq<Execution>) -> nat
    decreases s.len(),
{
    if s.len() == 0 { 0 } else { sum_requested(s.drop_last()) + s.last().requested_quantity as nat }
}

pub open spec fn sum_filled(s: Seq<Execution>) -> nat
    decreases s.len(),
{
    if s.len() == 0 { 0 } else { sum_filled(s.drop_last()) + s.last().filled_quantity as nat }
}

pub open spec fn sum_remaining(s: Seq<Execution>) -> nat
    decreases s.len(),
{
    if s.len() == 0 { 0 } else { sum_remaining(s.drop_last()) + s.last().remaining_quantity as nat }
}

pub open spec fn sum_fees(s: Seq<Execution>) -> nat
    decreases s.len(),
{
    if s.len() == 0 { 0 } else { sum_fees(s.drop_last()) + s.last().venue_fee as nat }
}

#[derive(Debug, Default)]
pub struct ExecutionTracker {
    executions: Vec<Execution>,
}

impl ExecutionTracker {
    pub closed spec fn view(&self) -> Seq<Execution> {
        self.executions@
    }

    pub fn new() -> (r: Self)
        ensures
            r.view().len() == 0,
    {
        ExecutionTracker { executions: Vec::new() }
    }

    pub fn add(&mut self, execution: Execution)
        ensures
            final(self).view() == old(self).view().push(execution),
    {
        self.executions.push(execution);
    }

    pub fn all(&self) -> (r: &[Execution])
        ensures
            r@ == self.view(),
    {
        self.executions.as_slice()
    }

    /// Position of the first execution of a child order.
    pub fn position(&self, child_order_id: &OrderId) -> (r: Option<usize>)
        ensures
            r is Some <==> (exists|i: int| 0 <= i < self.view().len() && self.view()[i].child_order_id@ == child_order_id@),
            r matches Some(i) ==> i < self.view().len() && self.view()[i as int].child_order_id@ == child_order_id@
                && forall|j: int| 0 <= j < i ==> self.view()[j].child_order_id@ != child_order_id@,
    {
        let mut i: usize = 0;
        while i < self.executions.len()
            invariant
                i <= self.executions@.len(),
                forall|j: int| 0 <= j < i ==> self.executions@[j].child_order_id@ != child_order_id@,
            decreases self.executions@.len() - i,
        {
            if self.executions[i].child_order_id.same_as(child_order_id) {
                return Some(i);
            }
            i += 1;
        }
        None
    }

    /// The first execution of a child order.
    pub fn get(&self, child_order_id: &OrderId) -> (r: Option<&Execution>)
        ensures
            r is Some <==> (exists|i: int| 0 <= i < self.view().len() && self.view()[i].child_order_id@ == child_order_id@),
            r matches Some(e) ==> exists|i: int| 0 <= i < self.view().len() && self.view()[i] == *e
                && e.child_order_id@ == child_order_id@
                && forall|j: int| 0 <= j < i ==> self.view()[j].child_order_id@ != child_order_id@,
    {
        match self.position(child_order_id) {
            Some(i) => Some(&self.executions[i]),
            None => None,
        }
    }

    /// The first execution of a child order, to change in place.
    pub fn get_mut(&mut self, child_order_id: &OrderId) -> (r: Option<&mut Execution>)
        ensures
            r is Some <==> (exists|i: int| 0 <= i < old(self).view().len() && old(self).view()[i].child_order_id@ == child_order_id@),
            r is None ==> final(self).view() == old(self).view(),
            r matches Some(e) ==> exists|i: int| 0 <= i < old(self).view().len()
                && old(self).view()[i] == *e
                && e.child_order_id@ == child_order_id@
                && (forall|j: int| 0 <= j < i ==> old(self).view()[j].child_order_id@ != child_order_id@)
                && final(self).view() == old(self).view().update(i, *final(e)),
    {
        match self.position(child_order_id) {
            Some(i) => Some(&mut self.executions[i]),
            None => None,
        }
    }

    /// Applies an update to the first execution of its child order.
    pub fn update(&mut self, update: ExecutionUpdate) -> (r: Result<(), ExecutionError>)
        ensures
            !(exists|i: int| 0 <= i < old(self).view().len() && old(self).view()[i].child_order_id@ == update.child_order_id@)
                ==> (r matches Err(ExecutionError::ChildOrderMismatch) && final(self).view() == old(self).view()),
            final(self).view().len() == old(self).view().len(),
            forall|i: int| 0 <= i < old(self).view().len() && old(self).view()[i].child_order_id@ == update.child_order_id@
                && (forall|j: int| 0 <= j < i ==> old(self).view()[j].child_order_id@ != update.child_order_id@) ==> {
                &&& (r is Ok <==> update.filled_quantity <= old(self).view()[i].requested_quantity)
                &&& (r is Ok ==> update.applied(old(self).view()[i], final(self).view()[i]))
                &&& (r is Err ==> final(self).view()[i].same(old(self).view()[i]))
                &&& forall|k: int| 0 <= k < old(self).view().len() && k != i ==> final(self).view()[k] == old(self).view()[k]
            },
    {
        let execution = match self.get_mut(&update.child_order_id) {
            Some(e) => e,
            None => return Err(ExecutionError::ChildOrderMismatch),
        };
        update.apply_to(execution)
    }

    /// Sum of filled quantities; the sum must fit in a `u64`.
    pub fn filled_quantity(&self) -> (r: u64)
        requires
            sum_filled(self.view()) <= u64::MAX,
        ensures
            r == sum_filled(self.view()),
    {
        let mut total: u64 = 0;
        let mut i: usize = 0;
        while i < self.executions.len()
            invariant
                i <= self.executions@.len(),
                total == sum_filled(self.executions@.take(i as int)),
                sum_filled(self.executions@) <= u64::MAX,
            decreases self.executions@.len() - i,
        {
            proof {
                assert(self.executions@.take(i + 1).drop_last() =~= self.executions@.take(i as int));
                lemma_sums_prefix(self.executions@, i + 1);
            }
            total = total + self.executions[i].filled_quantity;
            i += 1;
        }
        assert(self.executions@.take(self.executions@.len() as int) =~= self.executions@);
        total
    }

    /// Sum of requested quantities; the sum must fit in a `u64`.
    pub fn requested_quantity(&self) -> (r: u64)
        requires
            sum_requested(self.view()) <= u64::MAX,
        ensures
            r == sum_requested(self.view()),
    {
        let mut total: u64 = 0;
        let mut i: usize = 0;
        while i < self.executions.len()
            invariant
                i <= self.executions@.len(),
                total == sum_requested(self.executions@.take(i as int)),
                sum_requested(self.executions@) <= u64::MAX,
            decreases self.executions@.len() - i,
        {
            proof {
                assert(self.executions@.take(i + 1).drop_last() =~= self.executions@.take(i as int));
                lemma_sums_prefix(self.executions@, i + 1);
            }
            total = total + self.executions[i].requested_quantity;
            i += 1;
        }
        assert(self.executions@.take(self.executions@.len() as int) =~= self.executions@);
        total
    }

    /// Sum of remaining quantities; the sum must fit in a `u64`.
    pub fn remaining_quantity(&self) -> (r: u64)
        requires
            sum_remaining(self.view()) <= u64::MAX,
        ensures
            r == sum_remaining(self.view()),
    {
        let mut total: u64 = 0;
        let mut i: usize = 0;
        while i < self.executions.len()
            invariant
                i <= self.executions@.len(),
                total == sum_remaining(self.executions@.take(i as int)),
                sum_remaining(self.executions@) <= u64::MAX,
            decreases self.executions@.len() - i,
        {
            proof {
                assert(self.executions@.take(i + 1).drop_last() =~= self.executions@.take(i as int));
                lemma_sums_prefix(self.executions@, i + 1);
            }
            total = total + self.executions[i].remaining_quantity;
            i += 1;
        }
        assert(self.executions@.take(self.executions@.len() as int) =~= self.executions@);
        total
    }

    /// Sum of venue fees; the sum must fit in a `u64`.
    pub fn total_venue_fee(&self) -> (r: u64)
        requires
            sum_fees(self.view()) <= u64::MAX,
        ensures
            r == sum_fees(self.view()),
    {
        let mut total: u64 = 0;
        let mut i: usize = 0;
        while i < self.executions.len()
            invariant
                i <= self.executions@.len(),
                total == sum_fees(self.executions@.take(i as int)),
                sum_fees(self.executions@) <= u64::MAX,
            decreases self.executions@.len() - i,
        {
            proof {
                assert(self.executions@.take(i + 1).drop_last() =~= self.executions@.take(i as int));
                lemma_sums_prefix(self.executions@, i + 1);
            }
            total = total + self.executions[i].venue_fee;
            i += 1;
        }
        assert(self.executions@.take(self.executions@.len() as int) =~= self.executions@);
        total
    }

    /// Something was requested and nothing remains.
    pub fn is_fully_filled(&self) -> (r: bool)
        requires
            sum_requested(self.view()) <= u64::MAX,
            sum_remaining(self.view()) <= u64::MAX,
        ensures
            r == (sum_requested(self.view()) > 0 && sum_remaining(self.view()) == 0),
    {
        self.requested_quantity() > 0 && self.remaining_quantity() == 0
    }
}

/// Sums over a prefix never exceed sums over the whole.
pub proof fn lemma_sums_prefix(s: Seq<Execution>, k: int)
    requires
        0 <= k <= s.len(),
    ensures
        sum_requested(s.take(k)) <= sum_requested(s),
        sum_filled(s.take(k)) <= sum_filled(s),
        sum_remaining(s.take(k)) <= sum_remaining(s),
        sum_fees(s.take(k)) <= sum_fees(s),
    decreases s.len() - k,
{
    if k < s.len() {
        lemma_sums_prefix(s, k + 1);
        assert(s.take(k + 1).drop_last() =~= s.take(k));
    } else {
        assert(s.take(k) =~= s);
    }
}

} // verus!
