//! Asks venues what became of child orders and compares with what PEPDEX knew.
use vstd::prelude::*;
use crate::assoc::{keys_unique, lemma_to_map_contains, lemma_to_map_index, lemma_to_map_push, lemma_to_map_update, to_map};
use crate::pepdex::execution::{Execution, ExecutionStatus, opt_view, status_of_venue};
use crate::pepdex::order::{ChildOrder, OrderId};
use crate::pepdex::error_text::venue_error_text;
use crate::pepdex::venue::{Venue, VenueError, VenueId, VenueOrder, VenueOrderStatus};

verus! {

#[derive(Debug, Clone, Copy, PartialEq, Eq, Structural)]
pub enum ReconciliationStatus {
    Unknown,
    Pending,
    Matched,
    Updated,
    Missing,
    Conflict,
    Failed,
}

#[derive(Debug)]
pub struct ReconciliationRecord {
    pub child_order_id: OrderId,
    pub parent_order_id: OrderId,
    pub venue: VenueId,
    pub external_order_id: String,
    pub status: ReconciliationStatus,
    pub last_known_execution: Option<Execution>,
    pub attempts: u32,
    pub last_error: Option<String>,
}

/// A record as plain values: (child, parent, venue, external id, status, attempts).
pub type RecordView = (Seq<char>, Seq<char>, VenueId, Seq<char>, ReconciliationStatus, u32);

impl ReconciliationRecord {
    pub open spec fn rview(self) -> RecordView {
        (self.child_order_id@, self.parent_order_id@, self.venue, self.external_order_id@, self.status, self.attempts)
    }

    pub fn new(child: &ChildOrder, external_order_id: &str) -> (r: Self)
        ensures
            r.child_order_id@ == child.id@,
            r.parent_order_id@ == child.parent_id@,
            r.venue == child.venue,
            r.external_order_id@ == external_order_id@,
            r.status == ReconciliationStatus::Unknown,
            r.last_known_execution is None,
            r.attempts == 0,
            r.last_error is None,
    {
        ReconciliationRecord {
            child_order_id: child.id.clone(),
            parent_order_id: child.parent_id.clone(),
            venue: child.venue,
            external_order_id: external_order_id.to_string(),
            status: ReconciliationStatus::Unknown,
            last_known_execution: None,
            attempts: 0,
            last_error: None,
        }
    }
}

impl Clone for ReconciliationRecord {
    fn clone(&self) -> (r: Self)
        ensures
            r.rview() == self.rview(),
    {
        ReconciliationRecord {
            child_order_id: self.child_order_id.clone(),
            parent_order_id: self.parent_order_id.clone(),
            venue: self.venue,
            external_order_id: self.external_order_id.clone(),
            status: self.status,
            last_known_execution: match &self.last_known_execution {
                Some(e) => Some(e.clone()),
                None => None,
            },
            attempts: self.attempts,
            last_error: crate::pepdex::execution::clone_opt_string(&self.last_error),
        }
    }
}

pub open spec fn rec_entry(e: (OrderId, ReconciliationRecord)) -> (Seq<char>, RecordView) {
    (e.0@, e.1.rview())
}

pub open spec fn pending_status(s: ReconciliationStatus) -> bool {
    s == ReconciliationStatus::Unknown || s == ReconciliationStatus::Pending || s == ReconciliationStatus::Conflict
}

/// Records by child order id.
#[derive(Debug, Default)]
pub struct ReconciliationStore {
    records: Vec<(OrderId, ReconciliationRecord)>,
}

impl ReconciliationStore {
    pub closed spec fn pairs(&self) -> Seq<(Seq<char>, RecordView)> {
        self.records@.map_values(|e: (OrderId, ReconciliationRecord)| rec_entry(e))
    }

    pub closed spec fn view(&self) -> Map<Seq<char>, RecordView> {
        to_map(self.pairs())
    }

    pub closed spec fn wf(&self) -> bool {
        &&& keys_unique(self.pairs())
        &&& forall|i: int| 0 <= i < self.records@.len() ==> (#[trigger] self.records@[i]).0@ == self.records@[i].1.child_order_id@
    }

    pub fn new() -> (r: Self)
        ensures
            r.wf(),
            r.view() == Map::<Seq<char>, RecordView>::empty(),
    {
        let r = ReconciliationStore { records: Vec::new() };
        assert(r.pairs() =~= Seq::empty());
        r
    }

    fn find(&self, id: &OrderId) -> (r: Option<usize>)
        requires
            self.wf(),
        ensures
            r is None ==> !self.view().contains_key(id@),
            r matches Some(i) ==> i < self.records@.len() && self.pairs()[i as int].0 == id@
                && self.view().contains_key(id@) && self.view()[id@] == self.records@[i as int].1.rview(),
    {
        let mut i: usize = 0;
        while i < self.records.len()
            invariant
                i <= self.records@.len(),
                self.wf(),
                forall|j: int| 0 <= j < i ==> self.pairs()[j].0 != id@,
            decreases self.records@.len() - i,
        {
            assert(self.pairs()[i as int] == rec_entry(self.records@[i as int]));
            if self.records[i].0.same_as(id) {
                proof {
                    lemma_to_map_index(self.pairs(), i as int);
                }
                return Some(i);
            }
            i += 1;
        }
        proof {
            lemma_to_map_contains(self.pairs(), id@);
        }
        None
    }

    /// Stores a record under its child order id, replacing any earlier one.
    pub fn insert(&mut self, record: ReconciliationRecord)
        requires
            old(self).wf(),
        ensures
            final(self).wf(),
            final(self).view() == old(self).view().insert(record.child_order_id@, record.rview()),
    {
        let ghost before = self.pairs();
        let ghost rv = record.rview();
        let key = record.child_order_id.clone();
        match self.find(&key) {
            Some(i) => {
                self.records.set(i, (key, record));
                proof {
                    assert(self.pairs() =~= before.update(i as int, (before[i as int].0, rv)));
                    lemma_to_map_update(before, i as int, rv);
                }
            },
            None => {
                self.records.push((key, record));
                proof {
                    assert(self.pairs() =~= before.push((rv.0, rv)));
                    lemma_to_map_push(before, rv.0, rv);
                }
            },
        }
    }

    pub fn get(&self, child_order_id: &OrderId) -> (r: Option<ReconciliationRecord>)
        requires
            self.wf(),
        ensures
            r is Some <==> self.view().contains_key(child_order_id@),
            r matches Some(rec) ==> rec.rview() == self.view()[child_order_id@],
    {
        match self.find(child_order_id) {
            Some(i) => Some(self.records[i].1.clone()),
            None => None,
        }
    }

    /// Same as `insert`.
    pub fn update(&mut self, record: ReconciliationRecord)
        requires
            old(self).wf(),
        ensures
            final(self).wf(),
            final(self).view() == old(self).view().insert(record.child_order_id@, record.rview()),
    {
        self.insert(record)
    }

    /// Records still to be reconciled: unknown, pending or in conflict.
    pub fn pending(&self) -> (r: Vec<ReconciliationRecord>)
        requires
            self.wf(),
        ensures
            forall|i: int| 0 <= i < r@.len() ==> {
                &&& self.view().contains_key((#[trigger] r@[i]).child_order_id@)
                &&& self.view()[r@[i].child_order_id@] == r@[i].rview()
                &&& pending_status(r@[i].status)
            },
            forall|k: Seq<char>| #[trigger] self.view().contains_key(k) && pending_status(self.view()[k].4)
                ==> exists|i: int| 0 <= i < r@.len() && r@[i].child_order_id@ == k,
    {
        let mut out: Vec<ReconciliationRecord> = Vec::new();
        let mut i: usize = 0;
        while i < self.records.len()
            invariant
                i <= self.records@.len(),
                self.wf(),
                forall|k: int| #![trigger out@[k]] 0 <= k < out@.len() ==> exists|j: int| 0 <= j < i && #[trigger] self.pairs()[j] == (out@[k].child_order_id@, out@[k].rview())
                    && pending_status(out@[k].status),
                forall|j: int| 0 <= j < i && pending_status((#[trigger] self.pairs()[j]).1.4) ==>
                    exists|k: int| 0 <= k < out@.len() && out@[k].child_order_id@ == self.pairs()[j].0,
            decreases self.records@.len() - i,
        {
            assert(self.pairs()[i as int] == rec_entry(self.records@[i as int]));
            let rec = &self.records[i].1;
            let keep = match rec.status {
                ReconciliationStatus::Unknown | ReconciliationStatus::Pending | ReconciliationStatus::Conflict => true,
                _ => false,
            };
            if keep {
                let ghost before = out@;
                out.push(rec.clone());
                proof {
                    assert forall|j: int| 0 <= j < i + 1 && pending_status((#[trigger] self.pairs()[j]).1.4) implies
                        exists|k: int| 0 <= k < out@.len() && out@[k].child_order_id@ == self.pairs()[j].0 by {
                        if j == i {
                            assert(out@[before.len() as int].child_order_id@ == self.pairs()[j].0);
                        } else {
                            let k = choose|k: int| 0 <= k < before.len() && before[k].child_order_id@ == self.pairs()[j].0;
                            assert(out@[k] == before[k]);
                        }
                    }
                    assert forall|k: int| #![trigger out@[k]] 0 <= k < out@.len() implies exists|j: int| 0 <= j < i + 1 && #[trigger] self.pairs()[j] == (out@[k].child_order_id@, out@[k].rview())
                        && pending_status(out@[k].status) by {
                        if k == before.len() {
                            assert(self.pairs()[i as int] == (out@[k].child_order_id@, out@[k].rview()));
                        } else {
                            assert(out@[k] == before[k]);
                        }
                    }
                }
            }
            i += 1;
        }
        proof {
            assert forall|k: int| 0 <= k < out@.len() implies {
                &&& self.view().contains_key((#[trigger] out@[k]).child_order_id@)
                &&& self.view()[out@[k].child_order_id@] == out@[k].rview()
            } by {
                let j = choose|j: int| 0 <= j < self.records@.len() && #[trigger] self.pairs()[j] == (out@[k].child_order_id@, out@[k].rview());
                lemma_to_map_index(self.pairs(), j);
            }
            assert forall|k: Seq<char>| #[trigger] self.view().contains_key(k) && pending_status(self.view()[k].4)
                implies exists|i: int| 0 <= i < out@.len() && out@[i].child_order_id@ == k by {
                lemma_to_map_contains(self.pairs(), k);
                let j = choose|j: int| 0 <= j < self.pairs().len() && self.pairs()[j].0 == k;
                lemma_to_map_index(self.pairs(), j);
            }
        }
        out
    }
}

#[derive(Debug)]
pub struct ReconciliationResult {
    pub child_order_id: OrderId,
    pub parent_order_id: OrderId,
    pub venue: VenueId,
    pub external_order_id: String,
    pub status: ReconciliationStatus,
    pub execution: Execution,
}

#[derive(Debug)]
pub enum ReconciliationError {
    Venue(VenueError),
    ExternalOrderMismatch,
    InvalidExternalQuantity,
}

/// The execution a venue's report describes, for the record's child order.
pub fn normalize_external_order(external: &VenueOrder, record: &ReconciliationRecord) -> (r: Result<Execution, ReconciliationError>)
    ensures
        external.external_order_id@ != record.external_order_id@ ==> r matches Err(ReconciliationError::ExternalOrderMismatch),
        external.external_order_id@ == record.external_order_id@ && external.filled_quantity > external.requested_quantity
            ==> r matches Err(ReconciliationError::InvalidExternalQuantity),
        r is Ok <==> external.external_order_id@ == record.external_order_id@ && external.filled_quantity <= external.requested_quantity,
        r matches Ok(e) ==> {
            &&& e.child_order_id@ == record.child_order_id@
            &&& e.parent_order_id@ == record.parent_order_id@
            &&& e.venue == record.venue
            &&& e.requested_quantity == external.requested_quantity
            &&& e.filled_quantity == external.filled_quantity
            &&& e.remaining_quantity == external.requested_quantity - external.filled_quantity
            &&& e.average_price == external.average_price
            &&& e.venue_fee == 0
            &&& e.status == status_of_venue(external.status)
            &&& opt_view(e.external_order_id) == Some(external.external_order_id@)
        },
{
    if !external.external_order_id.eq(&record.external_order_id) {
        return Err(ReconciliationError::ExternalOrderMismatch);
    }
    let requested = external.requested_quantity;
    let filled = external.filled_quantity;
    if filled > requested {
        return Err(ReconciliationError::InvalidExternalQuantity);
    }
    let status = match external.status {
        VenueOrderStatus::New => ExecutionStatus::Submitted,
        VenueOrderStatus::Open => ExecutionStatus::Open,
        VenueOrderStatus::PartiallyFilled => ExecutionStatus::PartiallyFilled,
        VenueOrderStatus::Filled => ExecutionStatus::Filled,
        VenueOrderStatus::Cancelled => ExecutionStatus::Cancelled,
        VenueOrderStatus::Rejected => ExecutionStatus::Rejected,
    };
    Ok(Execution {
        child_order_id: record.child_order_id.clone(),
        parent_order_id: record.parent_order_id.clone(),
        venue: record.venue,
        requested_quantity: requested,
        filled_quantity: filled,
        remaining_quantity: requested - filled,
        average_price: external.average_price,
        venue_fee: 0,
        status,
        external_order_id: Some(external.external_order_id.clone()),
    })
}

/// How a venue's current report compares with what was known before.
pub open spec fn compared(previous: Execution, current: Execution) -> ReconciliationStatus {
    if previous.filled_quantity == current.filled_quantity && previous.status == current.status {
        ReconciliationStatus::Matched
    } else if current.filled_quantity < previous.filled_quantity {
        ReconciliationStatus::Conflict
    } else {
        ReconciliationStatus::Updated
    }
}

pub fn compare_execution(previous: &Execution, current: &Execution) -> (r: ReconciliationStatus)
    ensures
        r == compared(*previous, *current),
{
    if previous.filled_quantity == current.filled_quantity && previous.status == current.status {
        return ReconciliationStatus::Matched;
    }
    if current.filled_quantity > previous.filled_quantity {
        return ReconciliationStatus::Updated;
    }
    if current.filled_quantity < previous.filled_quantity {
        return ReconciliationStatus::Conflict;
    }
    ReconciliationStatus::Updated
}

pub struct ReconciliationEngine {
    store: ReconciliationStore,
}

impl ReconciliationEngine {
    pub closed spec fn records(&self) -> ReconciliationStore {
        self.store
    }

    pub fn new() -> (r: Self)
        ensures
            r.records().wf(),
            r.records().view() == Map::<Seq<char>, RecordView>::empty(),
    {
        ReconciliationEngine { store: ReconciliationStore::new() }
    }

    pub fn store(&self) -> (r: &ReconciliationStore)
        ensures
            *r == self.records(),
    {
        &self.store
    }

    /// Reconciles one child order with the venue's report on it.
    pub fn reconcile_with(&mut self, reported: Result<VenueOrder, VenueError>, record: &mut ReconciliationRecord) -> (r: Result<ReconciliationResult, ReconciliationError>)
        requires
            old(self).records().wf(),
            old(record).attempts < u32::MAX,
        ensures
            final(self).records().wf(),
            final(record).attempts == old(record).attempts + 1,
            final(record).child_order_id@ == old(record).child_order_id@,
            final(record).external_order_id@ == old(record).external_order_id@,
            reported matches Err(e) ==> ((r matches Err(ReconciliationError::Venue(x)) && x == e)
                && final(record).status == ReconciliationStatus::Failed
                && crate::pepdex::execution::opt_view(final(record).last_error) == Some(venue_error_text(e))
                && final(self).records() == old(self).records()),
            reported matches Ok(v) && v.external_order_id@ != old(record).external_order_id@
                ==> (r matches Err(ReconciliationError::ExternalOrderMismatch)
                    && final(record).status == ReconciliationStatus::Pending && final(self).records() == old(self).records()),
            reported matches Ok(v) && v.external_order_id@ == old(record).external_order_id@ && v.filled_quantity > v.requested_quantity
                ==> (r matches Err(ReconciliationError::InvalidExternalQuantity)
                    && final(record).status == ReconciliationStatus::Pending && final(self).records() == old(self).records()),
            r matches Ok(res) ==> {
                let expected = match old(record).last_known_execution {
                    None => ReconciliationStatus::Matched,
                    Some(prev) => compared(prev, res.execution),
                };
                &&& reported is Ok
                &&& res.status == expected
                &&& final(record).status == expected
                &&& final(record).last_known_execution matches Some(e) && e.same(res.execution)
                &&& final(record).last_error is None
                &&& res.child_order_id@ == old(record).child_order_id@
                &&& res.parent_order_id@ == old(record).parent_order_id@
                &&& res.venue == old(record).venue
                &&& res.external_order_id@ == old(record).external_order_id@
                &&& final(self).records().view() == old(self).records().view().insert(old(record).child_order_id@, final(record).rview())
            },
            reported matches Ok(v) && v.external_order_id@ == old(record).external_order_id@ && v.filled_quantity <= v.requested_quantity
                ==> r is Ok,
    {
        record.attempts = record.attempts + 1;
        record.status = ReconciliationStatus::Pending;
        let external = match reported {
            Ok(v) => v,
            Err(error) => {
                record.status = ReconciliationStatus::Failed;
                record.last_error = Some(error.text());
                return Err(ReconciliationError::Venue(error));
            },
        };
        let execution = normalize_external_order(&external, record)?;
        let status = match &record.last_known_execution {
            None => ReconciliationStatus::Matched,
            Some(previous) => compare_execution(previous, &execution),
        };
        record.status = status;
        record.last_known_execution = Some(execution.clone());
        record.last_error = None;
        self.store.update(record.clone());
        Ok(ReconciliationResult {
            child_order_id: record.child_order_id.clone(),
            parent_order_id: record.parent_order_id.clone(),
            venue: record.venue,
            external_order_id: record.external_order_id.clone(),
            status,
            execution,
        })
    }

    /// Reconciles one child order against its external venue.
    pub fn reconcile<V: Venue + ?Sized>(&mut self, venue: &V, record: &mut ReconciliationRecord) -> (r: Result<ReconciliationResult, ReconciliationError>)
        requires
            old(self).records().wf(),
            old(record).attempts < u32::MAX,
        ensures
            final(self).records().wf(),
            final(record).attempts == old(record).attempts + 1,
            final(record).child_order_id@ == old(record).child_order_id@,
            final(record).external_order_id@ == old(record).external_order_id@,
            r matches Err(ReconciliationError::Venue(e)) ==> final(record).status == ReconciliationStatus::Failed
                && crate::pepdex::execution::opt_view(final(record).last_error) == Some(venue_error_text(e))
                && final(self).records() == old(self).records(),
            (r matches Err(ReconciliationError::ExternalOrderMismatch) || r matches Err(ReconciliationError::InvalidExternalQuantity))
                ==> final(record).status == ReconciliationStatus::Pending && final(self).records() == old(self).records(),
            r matches Ok(res) ==> {
                let expected = match old(record).last_known_execution {
                    None => ReconciliationStatus::Matched,
                    Some(prev) => compared(prev, res.execution),
                };
                &&& res.status == expected
                &&& final(record).status == expected
                &&& final(record).last_error is None
                &&& res.child_order_id@ == old(record).child_order_id@
                &&& res.external_order_id@ == old(record).external_order_id@
                &&& final(self).records().view() == old(self).records().view().insert(old(record).child_order_id@, final(record).rview())
            },
    {
        let reported = venue.get_order(record.external_order_id.as_str());
        self.reconcile_with(reported, record)
    }
}

impl Default for ReconciliationEngine {
    fn default() -> (r: Self)
        ensures
            r.records().wf(),
    {
        Self::new()
    }
}


/// A venue's report is `Matched` exactly when it shows the same fill and the
/// same status as before, a `Conflict` exactly when it shows less filled than
/// before, and `Updated` otherwise: more filled, or the same fill with a new
/// status.
pub proof fn lemma_compare_classifies(previous: Execution, current: Execution)
    ensures
        (compared(previous, current) == ReconciliationStatus::Matched)
            == (previous.filled_quantity == current.filled_quantity && previous.status == current.status),
        (compared(previous, current) == ReconciliationStatus::Conflict)
            == (current.filled_quantity < previous.filled_quantity),
        (compared(previous, current) == ReconciliationStatus::Updated)
            == (current.filled_quantity > previous.filled_quantity
                || (current.filled_quantity == previous.filled_quantity && current.status != previous.status)),
{
}

} // verus!
