//! Combines the executions of a parent's children into one parent execution.
use vstd::prelude::*;
use crate::pepdex::execution::{
    Execution, ExecutionStatus, sum_fees, sum_filled, sum_requested, lemma_sums_prefix,
};
use crate::pepdex::order::{OrderId, ParentOrder};
use crate::pepdex::venue::VenueId;

verus! {

#[derive(Debug, Clone, Copy, PartialEq, Eq, Structural)]
pub enum ParentExecutionStatus {
    Pending,
    Executing,
    PartiallyFilled,
    Filled,
    Cancelled,
    Failed,
}

#[derive(Debug, Clone, Copy, PartialEq, Eq, Structural)]
pub struct VenueExecutionSummary {
    pub venue: VenueId,
    pub requested_quantity: u64,
    pub filled_quantity: u64,
    pub remaining_quantity: u64,
    pub average_price: Option<u64>,
    pub venue_fee: u64,
    pub execution_count: usize,
}

#[derive(Debug)]
pub struct ParentExecution {
    pub parent_order_id: OrderId,
    pub requested_quantity: u64,
    pub filled_quantity: u64,
    pub remaining_quantity: u64,
    pub total_cost: u64,
    pub total_venue_fee: u64,
    pub average_price: Option<u64>,
    pub status: ParentExecutionStatus,
    pub venue_executions: Vec<VenueExecutionSummary>,
}

impl ParentExecution {
    pub fn new(parent_order: &ParentOrder) -> (r: Self)
        ensures
            r.parent_order_id@ == parent_order.id@,
            r.requested_quantity == parent_order.quantity,
            r.filled_quantity == 0,
            r.remaining_quantity == parent_order.quantity,
            r.total_cost == 0,
            r.total_venue_fee == 0,
            r.average_price is None,
            r.status == ParentExecutionStatus::Pending,
            r.venue_executions@.len() == 0,
    {
        ParentExecution {
            parent_order_id: parent_order.id.clone(),
            requested_quantity: parent_order.quantity,
            filled_quantity: 0,
            remaining_quantity: parent_order.quantity,
            total_cost: 0,
            total_venue_fee: 0,
            average_price: None,
            status: ParentExecutionStatus::Pending,
            venue_executions: Vec::new(),
        }
    }

    pub fn is_filled(&self) -> (r: bool)
        ensures
            r == (self.status == ParentExecutionStatus::Filled),
    {
        self.status == ParentExecutionStatus::Filled
    }

    pub fn is_partial(&self) -> (r: bool)
        ensures
            r == (self.status == ParentExecutionStatus::PartiallyFilled),
    {
        self.status == ParentExecutionStatus::PartiallyFilled
    }

    pub fn has_remaining(&self) -> (r: bool)
        ensures
            r == (self.remaining_quantity > 0),
    {
        self.remaining_quantity > 0
    }
}

#[derive(Debug)]
pub enum AggregatorError {
    NoExecutions,
    ParentOrderMismatch,
    RequestedQuantityMismatch { order_quantity: u64, execution_quantity: u64 },
}

/// `a * b`, or `u64::MAX` where that does not fit.
pub open spec fn sat_mul(a: u64, b: u64) -> nat {
    if a * b > u64::MAX { u64::MAX as nat } else { (a * b) as nat }
}

/// `a + b`, or `u64::MAX` where that does not fit.
pub open spec fn sat_add(a: u64, b: u64) -> nat {
    if a + b > u64::MAX { u64::MAX as nat } else { (a + b) as nat }
}

/// Value of one execution: filled quantity at its average price (saturating).
pub open spec fn execution_value(e: Execution) -> nat {
    match e.average_price {
        Some(p) => sat_mul(e.filled_quantity, p),
        None => 0,
    }
}

pub open spec fn sum_values(s: Seq<Execution>) -> nat
    decreases s.len(),
{
    if s.len() == 0 { 0 } else { sum_values(s.drop_last()) + execution_value(s.last()) }
}

/// The sums of an execution list fit in a `u64`.
pub open spec fn sums_fit(s: Seq<Execution>) -> bool {
    &&& sum_requested(s) <= u64::MAX
    &&& sum_filled(s) <= u64::MAX
    &&& sum_fees(s) <= u64::MAX
    &&& crate::pepdex::execution::sum_remaining(s) <= u64::MAX
    &&& sum_values(s) <= u64::MAX
    &&& s.len() <= usize::MAX
}

/// One execution folded into a venue summary.
pub open spec fn summary_step(s: VenueExecutionSummary, e: Execution) -> VenueExecutionSummary {
    let filled = (s.filled_quantity + e.filled_quantity) as u64;
    let old_value = sat_mul(match s.average_price { Some(p) => p, None => 0 }, (filled - e.filled_quantity) as u64);
    let new_value = sat_mul(match e.average_price { Some(p) => p, None => 0 }, e.filled_quantity);
    VenueExecutionSummary {
        venue: s.venue,
        requested_quantity: (s.requested_quantity + e.requested_quantity) as u64,
        filled_quantity: filled,
        remaining_quantity: (s.remaining_quantity + e.remaining_quantity) as u64,
        average_price: if filled > 0 { Some((sat_add(old_value as u64, new_value as u64) / filled as nat) as u64) } else { s.average_price },
        venue_fee: (s.venue_fee + e.venue_fee) as u64,
        execution_count: (s.execution_count + 1) as usize,
    }
}

/// The summary that one execution starts.
pub open spec fn summary_start(e: Execution) -> VenueExecutionSummary {
    VenueExecutionSummary {
        venue: e.venue,
        requested_quantity: e.requested_quantity,
        filled_quantity: e.filled_quantity,
        remaining_quantity: e.remaining_quantity,
        average_price: e.average_price,
        venue_fee: e.venue_fee,
        execution_count: 1,
    }
}

pub open spec fn find_venue(s: Seq<VenueExecutionSummary>, v: VenueId) -> int {
    if exists|i: int| 0 <= i < s.len() && s[i].venue == v {
        choose|i: int| 0 <= i < s.len() && s[i].venue == v
    } else {
        -1
    }
}

/// Per-venue summaries, one per venue in order of first appearance, each
/// execution folded into the summary of its venue.
pub open spec fn summarize(execs: Seq<Execution>) -> Seq<VenueExecutionSummary>
    decreases execs.len(),
{
    if execs.len() == 0 {
        Seq::empty()
    } else {
        let prev = summarize(execs.drop_last());
        let e = execs.last();
        let k = find_venue(prev, e.venue);
        if k >= 0 {
            prev.update(k, summary_step(prev[k], e))
        } else {
            prev.push(summary_start(e))
        }
    }
}

/// Parent status from the totals and the child statuses.
pub open spec fn derived_status(filled: nat, requested: nat, execs: Seq<Execution>) -> ParentExecutionStatus {
    if filled == requested {
        ParentExecutionStatus::Filled
    } else if filled > 0 {
        ParentExecutionStatus::PartiallyFilled
    } else if forall|i: int| 0 <= i < execs.len() ==> (#[trigger] execs[i].status == ExecutionStatus::Rejected
        || execs[i].status == ExecutionStatus::Failed) {
        ParentExecutionStatus::Failed
    } else if forall|i: int| 0 <= i < execs.len() ==> #[trigger] execs[i].status == ExecutionStatus::Cancelled {
        ParentExecutionStatus::Cancelled
    } else {
        ParentExecutionStatus::Executing
    }
}

pub struct ExecutionAggregator;

impl ExecutionAggregator {
    pub fn new() -> (r: Self) {
        ExecutionAggregator
    }

    /// Totals, average price, per-venue summaries and status of a parent's executions.
    /// A plan smaller than the order is a partial execution: the unrouted rest
    /// counts as remaining. Executions that ask for more than the order are refused.
    pub fn aggregate(&self, parent_order: &ParentOrder, executions: &[Execution]) -> (r: Result<ParentExecution, AggregatorError>)
        requires
            sums_fit(executions@),
        ensures
            executions@.len() == 0 ==> r matches Err(AggregatorError::NoExecutions),
            executions@.len() > 0 && (exists|i: int| 0 <= i < executions@.len() && executions@[i].parent_order_id@ != parent_order.id@)
                ==> r matches Err(AggregatorError::ParentOrderMismatch),
            executions@.len() > 0 && (forall|i: int| 0 <= i < executions@.len() ==> #[trigger] executions@[i].parent_order_id@ == parent_order.id@)
                && sum_requested(executions@) > parent_order.quantity
                ==> (r matches Err(AggregatorError::RequestedQuantityMismatch { order_quantity, execution_quantity })
                    && order_quantity == parent_order.quantity && execution_quantity == sum_requested(executions@)),
            r is Ok <==> executions@.len() > 0
                && (forall|i: int| 0 <= i < executions@.len() ==> #[trigger] executions@[i].parent_order_id@ == parent_order.id@)
                && sum_requested(executions@) <= parent_order.quantity,
            r matches Ok(p) ==> {
                &&& p.parent_order_id@ == parent_order.id@
                &&& p.requested_quantity == parent_order.quantity
                &&& p.filled_quantity == sum_filled(executions@)
                &&& p.remaining_quantity == (if sum_filled(executions@) <= parent_order.quantity {
                        parent_order.quantity - sum_filled(executions@) } else { 0 })
                &&& p.total_venue_fee == sum_fees(executions@)
                &&& p.total_cost == sum_values(executions@)
                &&& p.average_price == (if sum_filled(executions@) > 0 {
                        Some((sum_values(executions@) / sum_filled(executions@)) as u64) } else { None::<u64> })
                &&& p.venue_executions@ == summarize(executions@)
                &&& p.status == derived_status(sum_filled(executions@), parent_order.quantity as nat, executions@)
            },
    {
        if executions.len() == 0 {
            return Err(AggregatorError::NoExecutions);
        }
        let mut i: usize = 0;
        while i < executions.len()
            invariant
                i <= executions@.len(),
                forall|j: int| 0 <= j < i ==> #[trigger] executions@[j].parent_order_id@ == parent_order.id@,
            decreases executions@.len() - i,
        {
            if !executions[i].parent_order_id.same_as(&parent_order.id) {
                return Err(AggregatorError::ParentOrderMismatch);
            }
            i += 1;
        }
        let mut result = ParentExecution::new(parent_order);
        let mut requested: u64 = 0;
        let mut filled: u64 = 0;
        let mut fees: u64 = 0;
        let mut cost: u64 = 0;
        let mut k: usize = 0;
        while k < executions.len()
            invariant
                k <= executions@.len(),
                sums_fit(executions@),
                requested == sum_requested(executions@.take(k as int)),
                filled == sum_filled(executions@.take(k as int)),
                fees == sum_fees(executions@.take(k as int)),
                cost == sum_values(executions@.take(k as int)),
            decreases executions@.len() - k,
        {
            proof {
                assert(executions@.take(k + 1).drop_last() =~= executions@.take(k as int));
                lemma_sums_prefix(executions@, k + 1);
                lemma_values_prefix(executions@, k + 1);
            }
            let e = &executions[k];
            requested = requested + e.requested_quantity;
            filled = filled + e.filled_quantity;
            fees = fees + e.venue_fee;
            let value = match e.average_price {
                Some(price) => e.filled_quantity.saturating_mul(price),
                None => 0,
            };
            cost = cost + value;
            k += 1;
        }
        assert(executions@.take(executions@.len() as int) =~= executions@);
        // Executions that ask for more than the parent cannot belong to it.
        if requested > parent_order.quantity {
            return Err(AggregatorError::RequestedQuantityMismatch {
                order_quantity: parent_order.quantity,
                execution_quantity: requested,
            });
        }
        // A plan smaller than the order leaves the rest unfilled: the parent
        // keeps its own requested quantity and the execution is partial.
        result.filled_quantity = filled;
        result.remaining_quantity = parent_order.quantity.saturating_sub(filled);
        result.total_venue_fee = fees;
        result.total_cost = cost;
        if filled > 0 {
            result.average_price = Some(cost / filled);
        }
        result.venue_executions = Self::summarize_venues(executions);
        result.status = Self::derive_status(&result, executions);
        Ok(result)
    }

    /// One summary per venue, in order of first appearance.
    fn summarize_venues(executions: &[Execution]) -> (r: Vec<VenueExecutionSummary>)
        requires
            sums_fit(executions@),
        ensures
            r@ == summarize(executions@),
    {
        let mut summaries: Vec<VenueExecutionSummary> = Vec::new();
        let mut i: usize = 0;
        while i < executions.len()
            invariant
                i <= executions@.len(),
                sums_fit(executions@),
                summaries@ == summarize(executions@.take(i as int)),
                summaries_bounded(summaries@, executions@.take(i as int)),
            decreases executions@.len() - i,
        {
            let e = &executions[i];
            proof {
                assert(executions@.take(i + 1).drop_last() =~= executions@.take(i as int));
                assert(executions@.take(i + 1).last() == executions@[i as int]);
                lemma_sums_prefix(executions@, i + 1);
            }
            let mut j: usize = 0;
            let mut found: Option<usize> = None;
            while j < summaries.len()
                invariant_except_break
                    found is None,
                invariant
                    j <= summaries@.len(),
                    forall|m: int| 0 <= m < j ==> summaries@[m].venue != e.venue,
                ensures
                    found is None ==> forall|m: int| 0 <= m < summaries@.len() ==> summaries@[m].venue != e.venue,
                    found matches Some(jj) ==> jj < summaries@.len() && summaries@[jj as int].venue == e.venue,
                decreases summaries@.len() - j,
            {
                if summaries[j].venue == e.venue {
                    found = Some(j);
                    break;
                }
                j += 1;
            }
            proof {
                lemma_summaries_unique(executions@.take(i as int));
            }
            match found {
                Some(j) => {
                    let s = summaries[j];
                    proof {
                        assert(find_venue(summaries@, e.venue) == j as int);
                        lemma_summary_bound(summaries@, executions@.take(i + 1), j as int);
                    }
                    let filled = s.filled_quantity + e.filled_quantity;
                    let old_value = match s.average_price { Some(p) => p, None => 0 }.saturating_mul(filled - e.filled_quantity);
                    let new_value = match e.average_price { Some(p) => p, None => 0 }.saturating_mul(e.filled_quantity);
                    let average_price = if filled > 0 { Some(old_value.saturating_add(new_value) / filled) } else { s.average_price };
                    let updated = VenueExecutionSummary {
                        venue: s.venue,
                        requested_quantity: s.requested_quantity + e.requested_quantity,
                        filled_quantity: filled,
                        remaining_quantity: s.remaining_quantity + e.remaining_quantity,
                        average_price,
                        venue_fee: s.venue_fee + e.venue_fee,
                        execution_count: s.execution_count + 1,
                    };
                    summaries.set(j, updated);
                },
                None => {
                    proof {
                        assert(find_venue(summaries@, e.venue) == -1);
                    }
                    summaries.push(VenueExecutionSummary {
                        venue: e.venue,
                        requested_quantity: e.requested_quantity,
                        filled_quantity: e.filled_quantity,
                        remaining_quantity: e.remaining_quantity,
                        average_price: e.average_price,
                        venue_fee: e.venue_fee,
                        execution_count: 1,
                    });
                },
            }
            proof {
                lemma_summaries_bounded_step(executions@.take(i + 1));
            }
            i += 1;
        }
        assert(executions@.take(executions@.len() as int) =~= executions@);
        summaries
    }

    fn derive_status(result: &ParentExecution, executions: &[Execution]) -> (r: ParentExecutionStatus)
        ensures
            r == derived_status(result.filled_quantity as nat, result.requested_quantity as nat, executions@),
    {
        if result.filled_quantity == result.requested_quantity {
            return ParentExecutionStatus::Filled;
        }
        if result.filled_quantity > 0 {
            return ParentExecutionStatus::PartiallyFilled;
        }
        let mut all_failed = true;
        let mut all_cancelled = true;
        let mut i: usize = 0;
        while i < executions.len()
            invariant
                i <= executions@.len(),
                all_failed == forall|j: int| 0 <= j < i ==> (#[trigger] executions@[j].status == ExecutionStatus::Rejected
                    || executions@[j].status == ExecutionStatus::Failed),
                all_cancelled == forall|j: int| 0 <= j < i ==> #[trigger] executions@[j].status == ExecutionStatus::Cancelled,
            decreases executions@.len() - i,
        {
            let s = executions[i].status;
            if !(s == ExecutionStatus::Rejected || s == ExecutionStatus::Failed) {
                all_failed = false;
            }
            if s != ExecutionStatus::Cancelled {
                all_cancelled = false;
            }
            i += 1;
        }
        if all_failed {
            return ParentExecutionStatus::Failed;
        }
        if all_cancelled {
            return ParentExecutionStatus::Cancelled;
        }
        ParentExecutionStatus::Executing
    }
}

impl Default for ExecutionAggregator {
    fn default() -> (r: Self) {
        ExecutionAggregator
    }
}

/// Execution values over a prefix never exceed those over the whole.
pub proof fn lemma_values_prefix(s: Seq<Execution>, k: int)
    requires
        0 <= k <= s.len(),
    ensures
        sum_values(s.take(k)) <= sum_values(s),
    decreases s.len() - k,
{
    if k < s.len() {
        lemma_values_prefix(s, k + 1);
        assert(s.take(k + 1).drop_last() =~= s.take(k));
    } else {
        assert(s.take(k) =~= s);
    }
}

/// Each summary's counters are bounded by the sums over all executions.
pub open spec fn summaries_bounded(sums: Seq<VenueExecutionSummary>, execs: Seq<Execution>) -> bool {
    forall|m: int| 0 <= m < sums.len() ==> {
        &&& (#[trigger] sums[m]).requested_quantity <= sum_requested(execs)
        &&& sums[m].filled_quantity <= sum_filled(execs)
        &&& sums[m].remaining_quantity <= crate::pepdex::execution::sum_remaining(execs)
        &&& sums[m].venue_fee <= sum_fees(execs)
        &&& sums[m].execution_count <= execs.len()
    }
}

/// Summaries name each venue once.
pub proof fn lemma_summaries_unique(execs: Seq<Execution>)
    ensures
        forall|a: int, b: int| 0 <= a < b < summarize(execs).len() ==> summarize(execs)[a].venue != summarize(execs)[b].venue,
    decreases execs.len(),
{
    if execs.len() > 0 {
        lemma_summaries_unique(execs.drop_last());
    }
}

pub proof fn lemma_summary_bound(prev: Seq<VenueExecutionSummary>, execs: Seq<Execution>, j: int)
    requires
        execs.len() > 0,
        prev == summarize(execs.drop_last()),
        summaries_bounded(prev, execs.drop_last()),
        0 <= j < prev.len(),
        prev[j].venue == execs.last().venue,
    ensures
        prev[j].requested_quantity + execs.last().requested_quantity <= sum_requested(execs),
        prev[j].filled_quantity + execs.last().filled_quantity <= sum_filled(execs),
        prev[j].remaining_quantity + execs.last().remaining_quantity <= crate::pepdex::execution::sum_remaining(execs),
        prev[j].venue_fee + execs.last().venue_fee <= sum_fees(execs),
        prev[j].execution_count + 1 <= execs.len(),
{
}

pub proof fn lemma_summaries_bounded_step(execs: Seq<Execution>)
    requires
        execs.len() > 0,
        summaries_bounded(summarize(execs.drop_last()), execs.drop_last()),
    ensures
        summaries_bounded(summarize(execs), execs),
{
    let prev = summarize(execs.drop_last());
    let k = find_venue(prev, execs.last().venue);
    assert forall|m: int| 0 <= m < summarize(execs).len() implies {
        &&& (#[trigger] summarize(execs)[m]).requested_quantity <= sum_requested(execs)
        &&& summarize(execs)[m].filled_quantity <= sum_filled(execs)
        &&& summarize(execs)[m].remaining_quantity <= crate::pepdex::execution::sum_remaining(execs)
        &&& summarize(execs)[m].venue_fee <= sum_fees(execs)
        &&& summarize(execs)[m].execution_count <= execs.len()
    } by {
        if k >= 0 && m == k {
            lemma_summary_bound(prev, execs, k);
        }
    }
}

proof fn lemma_execution_sums_prefix(s: Seq<Execution>, k: int)
    requires
        0 <= k <= s.len(),
    ensures
        sum_requested(s.take(k)) <= sum_requested(s),
        sum_filled(s.take(k)) <= sum_filled(s),
        sum_fees(s.take(k)) <= sum_fees(s),
        crate::pepdex::execution::sum_remaining(s.take(k)) <= crate::pepdex::execution::sum_remaining(s),
        sum_values(s.take(k)) <= sum_values(s),
    decreases s.len() - k,
{
    if k < s.len() {
        lemma_execution_sums_prefix(s, k + 1);
        assert(s.take(k + 1).drop_last() =~= s.take(k));
    } else {
        assert(s.take(k) =~= s);
    }
}

/// Whether the totals of the executions fit in a `u64`.
pub fn execution_sums_fit(executions: &[Execution]) -> (r: bool)
    ensures
        r == sums_fit(executions@),
{
    let s = executions;
    let mut requested: u64 = 0;
    let mut filled: u64 = 0;
    let mut fees: u64 = 0;
    let mut remaining: u64 = 0;
    let mut value: u64 = 0;
    let mut i: usize = 0;
    while i < s.len()
        invariant
            i <= s@.len(),
            s@ == executions@,
            requested == sum_requested(s@.take(i as int)),
            filled == sum_filled(s@.take(i as int)),
            fees == sum_fees(s@.take(i as int)),
            remaining == crate::pepdex::execution::sum_remaining(s@.take(i as int)),
            value == sum_values(s@.take(i as int)),
        decreases s@.len() - i,
    {
        let e = &s[i];
        let ghost t = s@.take(i + 1);
        assert(t.drop_last() =~= s@.take(i as int));
        assert(t.last() == s@[i as int]);
        proof {
            lemma_execution_sums_prefix(s@, i + 1);
        }
        let v: u64 = match e.average_price {
            Some(p) => e.filled_quantity.saturating_mul(p),
            None => 0,
        };
        assert(v == execution_value(s@[i as int]));
        assert(sum_requested(t) == requested + e.requested_quantity);
        assert(sum_filled(t) == filled + e.filled_quantity);
        assert(sum_fees(t) == fees + e.venue_fee);
        assert(crate::pepdex::execution::sum_remaining(t) == remaining + e.remaining_quantity);
        assert(sum_values(t) == value + v);
        match requested.checked_add(e.requested_quantity) {
            Some(x) => { requested = x; },
            None => {
                assert(sum_requested(s@) > u64::MAX);
                return false;
            },
        }
        match filled.checked_add(e.filled_quantity) {
            Some(x) => { filled = x; },
            None => {
                assert(sum_filled(s@) > u64::MAX);
                return false;
            },
        }
        match fees.checked_add(e.venue_fee) {
            Some(x) => { fees = x; },
            None => { return false; },
        }
        match remaining.checked_add(e.remaining_quantity) {
            Some(x) => { remaining = x; },
            None => { return false; },
        }
        match value.checked_add(v) {
            Some(x) => { value = x; },
            None => { return false; },
        }
        i += 1;
    }
    assert(s@.take(s@.len() as int) =~= s@);
    true
}

/// When no execution has filled more than it asked, neither has the whole:
/// the aggregate's filled quantity is at most its requested quantity.
pub proof fn lemma_filled_within_requested(s: Seq<Execution>)
    requires
        forall|i: int| 0 <= i < s.len() ==> (#[trigger] s[i]).filled_quantity <= s[i].requested_quantity,
    ensures
        sum_filled(s) <= sum_requested(s),
    decreases s.len(),
{
    if s.len() > 0 {
        assert forall|i: int| 0 <= i < s.drop_last().len() implies (#[trigger] s.drop_last()[i]).filled_quantity
            <= s.drop_last()[i].requested_quantity by {
            assert(s.drop_last()[i] == s[i]);
        }
        lemma_filled_within_requested(s.drop_last());
        assert(s.last() == s[s.len() - 1]);
    }
}


// ---------------------------------------------------------------------------
// Per-venue averages.
// ---------------------------------------------------------------------------

/// An average price as a number: `None` counts as zero.
pub open spec fn price_or_zero(p: Option<u64>) -> nat {
    match p {
        Some(x) => x as nat,
        None => 0,
    }
}

/// What was filled at one venue, over all its executions.
pub open spec fn venue_filled(execs: Seq<Execution>, v: VenueId) -> nat
    decreases execs.len(),
{
    if execs.len() == 0 {
        0
    } else {
        venue_filled(execs.drop_last(), v) + if execs.last().venue == v { execs.last().filled_quantity as nat } else { 0 }
    }
}

/// The value filled at one venue: each execution's filled quantity times its
/// average price.
pub open spec fn venue_value(execs: Seq<Execution>, v: VenueId) -> nat
    decreases execs.len(),
{
    if execs.len() == 0 {
        0
    } else {
        venue_value(execs.drop_last(), v) + if execs.last().venue == v {
            execs.last().filled_quantity as nat * price_or_zero(execs.last().average_price)
        } else {
            0
        }
    }
}

/// How many executions one venue has.
pub open spec fn venue_executions(execs: Seq<Execution>, v: VenueId) -> nat
    decreases execs.len(),
{
    if execs.len() == 0 {
        0
    } else {
        venue_executions(execs.drop_last(), v) + if execs.last().venue == v { 1nat } else { 0nat }
    }
}

/// The value of all executions, each filled quantity times its average price.
pub open spec fn total_value(execs: Seq<Execution>) -> nat
    decreases execs.len(),
{
    if execs.len() == 0 {
        0
    } else {
        total_value(execs.drop_last()) + execs.last().filled_quantity as nat * price_or_zero(execs.last().average_price)
    }
}

proof fn lemma_venue_parts_bounded(execs: Seq<Execution>, v: VenueId)
    ensures
        venue_filled(execs, v) <= sum_filled(execs),
        venue_value(execs, v) <= total_value(execs),
        venue_executions(execs, v) == 0 ==> venue_filled(execs, v) == 0 && venue_value(execs, v) == 0,
        venue_filled(execs, v) == 0 ==> venue_value(execs, v) == 0,
    decreases execs.len(),
{
    if execs.len() > 0 {
        lemma_venue_parts_bounded(execs.drop_last(), v);
        let e = execs.last();
        if e.venue == v && e.filled_quantity == 0 {
            assert(e.filled_quantity as nat * price_or_zero(e.average_price) == 0);
        }
    }
}

/// What the per-venue law says of one summary.
pub open spec fn summary_matches(s: VenueExecutionSummary, execs: Seq<Execution>) -> bool {
    let f = venue_filled(execs, s.venue);
    let value = venue_value(execs, s.venue);
    let n = venue_executions(execs, s.venue);
    let m = price_or_zero(s.average_price);
    &&& s.filled_quantity == f
    &&& n >= 1
    &&& (f == 0 ==> value == 0)
    &&& (f > 0 ==> m * f <= value && value <= m * f + (n - 1) * (f - 1))
}

proof fn lemma_step_average(m0: nat, f0: nat, value0: nat, n0: nat, p: nat, f: nat)
    requires
        n0 >= 1,
        f0 == 0 ==> value0 == 0,
        f0 > 0 ==> m0 * f0 <= value0 && value0 <= m0 * f0 + (n0 - 1) * (f0 - 1),
        f0 + f > 0,
    ensures
        ({
            let m = (m0 * f0 + p * f) / (f0 + f);
            &&& m * (f0 + f) <= value0 + f * p
            &&& value0 + f * p <= m * (f0 + f) + n0 * ((f0 + f) - 1)
        }),
{
    let ff = f0 + f;
    let x = m0 * f0 + p * f;
    let m = x / ff;
    assert(m * ff <= x && x < m * ff + ff) by (nonlinear_arith)
        requires ff > 0, m == x / ff;
    assert(p * f == f * p) by (nonlinear_arith);
    if f0 > 0 {
        assert((n0 - 1) * (f0 - 1) <= (n0 - 1) * (ff - 1)) by (nonlinear_arith)
            requires n0 >= 1, f0 >= 1, f0 <= ff;
        assert((n0 - 1) * (ff - 1) + (ff - 1) == n0 * (ff - 1)) by (nonlinear_arith)
            requires n0 >= 1, ff >= 1;
    } else {
        assert(m0 * f0 == 0) by (nonlinear_arith) requires f0 == 0;
        assert(n0 * (ff - 1) >= ff - 1) by (nonlinear_arith) requires n0 >= 1, ff >= 1;
    }
}

/// Each venue summary gathers exactly that venue's executions: its filled
/// quantity is the sum of their fills, and its average price is their
/// quantity-weighted mean price, rounded down at each of the venue's
/// executions after the first: `average * filled <= value <= average * filled
/// + (executions - 1) * (filled - 1)`, where value is the sum of filled
/// quantity times average price. With one or two executions at a venue this
/// makes the average exactly `value / filled`, rounded down. A venue that
/// appears in no execution has no summary.
pub proof fn lemma_summary_averages(execs: Seq<Execution>)
    requires
        sum_filled(execs) <= u64::MAX,
        total_value(execs) <= u64::MAX,
    ensures
        forall|k: int| 0 <= k < summarize(execs).len() ==> summary_matches(#[trigger] summarize(execs)[k], execs),
        forall|v: VenueId| (forall|k: int| 0 <= k < summarize(execs).len() ==> #[trigger] summarize(execs)[k].venue != v)
            ==> venue_executions(execs, v) == 0,
    decreases execs.len(),
{
    if execs.len() > 0 {
        let pre = execs.drop_last();
        let e = execs.last();
        assert(sum_filled(pre) <= sum_filled(execs));
        assert(total_value(pre) <= total_value(execs));
        lemma_summary_averages(pre);
        lemma_summaries_unique(pre);
        let prev = summarize(pre);
        let k = find_venue(prev, e.venue);
        let out = summarize(execs);
        lemma_venue_parts_bounded(execs, e.venue);
        lemma_venue_parts_bounded(pre, e.venue);
        if k >= 0 {
            let s0 = prev[k];
            assert(summary_matches(s0, pre));
            let f0 = s0.filled_quantity as nat;
            let m0 = price_or_zero(s0.average_price);
            let ff = f0 + e.filled_quantity;
            assert(ff == venue_filled(execs, e.venue));
            assert(ff <= u64::MAX);
            let s1 = summary_step(s0, e);
            if f0 > 0 {
                assert(m0 * f0 <= venue_value(pre, e.venue));
            } else {
                assert(m0 * f0 == 0) by (nonlinear_arith) requires f0 == 0;
            }
            assert(m0 * f0 <= u64::MAX);
            assert(e.filled_quantity as nat * price_or_zero(e.average_price) <= u64::MAX);
            assert(sat_mul(match s0.average_price { Some(p) => p, None => 0 }, (ff - e.filled_quantity) as u64) == m0 * f0);
            assert(sat_mul(match e.average_price { Some(p) => p, None => 0 }, e.filled_quantity)
                == e.filled_quantity as nat * price_or_zero(e.average_price)) by (nonlinear_arith)
                requires e.filled_quantity as nat * price_or_zero(e.average_price) <= u64::MAX;
            if ff > 0 {
                lemma_step_average(m0, f0, venue_value(pre, e.venue), venue_executions(pre, e.venue),
                    price_or_zero(e.average_price), e.filled_quantity as nat);
                assert(m0 * f0 + price_or_zero(e.average_price) * e.filled_quantity <= u64::MAX) by (nonlinear_arith)
                    requires m0 * f0 <= venue_value(pre, e.venue),
                        venue_value(pre, e.venue) + e.filled_quantity as nat * price_or_zero(e.average_price) <= u64::MAX;
            }
            assert(summary_matches(s1, execs));
            assert forall|j: int| 0 <= j < out.len() implies summary_matches(#[trigger] out[j], execs) by {
                if j != k {
                    assert(out[j] == prev[j]);
                    assert(prev[j].venue != e.venue);
                    assert(summary_matches(prev[j], pre));
                }
            }
            assert forall|v: VenueId| (forall|j: int| 0 <= j < out.len() ==> #[trigger] out[j].venue != v)
                implies venue_executions(execs, v) == 0 by {
                assert(out[k].venue == e.venue);
                assert forall|j: int| 0 <= j < prev.len() implies #[trigger] prev[j].venue != v by {
                    assert(out[j].venue == prev[j].venue);
                }
                assert(v != e.venue);
                assert(venue_executions(pre, v) == 0);
            }
        } else {
            assert(forall|j: int| 0 <= j < prev.len() ==> prev[j].venue != e.venue);
            assert(venue_executions(pre, e.venue) == 0);
            let s1 = summary_start(e);
            assert(out == prev.push(s1));
            let pa = price_or_zero(e.average_price);
            let fa = e.filled_quantity as nat;
            assert(s1.average_price == e.average_price);
            assert(pa * fa == fa * pa) by (nonlinear_arith);
            assert(summary_matches(s1, execs));
            assert forall|j: int| 0 <= j < out.len() implies summary_matches(#[trigger] out[j], execs) by {
                if j < prev.len() {
                    assert(out[j] == prev[j]);
                    assert(summary_matches(prev[j], pre));
                }
            }
            assert forall|v: VenueId| (forall|j: int| 0 <= j < out.len() ==> #[trigger] out[j].venue != v)
                implies venue_executions(execs, v) == 0 by {
                assert(out[prev.len() as int].venue == e.venue);
                assert forall|j: int| 0 <= j < prev.len() implies #[trigger] prev[j].venue != v by {
                    assert(out[j] == prev[j]);
                }
                assert(v != e.venue);
                assert(venue_executions(pre, v) == 0);
            }
        }
    }
}


/// When no execution's value overflows, the value the aggregation adds up is
/// each execution's filled quantity times its average price.
pub proof fn lemma_values_exact(execs: Seq<Execution>)
    requires
        total_value(execs) <= u64::MAX,
    ensures
        sum_values(execs) == total_value(execs),
    decreases execs.len(),
{
    if execs.len() > 0 {
        let e = execs.last();
        let v = e.filled_quantity as nat * price_or_zero(e.average_price);
        assert(total_value(execs.drop_last()) <= u64::MAX);
        lemma_values_exact(execs.drop_last());
        assert(v <= u64::MAX);
        match e.average_price {
            Some(p) => {
                assert(e.filled_quantity * p == v);
            },
            None => {},
        }
    }
}


/// A parent whose fills reach what it asked for is filled; one with some but
/// not all of it filled is partially filled. With nothing filled (of a
/// positive request) it failed when every child was rejected or failed, was
/// cancelled when every child was cancelled, and is still executing
/// otherwise.
pub proof fn lemma_status_from_fills(filled: nat, requested: nat, execs: Seq<Execution>)
    ensures
        (derived_status(filled, requested, execs) == ParentExecutionStatus::Filled) == (filled == requested),
        (derived_status(filled, requested, execs) == ParentExecutionStatus::PartiallyFilled)
            == (filled > 0 && filled != requested),
        filled == 0 && requested > 0 && (forall|i: int| 0 <= i < execs.len()
            ==> (#[trigger] execs[i].status == ExecutionStatus::Rejected || execs[i].status == ExecutionStatus::Failed))
            ==> derived_status(filled, requested, execs) == ParentExecutionStatus::Failed,
        filled == 0 && requested > 0 && execs.len() > 0 && (forall|i: int| 0 <= i < execs.len()
            ==> #[trigger] execs[i].status == ExecutionStatus::Cancelled)
            ==> derived_status(filled, requested, execs) == ParentExecutionStatus::Cancelled,
        filled == 0 && requested > 0 && (exists|i: int| 0 <= i < execs.len()
            && #[trigger] execs[i].status != ExecutionStatus::Rejected && execs[i].status != ExecutionStatus::Failed)
            && (exists|j: int| 0 <= j < execs.len() && #[trigger] execs[j].status != ExecutionStatus::Cancelled)
            ==> derived_status(filled, requested, execs) == ParentExecutionStatus::Executing,
{
    if filled == 0 && requested > 0 && execs.len() > 0 && (forall|i: int| 0 <= i < execs.len()
        ==> #[trigger] execs[i].status == ExecutionStatus::Cancelled) {
        assert(execs[0].status == ExecutionStatus::Cancelled);
    }
}

} // verus!
