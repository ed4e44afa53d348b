//! Dispatch of an execution plan's child orders to the configured venues.
use vstd::prelude::*;
use crate::pepdex::order::{ChildOrder, ExecutionPlan, OrderId};
use crate::pepdex::venue::{Venue, VenueError, VenueId, VenueOrder, VenueOrderRequest};

verus! {

#[derive(Debug)]
pub struct ChildExecution {
    pub child_order: ChildOrder,
    pub venue_order: VenueOrder,
}

#[derive(Debug)]
pub enum ExecutorError {
    EmptyExecutionPlan,
    VenueNotConfigured(VenueId),
    VenueExecutionFailed { venue: VenueId, child_order_id: OrderId, error: VenueError },
    WorkerPanicked,
    AllChildrenFailed(Vec<ExecutorError>),
}

#[derive(Debug)]
pub struct ExecutionResult {
    pub parent_order_id: OrderId,
    pub executions: Vec<ChildExecution>,
    pub errors: Vec<ExecutorError>,
}

impl ExecutionResult {
    pub fn successful_count(&self) -> (r: usize)
        ensures
            r == self.executions@.len(),
    {
        self.executions.len()
    }

    pub fn failed_count(&self) -> (r: usize)
        ensures
            r == self.errors@.len(),
    {
        self.errors.len()
    }

    pub fn is_fully_dispatched(&self) -> (r: bool)
        ensures
            r == (self.errors@.len() == 0),
    {
        self.errors.len() == 0
    }
}

/// The dispatched children, in order.
pub open spec fn successes(outcomes: Seq<Result<ChildExecution, ExecutorError>>) -> Seq<ChildExecution>
    decreases outcomes.len(),
{
    if outcomes.len() == 0 {
        Seq::empty()
    } else {
        let prev = successes(outcomes.drop_last());
        match outcomes.last() {
            Ok(e) => prev.push(e),
            Err(_) => prev,
        }
    }
}

/// The failures, in order.
pub open spec fn failures(outcomes: Seq<Result<ChildExecution, ExecutorError>>) -> Seq<ExecutorError>
    decreases outcomes.len(),
{
    if outcomes.len() == 0 {
        Seq::empty()
    } else {
        let prev = failures(outcomes.drop_last());
        match outcomes.last() {
            Ok(_) => prev,
            Err(e) => prev.push(e),
        }
    }
}

proof fn lemma_split_counts(outcomes: Seq<Result<ChildExecution, ExecutorError>>)
    ensures
        successes(outcomes).len() + failures(outcomes).len() == outcomes.len(),
    decreases outcomes.len(),
{
    if outcomes.len() > 0 {
        lemma_split_counts(outcomes.drop_last());
    }
}

/// Sorts the children's outcomes: successes and failures in order; when nothing
/// was dispatched and something failed, every failure together.
pub fn collect_outcomes(parent_order_id: OrderId, outcomes: Vec<Result<ChildExecution, ExecutorError>>) -> (r: Result<ExecutionResult, ExecutorError>)
    ensures
        successes(outcomes@).len() == 0 && failures(outcomes@).len() > 0
            ==> (r matches Err(ExecutorError::AllChildrenFailed(errs)) && errs@ == failures(outcomes@)),
        !(successes(outcomes@).len() == 0 && failures(outcomes@).len() > 0) ==> (r matches Ok(res) && {
            &&& res.parent_order_id@ == parent_order_id@
            &&& res.executions@ == successes(outcomes@)
            &&& res.errors@ == failures(outcomes@)
        }),
{
    let ghost all = outcomes@;
    let mut executions: Vec<ChildExecution> = Vec::new();
    let mut errors: Vec<ExecutorError> = Vec::new();
    let mut rest = outcomes;
    let total = rest.len();
    let ghost n = all.len();
    assert(n == total);
    let mut i: usize = 0;
    while rest.len() > 0
        invariant
            i + rest@.len() == n,
            n == all.len(),
            n <= usize::MAX,
            rest@ == all.skip(i as int),
            executions@ == successes(all.take(i as int)),
            errors@ == failures(all.take(i as int)),
        decreases rest@.len(),
    {
        let o = rest.remove(0);
        assert(o == all[i as int]);
        assert(all.take(i + 1).drop_last() =~= all.take(i as int));
        assert(rest@ =~= all.skip(i + 1));
        match o {
            Ok(e) => { executions.push(e); },
            Err(e) => { errors.push(e); },
        }
        i += 1;
    }
    assert(all.take(n as int) =~= all);
    if executions.len() == 0 && errors.len() > 0 {
        return Err(ExecutorError::AllChildrenFailed(errors));
    }
    Ok(ExecutionResult { parent_order_id, executions, errors })
}

/// The request a child order sends to its venue.
pub fn child_request(child: &ChildOrder) -> (r: VenueOrderRequest)
    ensures
        r.market@ == child.market@,
        r.side == child.side,
        r.order_type == child.order_type,
        r.price == child.price,
        r.quantity == child.quantity,
        r.client_order_id@ == child.client_order_id@,
{
    VenueOrderRequest {
        market: child.market.clone(),
        side: child.side,
        order_type: child.order_type,
        price: child.price,
        quantity: child.quantity,
        client_order_id: child.client_order_id.clone(),
    }
}

/// What a venue's answer to a child order comes to.
pub fn child_outcome(child: ChildOrder, placed: Result<VenueOrder, VenueError>) -> (r: Result<ChildExecution, ExecutorError>)
    ensures
        placed is Ok <==> r is Ok,
        r matches Ok(e) ==> e.child_order == child && placed == Ok::<VenueOrder, VenueError>(e.venue_order),
        r matches Err(ExecutorError::VenueExecutionFailed { venue, child_order_id, error }) ==>
            venue == child.venue && child_order_id@ == child.id@ && placed == Err::<VenueOrder, VenueError>(error),
        r is Err ==> r matches Err(ExecutorError::VenueExecutionFailed { .. }),
{
    match placed {
        Ok(venue_order) => Ok(ChildExecution { child_order: child, venue_order }),
        Err(error) => {
            let child_order_id = child.id.clone();
            Err(ExecutorError::VenueExecutionFailed { venue: child.venue, child_order_id, error })
        },
    }
}

/// `o` is what dispatching `child` can come to: its execution at the venue it
/// names, for the quantity it asks, or that venue's failure on it.
pub open spec fn child_result(child: ChildOrder, o: Result<ChildExecution, ExecutorError>) -> bool {
    match o {
        Ok(e) => e.child_order.same(child) && e.venue_order.venue == child.venue
            && e.venue_order.requested_quantity == child.quantity,
        Err(ExecutorError::VenueExecutionFailed { venue, child_order_id, .. }) =>
            venue == child.venue && child_order_id@ == child.id@,
        Err(_) => false,
    }
}

/// One outcome per child, in plan order.
pub open spec fn plan_results(children: Seq<ChildOrder>, outs: Seq<Result<ChildExecution, ExecutorError>>) -> bool {
    outs.len() == children.len() && forall|k: int| 0 <= k < outs.len() ==> child_result(children[k], #[trigger] outs[k])
}

/// The configured venues, to which child orders are dispatched by venue id.
pub struct Executor {
    venues: Vec<Box<dyn Venue>>,
}

impl Executor {
    pub closed spec fn venue_total(&self) -> nat {
        self.venues@.len()
    }

    /// The ids of the configured venues, in the order they were added.
    pub closed spec fn venue_ids(&self) -> Seq<VenueId> {
        self.venues@.map_values(|v: Box<dyn Venue>| v.venue_id())
    }

    pub fn new() -> (r: Self)
        ensures
            r.venue_total() == 0,
    {
        Executor { venues: Vec::new() }
    }

    /// Adds a venue after those already configured.
    pub fn add_venue<V: Venue + 'static>(&mut self, venue: V)
        ensures
            final(self).venue_total() == old(self).venue_total() + 1,
            final(self).venue_ids().drop_last() == old(self).venue_ids(),
    {
        push_venue(&mut self.venues, venue);
        assert(self.venue_ids().drop_last() =~= old(self).venue_ids());
    }

    pub fn venue_count(&self) -> (r: usize)
        ensures
            r == self.venue_total(),
    {
        self.venues.len()
    }

    /// Position of the first venue with this id.
    fn find_venue(&self, venue_id: VenueId) -> (r: Result<usize, ExecutorError>)
        ensures
            r matches Ok(i) ==> i < self.venues@.len() && self.venue_ids()[i as int] == venue_id,
            r matches Err(e) ==> e == ExecutorError::VenueNotConfigured(venue_id) && !self.venue_ids().contains(venue_id),
    {
        let mut i: usize = 0;
        while i < self.venues.len()
            invariant
                i <= self.venues@.len(),
                forall|j: int| 0 <= j < i ==> self.venue_ids()[j] != venue_id,
            decreases self.venues@.len() - i,
        {
            if self.venues[i].id() == venue_id {
                return Ok(i);
            }
            i += 1;
        }
        Err(ExecutorError::VenueNotConfigured(venue_id))
    }

    /// Sends each child order to the venue it names, in order. A child whose
    /// venue is not configured stops the dispatch with that error; otherwise the
    /// outcomes are sorted as `collect_outcomes` does.
    pub fn execute(&self, plan: &ExecutionPlan) -> (r: Result<ExecutionResult, ExecutorError>)
        ensures
            plan.children@.len() == 0 <==> r matches Err(ExecutorError::EmptyExecutionPlan),
            r matches Err(ExecutorError::VenueNotConfigured(v)) ==> exists|k: int| 0 <= k < plan.children@.len()
                && plan.children@[k].venue == v && !self.venue_ids().contains(v)
                && forall|j: int| 0 <= j < k ==> self.venue_ids().contains(#[trigger] plan.children@[j].venue),
            (exists|k: int| 0 <= k < plan.children@.len() && !self.venue_ids().contains(#[trigger] plan.children@[k].venue))
                ==> r matches Err(ExecutorError::VenueNotConfigured(_)),
            r matches Err(ExecutorError::AllChildrenFailed(errs)) ==> exists|outs: Seq<Result<ChildExecution, ExecutorError>>|
                plan_results(plan.children@, outs) && successes(outs).len() == 0 && #[trigger] failures(outs) == errs@,
            r matches Ok(res) ==> exists|outs: Seq<Result<ChildExecution, ExecutorError>>| {
                &&& plan_results(plan.children@, outs)
                &&& res.parent_order_id@ == plan.parent_order_id@
                &&& res.executions@ == successes(outs)
                &&& #[trigger] failures(outs) == res.errors@
                &&& (successes(outs).len() > 0 || failures(outs).len() == 0)
            },
            r is Err ==> (r matches Err(ExecutorError::EmptyExecutionPlan)
                || r matches Err(ExecutorError::VenueNotConfigured(_))
                || r matches Err(ExecutorError::AllChildrenFailed(_))),
    {
        if plan.children.len() == 0 {
            return Err(ExecutorError::EmptyExecutionPlan);
        }
        let mut outcomes: Vec<Result<ChildExecution, ExecutorError>> = Vec::new();
        let mut i: usize = 0;
        while i < plan.children.len()
            invariant
                i <= plan.children@.len(),
                outcomes@.len() == i,
                forall|k: int| 0 <= k < i ==> child_result(plan.children@[k], #[trigger] outcomes@[k]),
                forall|j: int| 0 <= j < i ==> self.venue_ids().contains(#[trigger] plan.children@[j].venue),
            decreases plan.children@.len() - i,
        {
            let child = &plan.children[i];
            let index = match self.find_venue(child.venue) {
                Ok(index) => index,
                Err(e) => {
                    assert(plan.children@[i as int].venue == child.venue);
                    return Err(e);
                },
            };
            assert(self.venue_ids()[index as int] == self.venues@[index as int].venue_id());
            let request = child_request(child);
            let placed = self.venues[index].place_order(&request);
            let outcome = child_outcome(child.clone(), placed);
            let ghost before = outcomes@;
            outcomes.push(outcome);
            assert(outcomes@[i as int] == outcome);
            assert(forall|k: int| 0 <= k < i ==> outcomes@[k] == before[k]);
            i += 1;
        }
        proof {
            lemma_split_counts(outcomes@);
            assert(plan_results(plan.children@, outcomes@));
        }
        let r = collect_outcomes(plan.parent_order_id.clone(), outcomes);
        r
    }
}

impl Default for Executor {
    fn default() -> (r: Self)
        ensures
            r.venue_total() == 0,
    {
        Self::new()
    }
}

/// Adds a venue, boxed, at the end of the list.
fn push_venue<V: Venue + 'static>(venues: &mut Vec<Box<dyn Venue>>, venue: V)
    ensures
        final(venues)@.len() == old(venues)@.len() + 1,
        forall|i: int| 0 <= i < old(venues)@.len() ==> #[trigger] final(venues)@[i] == old(venues)@[i],
{
    let boxed: Box<dyn Venue> = Box::new(venue);
    let ghost b = boxed;
    venues.push(boxed);
    proof {
        vstd::seq::axiom_seq_push_len(old(venues)@, b);
        assert forall|i: int| 0 <= i < old(venues)@.len() implies #[trigger] venues@[i] == old(venues)@[i] by {
            vstd::seq::axiom_seq_push_index_different(old(venues)@, b, i);
        }
    }
}

} // verus!
