//! Turns a parent order into child orders across venues, best price first.
use vstd::prelude::*;
use crate::pepdex::market::MarketId;
use crate::pepdex::order::{children_quantity, client_id_of, ChildOrder, ChildOrderStatus, ExecutionPlan, ParentOrder};
use crate::pepdex::orderbook::{AggregatedLevel, AggregatedOrderBook, LiquiditySource};
use crate::pepdex::venue::{VenueId, VenueOrderSide};
use crate::text::{decimal, push_char, push_str, u64_text};

verus! {

#[derive(Debug, Clone, Copy, PartialEq, Eq, Structural)]
pub enum RoutingPolicy {
    BestPrice,
    BestPriceThenLiquidity,
}

#[derive(Debug, Clone, Copy)]
pub struct Router {
    pub policy: RoutingPolicy,
}

#[derive(Debug)]
pub enum RouterError {
    InvalidQuantity,
    NoLiquidity,
    InsufficientLiquidity { requested: u64, available: u64 },
    MarketMismatch { order_market: MarketId, book_market: MarketId },
}

pub open spec fn min_nat(a: nat, b: nat) -> nat {
    if a <= b { a } else { b }
}

/// Greedy fill of `cap` from the sources in order: each takes what it has,
/// up to what is still needed; empty takes are skipped.
pub open spec fn fill(sources: Seq<LiquiditySource>, cap: nat) -> Seq<(VenueId, nat)>
    decreases sources.len(),
{
    if sources.len() == 0 || cap == 0 {
        Seq::empty()
    } else {
        let q = min_nat(sources[0].quantity as nat, cap);
        let head: Seq<(VenueId, nat)> = if q > 0 { seq![(sources[0].venue, q)] } else { Seq::empty() };
        head + fill(sources.drop_first(), (cap - q) as nat)
    }
}

pub open spec fn fill_total(f: Seq<(VenueId, nat)>) -> nat
    decreases f.len(),
{
    if f.len() == 0 { 0 } else { f[0].1 + fill_total(f.drop_first()) }
}

/// Whether a level's price is acceptable under an optional limit.
pub open spec fn price_allowed(side: VenueOrderSide, limit: Option<u64>, price: u64) -> bool {
    match limit {
        None => true,
        Some(l) => if side == VenueOrderSide::Buy { price <= l } else { price >= l },
    }
}

/// Allocation of `remaining` over the levels, best first: each level gives
/// at most its quantity, split greedily over its sources; routing stops at
/// the first level outside the limit.
pub open spec fn allocate(levels: Seq<AggregatedLevel>, remaining: nat, side: VenueOrderSide, limit: Option<u64>) -> Seq<(VenueId, nat, u64)>
    decreases levels.len(),
{
    if levels.len() == 0 || remaining == 0 || !price_allowed(side, limit, levels[0].price) {
        Seq::empty()
    } else {
        let l = levels[0];
        let f = fill(l.sources@, min_nat(l.quantity as nat, remaining));
        f.map_values(|e: (VenueId, nat)| (e.0, e.1, l.price))
            + allocate(levels.drop_first(), (remaining - fill_total(f)) as nat, side, limit)
    }
}

pub open spec fn alloc_total(a: Seq<(VenueId, nat, u64)>) -> nat
    decreases a.len(),
{
    if a.len() == 0 { 0 } else { a[0].1 + alloc_total(a.drop_first()) }
}

/// The levels an order takes from: asks for a buy, bids for a sell.
pub open spec fn book_side(book: AggregatedOrderBook, side: VenueOrderSide) -> Seq<AggregatedLevel> {
    if side == VenueOrderSide::Buy { book.asks@ } else { book.bids@ }
}

/// Identifier of the `n`-th child of a parent: `PARENT-n`.
pub open spec fn child_id(parent: Seq<char>, n: nat) -> Seq<char> {
    parent.push('-') + decimal(n)
}

/// `c` is the `k`-th routed child of `order` for allocation entry `a`.
pub open spec fn routed_child(c: ChildOrder, order: ParentOrder, k: int, a: (VenueId, nat, u64)) -> bool {
    &&& c.id@ == child_id(order.id@, (k + 1) as nat)
    &&& c.parent_id@ == order.id@
    &&& c.venue == a.0
    &&& c.market@ == order.market@
    &&& c.side == order.side
    &&& c.order_type == order.order_type
    &&& c.quantity == a.1
    &&& c.price == Some(a.2)
    &&& c.client_order_id@ == client_id_of(c.id@)
    &&& c.status == ChildOrderStatus::Pending
}

/// `plan` routes `order` over its side of `book`: one child per allocation, in order.
pub open spec fn routed_plan(plan: ExecutionPlan, order: ParentOrder, book: AggregatedOrderBook) -> bool {
    let a = allocate(book_side(book, order.side), order.quantity as nat, order.side, order.limit_price);
    &&& order.market@ == book.market@
    &&& order.quantity > 0
    &&& a.len() > 0
    &&& plan.parent_order_id@ == order.id@
    &&& plan.children@.len() == a.len()
    &&& forall|k: int| 0 <= k < a.len() ==> routed_child(#[trigger] plan.children@[k], order, k, a[k])
}

impl Router {
    pub fn new() -> (r: Self)
        ensures
            r.policy == RoutingPolicy::BestPriceThenLiquidity,
    {
        Router { policy: RoutingPolicy::BestPriceThenLiquidity }
    }

    pub fn with_policy(policy: RoutingPolicy) -> (r: Self)
        ensures
            r.policy == policy,
    {
        Router { policy }
    }

    /// Routes an order over the book: one child per (level, source) taken.
    pub fn route(&self, order: &ParentOrder, book: &AggregatedOrderBook) -> (r: Result<ExecutionPlan, RouterError>)
        ensures
            order.market@ != book.market@ ==> (r matches Err(RouterError::MarketMismatch { order_market, book_market })
                && order_market@ == order.market@ && book_market@ == book.market@),
            order.market@ == book.market@ && order.quantity == 0 ==> r matches Err(RouterError::InvalidQuantity),
            order.market@ == book.market@ && order.quantity > 0 && book_side(*book, order.side).len() == 0
                ==> r matches Err(RouterError::NoLiquidity),
            order.market@ == book.market@ && order.quantity > 0 && book_side(*book, order.side).len() > 0
                && allocate(book_side(*book, order.side), order.quantity as nat, order.side, order.limit_price).len() == 0
                ==> (r matches Err(RouterError::InsufficientLiquidity { requested, available })
                    && requested == order.quantity && available == 0),
            r matches Ok(plan) ==> routed_plan(plan, *order, *book),
            order.market@ == book.market@ && order.quantity > 0 && book_side(*book, order.side).len() > 0
                && allocate(book_side(*book, order.side), order.quantity as nat, order.side, order.limit_price).len() > 0
                ==> r is Ok,
    {
        if !order.market.same_as(&book.market) {
            return Err(RouterError::MarketMismatch { order_market: order.market.clone(), book_market: book.market.clone() });
        }
        if order.quantity == 0 {
            return Err(RouterError::InvalidQuantity);
        }
        let levels = match order.side {
            VenueOrderSide::Buy => &book.asks,
            VenueOrderSide::Sell => &book.bids,
        };
        if levels.len() == 0 {
            return Err(RouterError::NoLiquidity);
        }
        let ghost all = allocate(levels@, order.quantity as nat, order.side, order.limit_price);
        let mut remaining = order.quantity;
        let mut plan = ExecutionPlan::new(order.id.clone());
        let mut li: usize = 0;
        proof {
            assert(levels@.subrange(0, levels@.len() as int) =~= levels@);
            assert(all.take(0) + all =~= all);
        }
        while li < levels.len()
            invariant_except_break
                li <= levels@.len(),
            invariant
                levels@ == book_side(*book, order.side),
                all == allocate(levels@, order.quantity as nat, order.side, order.limit_price),
                plan.children@.len() <= all.len(),
                all == all.take(plan.children@.len() as int)
                    + allocate(levels@.subrange(li as int, levels@.len() as int), remaining as nat, order.side, order.limit_price),
                forall|k: int| 0 <= k < plan.children@.len() ==> routed_child(#[trigger] plan.children@[k], *order, k, all[k]),
                plan.parent_order_id@ == order.id@,
                remaining <= order.quantity,
                plan.children@.len() + remaining <= order.quantity,
                plan.children@.len() == 0 ==> remaining == order.quantity,
            ensures
                plan.children@.len() == 0 ==> remaining == order.quantity,
                plan.children@.len() == all.len(),
                forall|k: int| 0 <= k < plan.children@.len() ==> routed_child(#[trigger] plan.children@[k], *order, k, all[k]),
                plan.parent_order_id@ == order.id@,
            decreases levels@.len() - li,
        {
            let ghost rest = levels@.subrange(li as int, levels@.len() as int);
            if remaining == 0 {
                proof {
                    assert(all.take(plan.children@.len() as int) =~= all);
                }
                break;
            }
            let level = &levels[li];
            assert(rest[0] == *level);
            if let Some(limit_price) = order.limit_price {
                let allowed = match order.side {
                    VenueOrderSide::Buy => level.price <= limit_price,
                    VenueOrderSide::Sell => level.price >= limit_price,
                };
                if !allowed {
                    proof {
                        assert(all.take(plan.children@.len() as int) =~= all);
                    }
                    break;
                }
            }
            let level_quantity = if level.quantity < remaining { level.quantity } else { remaining };
            let ghost n = plan.children@.len() as int;
            let ghost f = fill(level.sources@, level_quantity as nat);
            let ghost fm = f.map_values(|e: (VenueId, nat)| (e.0, e.1, level.price));
            let ghost rest2 = allocate(levels@.subrange(li + 1, levels@.len() as int),
                (remaining - fill_total(f)) as nat, order.side, order.limit_price);
            proof {
                assert(rest.drop_first() =~= levels@.subrange(li + 1, levels@.len() as int));
                lemma_fill_bounds(level.sources@, level_quantity as nat);
                assert(price_allowed(order.side, order.limit_price, level.price));
                assert(allocate(rest, remaining as nat, order.side, order.limit_price) == fm + rest2);
                assert(all.subrange(n, all.len() as int) =~= fm + rest2);
                assert(all.subrange(n + f.len(), all.len() as int) =~= rest2);
                assert(n + f.len() <= all.len());
            }
            self.split_level(order, level, level_quantity, &mut remaining, &mut plan, Ghost(all));
            proof {
                assert(plan.children@.len() == n + f.len());
                assert(all =~= all.take(plan.children@.len() as int) + rest2);
            }
            li += 1;
        }
        proof {
            if li == levels.len() {
                assert(levels@.subrange(li as int, levels@.len() as int) =~= Seq::<AggregatedLevel>::empty());
                assert(all.take(plan.children@.len() as int) =~= all);
            }
        }
        if plan.children.len() == 0 {
            return Err(RouterError::InsufficientLiquidity { requested: order.quantity, available: order.quantity - remaining });
        }
        Ok(plan)
    }

    fn split_level(
        &self,
        parent: &ParentOrder,
        level: &AggregatedLevel,
        level_quantity: u64,
        remaining: &mut u64,
        plan: &mut ExecutionPlan,
        Ghost(all): Ghost<Seq<(VenueId, nat, u64)>>,
    )
        requires
            level_quantity <= *old(remaining),
            *old(remaining) > 0,
            old(plan).children@.len() + fill(level.sources@, level_quantity as nat).len() <= all.len(),
            forall|k: int| 0 <= k < old(plan).children@.len() ==> routed_child(#[trigger] old(plan).children@[k], *parent, k, all[k]),
            old(plan).children@.len() + *old(remaining) <= parent.quantity,
            all.subrange(old(plan).children@.len() as int, all.len() as int)
                == fill(level.sources@, level_quantity as nat).map_values(|e: (VenueId, nat)| (e.0, e.1, level.price))
                    + all.subrange(old(plan).children@.len() as int + fill(level.sources@, level_quantity as nat).len(), all.len() as int),
        ensures
            final(plan).children@.len() == old(plan).children@.len() + fill(level.sources@, level_quantity as nat).len(),
            *final(remaining) == *old(remaining) - fill_total(fill(level.sources@, level_quantity as nat)),
            forall|k: int| 0 <= k < final(plan).children@.len() ==> routed_child(#[trigger] final(plan).children@[k], *parent, k, all[k]),
            final(plan).parent_order_id == old(plan).parent_order_id,
            final(plan).children@.len() + *final(remaining) <= parent.quantity,
            fill(level.sources@, level_quantity as nat).len() == 0 ==> *final(remaining) == *old(remaining),
    {
        let ghost f = fill(level.sources@, level_quantity as nat);
        let ghost start = plan.children@.len();
        let mut level_remaining = level_quantity;
        let mut si: usize = 0;
        proof {
            lemma_fill_bounds(level.sources@, level_quantity as nat);
            assert(level.sources@.subrange(0, level.sources@.len() as int) =~= level.sources@);
            assert(f.take(0) + f =~= f);
        }
        while si < level.sources.len()
            invariant
                si <= level.sources@.len(),
                level_remaining <= level_quantity,
                start <= plan.children@.len(),
                f == fill(level.sources@, level_quantity as nat),
                plan.children@.len() - start <= f.len(),
                start + f.len() <= all.len(),
                f == f.take(plan.children@.len() - start) + fill(level.sources@.subrange(si as int, level.sources@.len() as int), level_remaining as nat),
                fill_total(f) == (level_quantity - level_remaining) + fill_total(fill(level.sources@.subrange(si as int, level.sources@.len() as int), level_remaining as nat)),
                *remaining == *old(remaining) - (level_quantity - level_remaining),
                forall|k: int| 0 <= k < plan.children@.len() ==> routed_child(#[trigger] plan.children@[k], *parent, k, all[k]),
                all.subrange(start as int, all.len() as int)
                    == f.map_values(|e: (VenueId, nat)| (e.0, e.1, level.price)) + all.subrange(start + f.len() as int, all.len() as int),
                plan.children@.len() + *remaining <= parent.quantity,
                plan.parent_order_id == old(plan).parent_order_id,
                start == old(plan).children@.len(),
                level_quantity <= *old(remaining),
            ensures
                si == level.sources@.len() || level_remaining == 0,
            decreases level.sources@.len() - si,
        {
            let ghost tail = level.sources@.subrange(si as int, level.sources@.len() as int);
            if level_remaining == 0 {
                break;
            }
            let source = level.sources[si];
            assert(tail[0] == source);
            assert(tail.drop_first() =~= level.sources@.subrange(si + 1, level.sources@.len() as int));
            let quantity = if source.quantity < level_remaining { source.quantity } else { level_remaining };
            proof {
                let ft = fill(tail, level_remaining as nat);
                let rest_f = fill(tail.drop_first(), (level_remaining - quantity) as nat);
                if quantity > 0 {
                    assert(ft =~= seq![(source.venue, quantity as nat)] + rest_f);
                    assert(ft[0] == (source.venue, quantity as nat));
                    assert(ft.drop_first() =~= rest_f);
                    assert(fill_total(ft) == quantity + fill_total(rest_f));
                }
            }
            if quantity > 0 {
                let child_index = plan.children.len() as u64 + 1;
                let mut child_id_text = parent.id.0.clone();
                push_char(&mut child_id_text, '-');
                let digits = u64_text(child_index);
                push_str(&mut child_id_text, digits.as_str());
                let child = ChildOrder::new(child_id_text.as_str(), parent, source.venue, quantity, Some(level.price));
                let ghost k = plan.children@.len() as int;
                proof {
                    let j = k - start;
                    assert(f.take(j).len() == j);
                    assert(f[j] == (source.venue, quantity as nat));
                    assert(f.take(j).push((source.venue, quantity as nat)) =~= f.take(j + 1));
                    assert(f =~= f.take(j + 1) + fill(tail.drop_first(), (level_remaining - quantity) as nat));
                    assert(all.subrange(start as int, all.len() as int)[j] == all[k]);
                }
                plan.add_child(child);
                level_remaining = level_remaining - quantity;
                *remaining = *remaining - quantity;
            } else {
                proof {
                    assert(fill(tail, level_remaining as nat) =~= fill(tail.drop_first(), level_remaining as nat));
                }
            }
            si += 1;
        }
        proof {
            let j = plan.children@.len() - start;
            let rest = fill(level.sources@.subrange(si as int, level.sources@.len() as int), level_remaining as nat);
            if si == level.sources.len() {
                assert(level.sources@.subrange(si as int, level.sources@.len() as int) =~= Seq::<LiquiditySource>::empty());
            }
            assert(rest.len() == 0);
            assert(f =~= f.take(j) + rest);
            assert(f.take(j) =~= f);
        }
    }
}

impl Default for Router {
    fn default() -> (r: Self)
        ensures
            r.policy == RoutingPolicy::BestPriceThenLiquidity,
    {
        Self::new()
    }
}

/// A fill never takes more than its cap, and every take is positive.
pub proof fn lemma_fill_bounds(sources: Seq<LiquiditySource>, cap: nat)
    ensures
        fill_total(fill(sources, cap)) <= cap,
        fill(sources, cap).len() <= cap,
        forall|i: int| 0 <= i < fill(sources, cap).len() ==> (#[trigger] fill(sources, cap)[i]).1 > 0,
    decreases sources.len(),
{
    if sources.len() > 0 && cap > 0 {
        let q = min_nat(sources[0].quantity as nat, cap);
        lemma_fill_bounds(sources.drop_first(), (cap - q) as nat);
        let head: Seq<(VenueId, nat)> = if q > 0 { seq![(sources[0].venue, q)] } else { Seq::empty() };
        let f = fill(sources, cap);
        if q > 0 {
            assert(f.drop_first() =~= fill(sources.drop_first(), (cap - q) as nat));
        } else {
            assert(f =~= fill(sources.drop_first(), (cap - q) as nat));
        }
    }
}

/// What the sources of a level hold together.
pub open spec fn sources_total(sources: Seq<LiquiditySource>) -> nat
    decreases sources.len(),
{
    if sources.len() == 0 { 0 } else { sources[0].quantity as nat + sources_total(sources.drop_first()) }
}

/// What an order may take from the levels: each level in turn while its price
/// is allowed, as much as it and its sources both hold.
pub open spec fn reachable_depth(levels: Seq<AggregatedLevel>, side: VenueOrderSide, limit: Option<u64>) -> nat
    decreases levels.len(),
{
    if levels.len() == 0 || !price_allowed(side, limit, levels[0].price) {
        0
    } else {
        min_nat(levels[0].quantity as nat, sources_total(levels[0].sources@))
            + reachable_depth(levels.drop_first(), side, limit)
    }
}

/// A fill takes what the sources hold, up to its cap.
pub proof fn lemma_fill_total(sources: Seq<LiquiditySource>, cap: nat)
    ensures
        fill_total(fill(sources, cap)) == min_nat(sources_total(sources), cap),
    decreases sources.len(),
{
    if sources.len() > 0 && cap > 0 {
        let q = min_nat(sources[0].quantity as nat, cap);
        lemma_fill_total(sources.drop_first(), (cap - q) as nat);
        let f = fill(sources, cap);
        if q > 0 {
            assert(f.drop_first() =~= fill(sources.drop_first(), (cap - q) as nat));
        } else {
            assert(f =~= fill(sources.drop_first(), (cap - q) as nat));
        }
    }
}

proof fn lemma_alloc_total_concat(a: Seq<(VenueId, nat, u64)>, b: Seq<(VenueId, nat, u64)>)
    ensures
        alloc_total(a + b) == alloc_total(a) + alloc_total(b),
    decreases a.len(),
{
    if a.len() > 0 {
        lemma_alloc_total_concat(a.drop_first(), b);
        assert((a + b).drop_first() =~= a.drop_first() + b);
    } else {
        assert(a + b =~= b);
    }
}

proof fn lemma_alloc_total_fill(f: Seq<(VenueId, nat)>, price: u64)
    ensures
        alloc_total(f.map_values(|e: (VenueId, nat)| (e.0, e.1, price))) == fill_total(f),
    decreases f.len(),
{
    if f.len() > 0 {
        lemma_alloc_total_fill(f.drop_first(), price);
        assert(f.map_values(|e: (VenueId, nat)| (e.0, e.1, price)).drop_first()
            =~= f.drop_first().map_values(|e: (VenueId, nat)| (e.0, e.1, price)));
    }
}

/// Routing takes the whole quantity when the allowed levels hold it, and
/// everything they hold otherwise.
pub proof fn lemma_routed_total(levels: Seq<AggregatedLevel>, quantity: nat, side: VenueOrderSide, limit: Option<u64>)
    ensures
        alloc_total(allocate(levels, quantity, side, limit)) == min_nat(quantity, reachable_depth(levels, side, limit)),
    decreases levels.len(),
{
    if levels.len() == 0 || quantity == 0 || !price_allowed(side, limit, levels[0].price) {
    } else {
        let l = levels[0];
        let cap = min_nat(l.quantity as nat, quantity);
        let f = fill(l.sources@, cap);
        lemma_fill_total(l.sources@, cap);
        lemma_alloc_total_fill(f, l.price);
        let rest = (quantity - fill_total(f)) as nat;
        lemma_routed_total(levels.drop_first(), rest, side, limit);
        lemma_alloc_total_concat(f.map_values(|e: (VenueId, nat)| (e.0, e.1, l.price)),
            allocate(levels.drop_first(), rest, side, limit));
    }
}


/// A price a limit order accepts: a buy pays at most its limit, a sell
/// receives at least its limit; without a limit every price is accepted.
pub open spec fn limit_accepts(side: VenueOrderSide, limit: Option<u64>, price: u64) -> bool {
    match limit {
        None => true,
        Some(l) => (side == VenueOrderSide::Buy && price <= l) || (side == VenueOrderSide::Sell && l <= price),
    }
}

/// What the levels hold from the best one on, up to the first level whose
/// price the order does not accept.
pub open spec fn allowed_quantity(levels: Seq<AggregatedLevel>, side: VenueOrderSide, limit: Option<u64>) -> nat
    decreases levels.len(),
{
    if levels.len() == 0 || !limit_accepts(side, limit, levels[0].price) {
        0
    } else {
        levels[0].quantity as nat + allowed_quantity(levels.drop_first(), side, limit)
    }
}

/// Each level's quantity is what its sources hold together.
pub open spec fn levels_consistent(levels: Seq<AggregatedLevel>) -> bool {
    forall|i: int| 0 <= i < levels.len() ==> #[trigger] levels[i].quantity == sources_total(levels[i].sources@)
}

proof fn lemma_reachable_is_allowed(levels: Seq<AggregatedLevel>, side: VenueOrderSide, limit: Option<u64>)
    requires
        levels_consistent(levels),
    ensures
        reachable_depth(levels, side, limit) == allowed_quantity(levels, side, limit),
    decreases levels.len(),
{
    assert(levels.len() > 0 ==> (price_allowed(side, limit, levels[0].price) == limit_accepts(side, limit, levels[0].price)));
    if levels.len() > 0 && price_allowed(side, limit, levels[0].price) {
        let rest = levels.drop_first();
        assert forall|i: int| 0 <= i < rest.len() implies #[trigger] rest[i].quantity == sources_total(rest[i].sources@) by {
            assert(rest[i] == levels[i + 1]);
        }
        assert(levels[0].quantity == sources_total(levels[0].sources@));
        lemma_reachable_is_allowed(rest, side, limit);
    }
}

proof fn lemma_alloc_total_last(a: Seq<(VenueId, nat, u64)>)
    requires
        a.len() > 0,
    ensures
        alloc_total(a) == alloc_total(a.drop_last()) + a.last().1,
    decreases a.len(),
{
    if a.len() > 1 {
        lemma_alloc_total_last(a.drop_first());
        assert(a.drop_first().drop_last() =~= a.drop_last().drop_first());
        assert(a.drop_first().last() == a.last());
        assert(a.drop_last()[0] == a[0]);
        assert(alloc_total(a.drop_last()) == a[0].1 + alloc_total(a.drop_last().drop_first()));
    } else {
        assert(a.drop_first().len() == 0);
        assert(alloc_total(a.drop_first()) == 0);
        assert(a.drop_last().len() == 0);
        assert(alloc_total(a.drop_last()) == 0);
        assert(a.last() == a[0]);
    }
}

proof fn lemma_children_total(c: Seq<ChildOrder>, a: Seq<(VenueId, nat, u64)>)
    requires
        c.len() == a.len(),
        forall|k: int| 0 <= k < a.len() ==> #[trigger] c[k].quantity == a[k].1,
    ensures
        children_quantity(c) == alloc_total(a),
    decreases c.len(),
{
    if c.len() > 0 {
        let (c2, a2) = (c.drop_last(), a.drop_last());
        assert forall|k: int| 0 <= k < a2.len() implies #[trigger] c2[k].quantity == a2[k].1 by {
            assert(c2[k] == c[k] && a2[k] == a[k]);
        }
        lemma_children_total(c2, a2);
        lemma_alloc_total_last(a);
        assert(c.last().quantity == a.last().1) by {
            assert(c[c.len() - 1].quantity == a[a.len() - 1].1);
        }
    }
}

/// A routed plan asks for the order's whole quantity when the levels whose
/// price the order allows hold it, and for all they hold otherwise (each
/// level holding what its sources hold).
pub proof fn lemma_route_plan_total(plan: ExecutionPlan, order: ParentOrder, book: AggregatedOrderBook)
    requires
        routed_plan(plan, order, book),
        levels_consistent(book_side(book, order.side)),
    ensures
        children_quantity(plan.children@) == min_nat(order.quantity as nat,
            allowed_quantity(book_side(book, order.side), order.side, order.limit_price)),
{
    let levels = book_side(book, order.side);
    let a = allocate(levels, order.quantity as nat, order.side, order.limit_price);
    lemma_routed_total(levels, order.quantity as nat, order.side, order.limit_price);
    lemma_reachable_is_allowed(levels, order.side, order.limit_price);
    assert forall|k: int| 0 <= k < a.len() implies #[trigger] plan.children@[k].quantity == a[k].1 by {
        assert(routed_child(plan.children@[k], order, k, a[k]));
    }
    lemma_children_total(plan.children@, a);
}


proof fn lemma_fill_positive(sources: Seq<LiquiditySource>, cap: nat)
    ensures
        forall|i: int| 0 <= i < fill(sources, cap).len() ==> #[trigger] fill(sources, cap)[i].1 > 0,
    decreases sources.len(),
{
    if !(sources.len() == 0 || cap == 0) {
        let q = min_nat(sources[0].quantity as nat, cap);
        let head: Seq<(VenueId, nat)> = if q > 0 { seq![(sources[0].venue, q)] } else { Seq::empty() };
        let rest = fill(sources.drop_first(), (cap - q) as nat);
        lemma_fill_positive(sources.drop_first(), (cap - q) as nat);
        let f = fill(sources, cap);
        assert(f == head + rest);
        assert forall|i: int| 0 <= i < f.len() implies #[trigger] f[i].1 > 0 by {
            if i < head.len() {
                assert(f[i] == head[i]);
            } else {
                assert(f[i] == rest[i - head.len()]);
            }
        }
    }
}

/// Every allocation takes a positive quantity, priced at a level the order accepts.
proof fn lemma_alloc_prices(levels: Seq<AggregatedLevel>, remaining: nat, side: VenueOrderSide, limit: Option<u64>)
    ensures
        forall|i: int| #![trigger allocate(levels, remaining, side, limit)[i]] 0 <= i < allocate(levels, remaining, side, limit).len()
            ==> limit_accepts(side, limit, allocate(levels, remaining, side, limit)[i].2)
                && allocate(levels, remaining, side, limit)[i].1 > 0
                && exists|j: int| 0 <= j < levels.len() && levels[j].price == allocate(levels, remaining, side, limit)[i].2,
    decreases levels.len(),
{
    if !(levels.len() == 0 || remaining == 0 || !price_allowed(side, limit, levels[0].price)) {
        let l = levels[0];
        let f = fill(l.sources@, min_nat(l.quantity as nat, remaining));
        let head = f.map_values(|e: (VenueId, nat)| (e.0, e.1, l.price));
        let rest = allocate(levels.drop_first(), (remaining - fill_total(f)) as nat, side, limit);
        lemma_alloc_prices(levels.drop_first(), (remaining - fill_total(f)) as nat, side, limit);
        lemma_fill_positive(l.sources@, min_nat(l.quantity as nat, remaining));
        let a = allocate(levels, remaining, side, limit);
        assert(a == head + rest);
        assert(limit_accepts(side, limit, l.price));
        assert forall|i: int| #![trigger a[i]] 0 <= i < a.len() implies limit_accepts(side, limit, a[i].2)
            && a[i].1 > 0
            && exists|j: int| 0 <= j < levels.len() && levels[j].price == a[i].2 by {
            if i < head.len() {
                assert(a[i] == head[i]);
                assert(head[i].1 == f[i].1);
                assert(f[i].1 > 0);
                assert(a[i].1 > 0);
                assert(levels[0].price == a[i].2);
            } else {
                assert(a[i] == rest[i - head.len()]);
                assert(limit_accepts(side, limit, rest[i - head.len()].2));
                assert(a[i].1 > 0);
                let j = choose|j: int| 0 <= j < levels.drop_first().len() && levels.drop_first()[j].price == rest[i - head.len()].2;
                assert(levels[j + 1] == levels.drop_first()[j]);
            }
        }
    }
}

/// Every child of a routed plan asks for a positive quantity at a price the
/// order accepts: with
/// a limit, a buy child's price is at most the limit and a sell child's price
/// at least the limit. A buy takes ask levels and a sell bid levels: each
/// child's price is that of a level on that side of the book.
pub proof fn lemma_route_prices_within_limit(plan: ExecutionPlan, order: ParentOrder, book: AggregatedOrderBook)
    requires
        routed_plan(plan, order, book),
    ensures
        forall|k: int| 0 <= k < plan.children@.len() ==> {
            &&& (#[trigger] plan.children@[k]).price is Some
            &&& plan.children@[k].quantity > 0
            &&& (order.limit_price is Some && order.side == VenueOrderSide::Sell ==> plan.children@[k].price->0 >= order.limit_price->0)
            &&& (order.limit_price is Some && order.side == VenueOrderSide::Buy ==> plan.children@[k].price->0 <= order.limit_price->0)
            &&& (order.side == VenueOrderSide::Buy ==> exists|j: int| 0 <= j < book.asks@.len()
                    && book.asks@[j].price == plan.children@[k].price->0)
            &&& (order.side == VenueOrderSide::Sell ==> exists|j: int| 0 <= j < book.bids@.len()
                    && book.bids@[j].price == plan.children@[k].price->0)
        },
{
    let levels = book_side(book, order.side);
    let a = allocate(levels, order.quantity as nat, order.side, order.limit_price);
    lemma_alloc_prices(levels, order.quantity as nat, order.side, order.limit_price);
    assert forall|k: int| 0 <= k < plan.children@.len() implies {
        &&& (#[trigger] plan.children@[k]).price is Some
        &&& plan.children@[k].quantity > 0
        &&& (order.limit_price is Some && order.side == VenueOrderSide::Sell ==> plan.children@[k].price->0 >= order.limit_price->0)
        &&& (order.limit_price is Some && order.side == VenueOrderSide::Buy ==> plan.children@[k].price->0 <= order.limit_price->0)
        &&& (order.side == VenueOrderSide::Buy ==> exists|j: int| 0 <= j < book.asks@.len()
                && book.asks@[j].price == plan.children@[k].price->0)
        &&& (order.side == VenueOrderSide::Sell ==> exists|j: int| 0 <= j < book.bids@.len()
                && book.bids@[j].price == plan.children@[k].price->0)
    } by {
        assert(routed_child(plan.children@[k], order, k, a[k]));
        assert(limit_accepts(order.side, order.limit_price, a[k].2));
    }
}

} // verus!
