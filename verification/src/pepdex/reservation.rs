//! Balance reserved for a parent order while it executes.
use vstd::prelude::*;
use crate::assoc::{keys_unique, lemma_to_map_contains, lemma_to_map_index, lemma_to_map_push, lemma_to_map_update, to_map};
use crate::pepdex::balance::{balance_in, bkey, settlement_outcome, BalanceError, BalanceLedger};
use crate::pepdex::settlement::SettlementResult;
use crate::pepdex::order::{OrderId, ParentOrder};
use crate::text::push_str;

verus! {

#[derive(Debug, PartialEq, Eq, Hash)]
pub struct ReservationId(pub String);

impl View for ReservationId {
    type V = Seq<char>;

    open spec fn view(&self) -> Seq<char> {
        self.0@
    }
}

impl Clone for ReservationId {
    fn clone(&self) -> (r: Self)
        ensures
            r@ == self@,
    {
        ReservationId(self.0.clone())
    }
}

impl ReservationId {
    pub fn new(id: &str) -> (r: Self)
        ensures
            r@ == id@,
    {
        ReservationId(id.to_string())
    }

    pub fn as_str(&self) -> (r: &str)
        ensures
            r@ == self@,
    {
        self.0.as_str()
    }
}

#[derive(Debug, Clone, Copy, PartialEq, Eq, Structural)]
pub enum ReservationStatus {
    Active,
    PartiallyConsumed,
    Consumed,
    Released,
    Cancelled,
}

#[derive(Debug)]
pub struct Reservation {
    pub id: ReservationId,
    pub parent_order_id: OrderId,
    pub user: String,
    pub asset: String,
    /// Amount moved from available to locked.
    pub amount: i128,
    /// Amount already consumed by settlement.
    pub consumed: i128,
    pub status: ReservationStatus,
}

/// `a - b` clamped to the `i128` range.
pub open spec fn sat_sub_i128(a: i128, b: i128) -> int {
    if a - b > i128::MAX { i128::MAX as int } else if a - b < i128::MIN { i128::MIN as int } else { a - b }
}

pub open spec fn finished_status(s: ReservationStatus) -> bool {
    s == ReservationStatus::Consumed || s == ReservationStatus::Released || s == ReservationStatus::Cancelled
}

/// A reservation as plain values: (id, parent, user, asset, amount, consumed, status).
pub type ReservationView = (Seq<char>, Seq<char>, Seq<char>, Seq<char>, i128, i128, ReservationStatus);

impl Reservation {
    pub open spec fn rview(self) -> ReservationView {
        (self.id@, self.parent_order_id@, self.user@, self.asset@, self.amount, self.consumed, self.status)
    }

    /// Amount reserved and not consumed yet.
    pub fn remaining(&self) -> (r: i128)
        ensures
            r == sat_sub_i128(self.amount, self.consumed),
    {
        match self.amount.checked_sub(self.consumed) {
            Some(v) => v,
            None => if self.consumed > 0 { i128::MIN } else { i128::MAX },
        }
    }

    pub fn is_finished(&self) -> (r: bool)
        ensures
            r == finished_status(self.status),
    {
        match self.status {
            ReservationStatus::Consumed | ReservationStatus::Released | ReservationStatus::Cancelled => true,
            _ => false,
        }
    }
}

impl Clone for Reservation {
    fn clone(&self) -> (r: Self)
        ensures
            r.rview() == self.rview(),
    {
        Reservation {
            id: self.id.clone(),
            parent_order_id: self.parent_order_id.clone(),
            user: self.user.clone(),
            asset: self.asset.clone(),
            amount: self.amount,
            consumed: self.consumed,
            status: self.status,
        }
    }
}

#[derive(Debug)]
pub enum ReservationError {
    InvalidAmount,
    NotFound,
    AlreadyFinished,
    ExceedsReservation,
    Balance(BalanceError),
}

/// The identifier a parent order's reservation gets.
pub open spec fn reservation_id_of(order_id: Seq<char>) -> Seq<char> {
    order_id + "-RESERVE"@
}

pub open spec fn res_entry(e: (ReservationId, Reservation)) -> (Seq<char>, ReservationView) {
    (e.0@, e.1.rview())
}

/// Reservations over a balance ledger, which the manager owns.
pub struct ReservationManager {
    balances: BalanceLedger,
    reservations: Vec<(ReservationId, Reservation)>,
}

impl ReservationManager {
    pub closed spec fn pairs(&self) -> Seq<(Seq<char>, ReservationView)> {
        self.reservations@.map_values(|e: (ReservationId, Reservation)| res_entry(e))
    }

    /// The reservations, by identifier.
    pub closed spec fn view(&self) -> Map<Seq<char>, ReservationView> {
        to_map(self.pairs())
    }

    /// The ledger whose balances are reserved.
    pub closed spec fn ledger(&self) -> BalanceLedger {
        self.balances
    }

    pub closed spec fn wf(&self) -> bool {
        &&& keys_unique(self.pairs())
        &&& self.balances.wf()
        &&& forall|i: int| 0 <= i < self.reservations@.len() ==> (#[trigger] self.reservations@[i]).0@ == self.reservations@[i].1.id@
    }

    /// The ledger of a well-formed reservation table is well formed.
    pub proof fn lemma_ledger_wf(&self)
        requires
            self.wf(),
        ensures
            self.ledger().wf(),
    {
    }

    pub fn new(balances: BalanceLedger) -> (r: Self)
        requires
            balances.wf(),
        ensures
            r.wf(),
            r.ledger() == balances,
            r.view() == Map::<Seq<char>, ReservationView>::empty(),
    {
        let r = ReservationManager { balances, reservations: Vec::new() };
        assert(r.pairs() =~= Seq::empty());
        r
    }

    /// The ledger whose balances are reserved.
    pub fn balances(&self) -> (r: &BalanceLedger)
        ensures
            *r == self.ledger(),
            self.wf() ==> r.wf(),
    {
        &self.balances
    }

    fn find(&self, id: &ReservationId) -> (r: Option<usize>)
        requires
            self.wf(),
        ensures
            r is None ==> !self.view().contains_key(id@),
            r matches Some(i) ==> i < self.reservations@.len() && self.pairs()[i as int].0 == id@
                && self.view().contains_key(id@)
                && self.view()[id@] == self.reservations@[i as int].1.rview(),
    {
        let mut i: usize = 0;
        while i < self.reservations.len()
            invariant
                i <= self.reservations@.len(),
                self.wf(),
                forall|j: int| 0 <= j < i ==> self.pairs()[j].0 != id@,
            decreases self.reservations@.len() - i,
        {
            assert(self.pairs()[i as int] == res_entry(self.reservations@[i as int]));
            if self.reservations[i].0.0.eq(&id.0) {
                proof {
                    lemma_to_map_index(self.pairs(), i as int);
                }
                return Some(i);
            }
            i += 1;
        }
        proof {
            lemma_to_map_contains(self.pairs(), id@);
        }
        None
    }

    /// Stores a reservation under its id, replacing any earlier one.
    fn put(&mut self, res: Reservation)
        requires
            old(self).wf(),
        ensures
            final(self).wf(),
            final(self).ledger() == old(self).ledger(),
            final(self).view() == old(self).view().insert(res.id@, res.rview()),
    {
        let ghost before = self.pairs();
        let id = res.id.clone();
        match self.find(&id) {
            Some(i) => {
                self.reservations.set(i, (id, res));
                proof {
                    assert(self.pairs() =~= before.update(i as int, (before[i as int].0, res.rview())));
                    lemma_to_map_update(before, i as int, res.rview());
                }
            },
            None => {
                self.reservations.push((id, res));
                proof {
                    assert(self.pairs() =~= before.push((res.id@, res.rview())));
                    lemma_to_map_push(before, res.id@, res.rview());
                }
            },
        }
    }

    /// Locks `amount` of the order's user in `asset` and records the reservation.
    pub fn reserve(&mut self, order: &ParentOrder, asset: &str, amount: i128) -> (r: Result<ReservationId, ReservationError>)
        requires
            old(self).wf(),
            amount > 0 ==> balance_in(old(self).ledger().view(), bkey(order.user@, asset@)).locked + amount <= i128::MAX,
        ensures
            final(self).wf(),
            amount <= 0 ==> (r matches Err(ReservationError::InvalidAmount) && final(self).view() == old(self).view()
                && final(self).ledger() == old(self).ledger()),
            amount > 0 && balance_in(old(self).ledger().view(), bkey(order.user@, asset@)).available < amount ==> {
                &&& r matches Err(ReservationError::Balance(BalanceError::InsufficientAvailable { .. }))
                &&& final(self).view() == old(self).view()
                &&& final(self).ledger().view() == old(self).ledger().view().insert(bkey(order.user@, asset@),
                        balance_in(old(self).ledger().view(), bkey(order.user@, asset@)))
            },
            amount > 0 && balance_in(old(self).ledger().view(), bkey(order.user@, asset@)).available >= amount ==> {
                let b = balance_in(old(self).ledger().view(), bkey(order.user@, asset@));
                &&& r matches Ok(id) && id@ == reservation_id_of(order.id@)
                &&& final(self).ledger().view() == old(self).ledger().view().insert(bkey(order.user@, asset@),
                        crate::pepdex::balance::Balance { available: (b.available - amount) as i128, locked: (b.locked + amount) as i128 })
                &&& final(self).view() == old(self).view().insert(reservation_id_of(order.id@),
                        (reservation_id_of(order.id@), order.id@, order.user@, asset@, amount, 0i128, ReservationStatus::Active))
            },
    {
        if amount <= 0 {
            return Err(ReservationError::InvalidAmount);
        }
        match self.balances.lock(order.user.as_str(), asset, amount) {
            Ok(()) => {},
            Err(e) => return Err(ReservationError::Balance(e)),
        }
        let mut id_text = order.id.0.clone();
        push_str(&mut id_text, "-RESERVE");
        proof {
            reveal_strlit("-RESERVE");
        }
        let reservation_id = ReservationId(id_text);
        let reservation = Reservation {
            id: reservation_id.clone(),
            parent_order_id: order.id.clone(),
            user: order.user.clone(),
            asset: asset.to_string(),
            amount,
            consumed: 0,
            status: ReservationStatus::Active,
        };
        self.put(reservation);
        Ok(reservation_id)
    }

    pub fn get(&self, id: &ReservationId) -> (r: Option<Reservation>)
        requires
            self.wf(),
        ensures
            r is Some <==> self.view().contains_key(id@),
            r matches Some(res) ==> res.rview() == self.view()[id@],
    {
        match self.find(id) {
            Some(i) => Some(self.reservations[i].1.clone()),
            None => None,
        }
    }

    /// Records that `amount` of the reservation was used.
    pub fn consume(&mut self, id: &ReservationId, amount: i128) -> (r: Result<(), ReservationError>)
        requires
            old(self).wf(),
        ensures
            final(self).wf(),
            final(self).ledger() == old(self).ledger(),
            consume_outcome(old(self).view(), final(self).view(), id@, amount, r),
    {
        if amount <= 0 {
            return Err(ReservationError::InvalidAmount);
        }
        let i = match self.find(id) {
            Some(i) => i,
            None => return Err(ReservationError::NotFound),
        };
        let res = self.reservations[i].1.clone();
        if res.is_finished() {
            return Err(ReservationError::AlreadyFinished);
        }
        if amount > res.remaining() {
            return Err(ReservationError::ExceedsReservation);
        }
        let consumed = res.consumed + amount;
        let status = if consumed == res.amount { ReservationStatus::Consumed } else { ReservationStatus::PartiallyConsumed };
        let updated = Reservation { consumed, status, ..res };
        self.put(updated);
        Ok(())
    }

    /// Unlocks what is left of the reservation and marks it released or cancelled.
    fn finish(&mut self, id: &ReservationId, cancel: bool) -> (r: Result<i128, ReservationError>)
        requires
            old(self).wf(),
            old(self).view().contains_key(id@) ==> unlock_fits(old(self).view()[id@], old(self).ledger()),
        ensures
            final(self).wf(),
            finish_outcome(old(self).view(), old(self).ledger(), final(self).view(), final(self).ledger(), id@, cancel, r),
    {
        let i = match self.find(id) {
            Some(i) => i,
            None => return Err(ReservationError::NotFound),
        };
        let res = self.reservations[i].1.clone();
        let done = if cancel { res.is_finished() } else {
            res.status == ReservationStatus::Released || res.status == ReservationStatus::Cancelled
        };
        if done {
            return Err(ReservationError::AlreadyFinished);
        }
        let remaining = res.remaining();
        if remaining > 0 {
            match self.balances.unlock(res.user.as_str(), res.asset.as_str(), remaining) {
                Ok(()) => {},
                Err(e) => return Err(ReservationError::Balance(e)),
            }
        }
        let status = if cancel { ReservationStatus::Cancelled } else { ReservationStatus::Released };
        let updated = Reservation { status, ..res };
        self.put(updated);
        Ok(remaining)
    }

    /// Releases unused locked balance.
    pub fn release(&mut self, id: &ReservationId) -> (r: Result<i128, ReservationError>)
        requires
            old(self).wf(),
            old(self).view().contains_key(id@) ==> unlock_fits(old(self).view()[id@], old(self).ledger()),
        ensures
            final(self).wf(),
            finish_outcome(old(self).view(), old(self).ledger(), final(self).view(), final(self).ledger(), id@, false, r),
    {
        self.finish(id, false)
    }

    /// Cancels the reservation, unlocking its remaining amount.
    pub fn cancel(&mut self, id: &ReservationId) -> (r: Result<i128, ReservationError>)
        requires
            old(self).wf(),
            old(self).view().contains_key(id@) ==> unlock_fits(old(self).view()[id@], old(self).ledger()),
        ensures
            final(self).wf(),
            finish_outcome(old(self).view(), old(self).ledger(), final(self).view(), final(self).ledger(), id@, true, r),
    {
        self.finish(id, true)
    }

    /// Applies a settlement to the ledger the reservations are made on.
    pub fn apply_settlement(&mut self, settlement: &SettlementResult) -> (r: Result<(), BalanceError>)
        requires
            old(self).wf(),
        ensures
            final(self).wf(),
            final(self).view() == old(self).view(),
            settlement_outcome(old(self).ledger().view(), final(self).ledger().view(), *settlement, r),
    {
        let r = self.balances.apply_settlement(settlement);
        proof {
            assert(self.pairs() == old(self).pairs());
        }
        r
    }

    /// Unfinished reservations of a user, in table order.
    pub fn active_for_user(&self, user: &str) -> (r: Vec<Reservation>)
        requires
            self.wf(),
        ensures
            forall|i: int| 0 <= i < r@.len() ==> {
                &&& self.view().contains_key((#[trigger] r@[i]).id@)
                &&& self.view()[r@[i].id@] == r@[i].rview()
                &&& r@[i].user@ == user@
                &&& !finished_status(r@[i].status)
            },
            forall|k: Seq<char>| #[trigger] self.view().contains_key(k) && self.view()[k].2 == user@ && !finished_status(self.view()[k].6)
                ==> exists|i: int| 0 <= i < r@.len() && r@[i].id@ == k,
    {
        let mut out: Vec<Reservation> = Vec::new();
        let mut i: usize = 0;
        while i < self.reservations.len()
            invariant
                i <= self.reservations@.len(),
                self.wf(),
                forall|k: int| #![trigger out@[k]] 0 <= k < out@.len() ==> exists|j: int| 0 <= j < i && #[trigger] self.pairs()[j] == (out@[k].id@, out@[k].rview())
                    && out@[k].user@ == user@ && !finished_status(out@[k].status),
                forall|j: int| 0 <= j < i && (#[trigger] self.pairs()[j]).1.2 == user@ && !finished_status(self.pairs()[j].1.6) ==>
                    exists|k: int| 0 <= k < out@.len() && out@[k].id@ == self.pairs()[j].0,
            decreases self.reservations@.len() - i,
        {
            assert(self.pairs()[i as int] == res_entry(self.reservations@[i as int]));
            let res = &self.reservations[i].1;
            if crate::text::str_eq(res.user.as_str(), user) && !res.is_finished() {
                let ghost before = out@;
                out.push(res.clone());
                proof {
                    assert forall|j: int| 0 <= j < i + 1 && (#[trigger] self.pairs()[j]).1.2 == user@ && !finished_status(self.pairs()[j].1.6) implies
                        exists|k: int| 0 <= k < out@.len() && out@[k].id@ == self.pairs()[j].0 by {
                        if j == i {
                            assert(out@[before.len() as int].id@ == self.pairs()[j].0);
                        } else {
                            let k = choose|k: int| 0 <= k < before.len() && before[k].id@ == self.pairs()[j].0;
                            assert(out@[k] == before[k]);
                        }
                    }
                    assert forall|k: int| #![trigger out@[k]] 0 <= k < out@.len() implies exists|j: int| 0 <= j < i + 1 && #[trigger] self.pairs()[j] == (out@[k].id@, out@[k].rview())
                        && out@[k].user@ == user@ && !finished_status(out@[k].status) by {
                        if k == before.len() {
                            assert(self.pairs()[i as int] == (out@[k].id@, out@[k].rview()));
                        } else {
                            assert(out@[k] == before[k]);
                        }
                    }
                }
            }
            i += 1;
        }
        proof {
            assert forall|k: int| 0 <= k < out@.len() implies {
                &&& self.view().contains_key((#[trigger] out@[k]).id@)
                &&& self.view()[out@[k].id@] == out@[k].rview()
            } by {
                let j = choose|j: int| 0 <= j < self.reservations@.len() && #[trigger] self.pairs()[j] == (out@[k].id@, out@[k].rview());
                lemma_to_map_index(self.pairs(), j);
            }
            assert forall|k: Seq<char>| #[trigger] self.view().contains_key(k) && self.view()[k].2 == user@ && !finished_status(self.view()[k].6)
                implies exists|i: int| 0 <= i < out@.len() && out@[i].id@ == k by {
                lemma_to_map_contains(self.pairs(), k);
                let j = choose|j: int| 0 <= j < self.pairs().len() && self.pairs()[j].0 == k;
                lemma_to_map_index(self.pairs(), j);
            }
        }
        out
    }
}

/// Unlocking what remains of a reservation stays within range.
pub open spec fn unlock_fits(v: ReservationView, ledger: BalanceLedger) -> bool {
    balance_in(ledger.view(), bkey(v.2, v.3)).available + sat_sub_i128(v.4, v.5) <= i128::MAX
}

/// What consuming `amount` of a reservation does.
pub open spec fn consume_outcome(before: Map<Seq<char>, ReservationView>, after: Map<Seq<char>, ReservationView>, id: Seq<char>, amount: i128, r: Result<(), ReservationError>) -> bool {
    if amount <= 0 {
        r matches Err(ReservationError::InvalidAmount) && after == before
    } else if !before.contains_key(id) {
        r matches Err(ReservationError::NotFound) && after == before
    } else if finished_status(before[id].6) {
        r matches Err(ReservationError::AlreadyFinished) && after == before
    } else if amount > sat_sub_i128(before[id].4, before[id].5) {
        r matches Err(ReservationError::ExceedsReservation) && after == before
    } else {
        let v = before[id];
        let consumed = (v.5 + amount) as i128;
        r is Ok && after == before.insert(id, (v.0, v.1, v.2, v.3, v.4, consumed,
            if consumed == v.4 { ReservationStatus::Consumed } else { ReservationStatus::PartiallyConsumed }))
    }
}

/// What releasing (or cancelling) a reservation does.
pub open spec fn finish_outcome(
    before: Map<Seq<char>, ReservationView>,
    ledger_before: BalanceLedger,
    after: Map<Seq<char>, ReservationView>,
    ledger_after: BalanceLedger,
    id: Seq<char>,
    cancel: bool,
    r: Result<i128, ReservationError>,
) -> bool {
    if !before.contains_key(id) {
        r matches Err(ReservationError::NotFound) && after == before && ledger_after == ledger_before
    } else {
        let v = before[id];
        let rem = sat_sub_i128(v.4, v.5);
        let key = bkey(v.2, v.3);
        let b = balance_in(ledger_before.view(), key);
        if (cancel && finished_status(v.6)) || (!cancel && (v.6 == ReservationStatus::Released || v.6 == ReservationStatus::Cancelled)) {
            r matches Err(ReservationError::AlreadyFinished) && after == before && ledger_after == ledger_before
        } else if rem > 0 && b.locked < rem {
            r matches Err(ReservationError::Balance(BalanceError::InsufficientLocked { .. })) && after == before
                && ledger_after.view() == ledger_before.view().insert(key, b)
        } else {
            &&& r == Ok::<i128, ReservationError>(rem as i128)
            &&& after == before.insert(id, (v.0, v.1, v.2, v.3, v.4, v.5,
                    if cancel { ReservationStatus::Cancelled } else { ReservationStatus::Released }))
            &&& (rem > 0 ==> ledger_after.view() == ledger_before.view().insert(key,
                    crate::pepdex::balance::Balance { available: (b.available + rem) as i128, locked: (b.locked - rem) as i128 }))
            &&& (rem <= 0 ==> ledger_after == ledger_before)
        }
    }
}

/// A reservation released once cannot be released again: the second release
/// fails with `AlreadyFinished` and changes nothing.
pub proof fn lemma_release_twice(
    v0: Map<Seq<char>, ReservationView>, l0: BalanceLedger,
    v1: Map<Seq<char>, ReservationView>, l1: BalanceLedger,
    v2: Map<Seq<char>, ReservationView>, l2: BalanceLedger,
    id: Seq<char>, r1: Result<i128, ReservationError>, r2: Result<i128, ReservationError>,
)
    requires
        finish_outcome(v0, l0, v1, l1, id, false, r1),
        r1 is Ok,
        finish_outcome(v1, l1, v2, l2, id, false, r2),
    ensures
        r2 matches Err(ReservationError::AlreadyFinished),
        v2 == v1,
        l2 == l1,
{
}

} // verus!
