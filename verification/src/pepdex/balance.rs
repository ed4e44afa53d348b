//! Per-user, per-asset balances, split into available and locked amounts.
use vstd::prelude::*;
use crate::assoc::{keys_unique, lemma_to_map_contains, lemma_to_map_index, lemma_to_map_push, lemma_to_map_update, to_map};
use crate::pepdex::settlement::{SettlementResult, SettlementStatus};

verus! {

#[derive(Debug, PartialEq, Eq, Hash)]
pub struct BalanceKey {
    pub user: String,
    pub asset: String,
}

impl BalanceKey {
    pub fn new(user: &str, asset: &str) -> (r: Self)
        ensures
            r.user@ == user@,
            r.asset@ == asset@,
    {
        BalanceKey { user: user.to_string(), asset: asset.to_string() }
    }
}

#[derive(Debug, Clone, Copy, PartialEq, Eq, Structural)]
pub struct Balance {
    /// Available balance that can be used for new orders.
    pub available: i128,
    /// Balance locked by pending orders.
    pub locked: i128,
}

pub open spec fn zero_balance() -> Balance {
    Balance { available: 0, locked: 0 }
}

impl Balance {
    pub fn new() -> (r: Self)
        ensures
            r == zero_balance(),
    {
        Balance { available: 0, locked: 0 }
    }

    /// Available plus locked; the sum must fit in an `i128`.
    pub fn total(&self) -> (r: i128)
        requires
            i128::MIN <= self.available + self.locked <= i128::MAX,
        ensures
            r == self.available + self.locked,
    {
        self.available + self.locked
    }
}

impl Default for Balance {
    fn default() -> (r: Self)
        ensures
            r == zero_balance(),
    {
        Balance { available: 0, locked: 0 }
    }
}

#[derive(Debug)]
#[allow(inconsistent_fields)]
pub enum BalanceError {
    InvalidAmount,
    Overflow,
    InsufficientAvailable { asset: String, available: i128, requested: u128 },
    InsufficientLocked { asset: String, locked: i128, requested: i128 },
    SettlementNotFinal,
}

/// Magnitude of an `i128` as `u128`.
pub fn magnitude(x: i128) -> (r: u128)
    ensures
        r == (if x < 0 { -(x as int) } else { x as int }),
{
    if x < 0 {
        ((-(x + 1)) as u128) + 1
    } else {
        x as u128
    }
}

/// Key of a balance in the ledger's map.
pub open spec fn bkey(user: Seq<char>, asset: Seq<char>) -> (Seq<char>, Seq<char>) {
    (user, asset)
}

/// The balance a map holds for a key, zero where there is none.
pub open spec fn balance_in(m: Map<(Seq<char>, Seq<char>), Balance>, k: (Seq<char>, Seq<char>)) -> Balance {
    if m.contains_key(k) { m[k] } else { zero_balance() }
}

pub open spec fn entry_view(e: (BalanceKey, Balance)) -> ((Seq<char>, Seq<char>), Balance) {
    ((e.0.user@, e.0.asset@), e.1)
}

/// Ledger of balances, read as a map from (user, asset) to balance.
#[derive(Debug)]
pub struct BalanceLedger {
    entries: Vec<(BalanceKey, Balance)>,
}

impl BalanceLedger {
    pub closed spec fn pairs(&self) -> Seq<((Seq<char>, Seq<char>), Balance)> {
        self.entries@.map_values(|e: (BalanceKey, Balance)| entry_view(e))
    }

    pub closed spec fn view(&self) -> Map<(Seq<char>, Seq<char>), Balance> {
        to_map(self.pairs())
    }

    /// Each (user, asset) occurs once.
    pub closed spec fn wf(&self) -> bool {
        &&& keys_unique(self.pairs())
        &&& forall|i: int| 0 <= i < self.pairs().len() ==> (#[trigger] self.pairs()[i]).1.available >= 0
            && self.pairs()[i].1.locked >= 0
    }

    /// No balance is negative.
    pub proof fn lemma_nonnegative(&self, k: (Seq<char>, Seq<char>))
        requires
            self.wf(),
        ensures
            balance_in(self.view(), k).available >= 0,
            balance_in(self.view(), k).locked >= 0,
    {
        lemma_to_map_contains(self.pairs(), k);
        if self.view().contains_key(k) {
            let i = choose|i: int| 0 <= i < self.pairs().len() && self.pairs()[i].0 == k;
            lemma_to_map_index(self.pairs(), i);
        }
    }

    pub fn new() -> (r: Self)
        ensures
            r.wf(),
            r.view() == Map::<(Seq<char>, Seq<char>), Balance>::empty(),
    {
        let r = BalanceLedger { entries: Vec::new() };
        assert(r.pairs() =~= Seq::empty());
        r
    }

    fn find(&self, user: &str, asset: &str) -> (r: Option<usize>)
        requires
            self.wf(),
        ensures
            r is None ==> !self.view().contains_key(bkey(user@, asset@)),
            r matches Some(i) ==> i < self.pairs().len() && self.pairs()[i as int].0 == bkey(user@, asset@)
                && self.view().contains_key(bkey(user@, asset@))
                && self.view()[bkey(user@, asset@)] == self.entries@[i as int].1,
    {
        let ghost u = user@;
        let ghost a = asset@;
        let mut i: usize = 0;
        while i < self.entries.len()
            invariant
                i <= self.entries@.len(),
                self.wf(),
                u == user@,
                a == asset@,
                forall|j: int| 0 <= j < i ==> self.pairs()[j].0 != bkey(u, a),
            decreases self.entries@.len() - i,
        {
            let e = &self.entries[i];
            assert(self.pairs()[i as int] == entry_view(self.entries@[i as int]));
            if crate::text::str_eq(e.0.user.as_str(), user) && crate::text::str_eq(e.0.asset.as_str(), asset) {
                proof {
                    assert(self.pairs()[i as int] == entry_view(self.entries@[i as int]));
                    lemma_to_map_index(self.pairs(), i as int);
                }
                return Some(i);
            }
            i += 1;
        }
        proof {
            lemma_to_map_contains(self.pairs(), bkey(u, a));
        }
        None
    }

    /// Position of an entry, inserting a zero entry where there is none.
    fn entry_index(&mut self, user: &str, asset: &str) -> (r: usize)
        requires
            old(self).wf(),
        ensures
            final(self).wf(),
            r < final(self).pairs().len(),
            final(self).pairs()[r as int].0 == bkey(user@, asset@),
            final(self).view() == old(self).view().insert(bkey(user@, asset@), balance_in(old(self).view(), bkey(user@, asset@))),
            final(self).entries@[r as int].1 == balance_in(old(self).view(), bkey(user@, asset@)),
    {
        match self.find(user, asset) {
            Some(i) => {
                proof {
                    assert(self.view().insert(bkey(user@, asset@), self.view()[bkey(user@, asset@)]) =~= self.view());
                }
                i
            },
            None => {
                let ghost before = self.pairs();
                self.entries.push((BalanceKey::new(user, asset), Balance::new()));
                proof {
                    assert(self.pairs() =~= before.push((bkey(user@, asset@), zero_balance())));
                    lemma_to_map_push(before, bkey(user@, asset@), zero_balance());
                    assert forall|j: int| 0 <= j < self.pairs().len() implies (#[trigger] self.pairs()[j]).1.available >= 0
                        && self.pairs()[j].1.locked >= 0 by {
                        if j < before.len() {
                            assert(self.pairs()[j] == before[j]);
                        }
                    }
                }
                self.entries.len() - 1
            },
        }
    }

    /// Sets the balance at a position.
    fn set_at(&mut self, i: usize, b: Balance)
        requires
            old(self).wf(),
            i < old(self).pairs().len(),
            b.available >= 0,
            b.locked >= 0,
        ensures
            final(self).wf(),
            final(self).view() == old(self).view().insert(old(self).pairs()[i as int].0, b),
    {
        let ghost before = self.pairs();
        let key = BalanceKey { user: self.entries[i].0.user.clone(), asset: self.entries[i].0.asset.clone() };
        self.entries.set(i, (key, b));
        proof {
            assert(self.pairs() =~= before.update(i as int, (before[i as int].0, b)));
            lemma_to_map_update(before, i as int, b);
            assert forall|j: int| 0 <= j < self.pairs().len() implies (#[trigger] self.pairs()[j]).1.available >= 0
                && self.pairs()[j].1.locked >= 0 by {
                if j != i {
                    assert(self.pairs()[j] == before[j]);
                }
            }
        }
    }

    /// The balance of a user in an asset (zero when there is none).
    pub fn get(&self, user: &str, asset: &str) -> (r: Balance)
        requires
            self.wf(),
        ensures
            r == balance_in(self.view(), bkey(user@, asset@)),
    {
        match self.find(user, asset) {
            Some(i) => self.entries[i].1,
            None => Balance::new(),
        }
    }

    pub fn available(&self, user: &str, asset: &str) -> (r: i128)
        requires
            self.wf(),
        ensures
            r == balance_in(self.view(), bkey(user@, asset@)).available,
    {
        self.get(user, asset).available
    }

    /// Available plus locked; the sum must fit in an `i128`.
    pub fn total(&self, user: &str, asset: &str) -> (r: i128)
        requires
            self.wf(),
            i128::MIN <= balance_in(self.view(), bkey(user@, asset@)).available
                + balance_in(self.view(), bkey(user@, asset@)).locked <= i128::MAX,
        ensures
            r == balance_in(self.view(), bkey(user@, asset@)).available + balance_in(self.view(), bkey(user@, asset@)).locked,
    {
        self.get(user, asset).total()
    }

    /// Credits available balance.
    pub fn deposit(&mut self, user: &str, asset: &str, amount: i128) -> (r: Result<(), BalanceError>)
        requires
            old(self).wf(),
        ensures
            final(self).wf(),
            amount <= 0 ==> (r matches Err(BalanceError::InvalidAmount) && final(self).view() == old(self).view()),
            amount > 0 ==> delta_outcome(old(self).view(), final(self).view(), bkey(user@, asset@), amount, r),
    {
        if amount <= 0 {
            return Err(BalanceError::InvalidAmount);
        }
        self.apply_delta(user, asset, amount)
    }

    /// Debits available balance.
    pub fn withdraw(&mut self, user: &str, asset: &str, amount: i128) -> (r: Result<(), BalanceError>)
        requires
            old(self).wf(),
        ensures
            final(self).wf(),
            amount <= 0 ==> (r matches Err(BalanceError::InvalidAmount) && final(self).view() == old(self).view()),
            amount > 0 && balance_in(old(self).view(), bkey(user@, asset@)).available < amount ==>
                (r matches Err(BalanceError::InsufficientAvailable { asset: a, available, requested })
                    && a@ == asset@ && available == balance_in(old(self).view(), bkey(user@, asset@)).available
                    && requested == amount && final(self).view() == old(self).view()),
            amount > 0 && balance_in(old(self).view(), bkey(user@, asset@)).available >= amount ==> {
                &&& r is Ok
                &&& final(self).view() == old(self).view().insert(bkey(user@, asset@), Balance {
                        available: (balance_in(old(self).view(), bkey(user@, asset@)).available - amount) as i128,
                        locked: balance_in(old(self).view(), bkey(user@, asset@)).locked })
            },
    {
        if amount <= 0 {
            return Err(BalanceError::InvalidAmount);
        }
        let current = self.get(user, asset);
        if current.available < amount {
            return Err(BalanceError::InsufficientAvailable {
                asset: asset.to_string(),
                available: current.available,
                requested: amount as u128,
            });
        }
        self.apply_delta(user, asset, -amount)
    }

    /// Moves an amount from available to locked.
    pub fn lock(&mut self, user: &str, asset: &str, amount: i128) -> (r: Result<(), BalanceError>)
        requires
            old(self).wf(),
            amount > 0 ==> balance_in(old(self).view(), bkey(user@, asset@)).locked + amount <= i128::MAX,
        ensures
            final(self).wf(),
            amount <= 0 ==> (r matches Err(BalanceError::InvalidAmount) && final(self).view() == old(self).view()),
            amount > 0 && balance_in(old(self).view(), bkey(user@, asset@)).available < amount ==> {
                &&& r matches Err(BalanceError::InsufficientAvailable { asset: a, available, requested })
                    && a@ == asset@ && available == balance_in(old(self).view(), bkey(user@, asset@)).available
                    && requested == amount
                &&& final(self).view() == old(self).view().insert(bkey(user@, asset@), balance_in(old(self).view(), bkey(user@, asset@)))
            },
            amount > 0 && balance_in(old(self).view(), bkey(user@, asset@)).available >= amount ==> {
                &&& r is Ok
                &&& final(self).view() == old(self).view().insert(bkey(user@, asset@), Balance {
                        available: (balance_in(old(self).view(), bkey(user@, asset@)).available - amount) as i128,
                        locked: (balance_in(old(self).view(), bkey(user@, asset@)).locked + amount) as i128 })
            },
    {
        if amount <= 0 {
            return Err(BalanceError::InvalidAmount);
        }
        let i = self.entry_index(user, asset);
        let b = self.entries[i].1;
        if b.available < amount {
            return Err(BalanceError::InsufficientAvailable {
                asset: asset.to_string(),
                available: b.available,
                requested: amount as u128,
            });
        }
        self.set_at(i, Balance { available: b.available - amount, locked: b.locked + amount });
        Ok(())
    }

    /// Moves an amount from locked back to available.
    pub fn unlock(&mut self, user: &str, asset: &str, amount: i128) -> (r: Result<(), BalanceError>)
        requires
            old(self).wf(),
            amount > 0 ==> balance_in(old(self).view(), bkey(user@, asset@)).available + amount <= i128::MAX,
        ensures
            final(self).wf(),
            amount <= 0 ==> (r matches Err(BalanceError::InvalidAmount) && final(self).view() == old(self).view()),
            amount > 0 && balance_in(old(self).view(), bkey(user@, asset@)).locked < amount ==> {
                &&& r matches Err(BalanceError::InsufficientLocked { .. })
                &&& final(self).view() == old(self).view().insert(bkey(user@, asset@), balance_in(old(self).view(), bkey(user@, asset@)))
            },
            amount > 0 && balance_in(old(self).view(), bkey(user@, asset@)).locked >= amount ==> {
                &&& r is Ok
                &&& final(self).view() == old(self).view().insert(bkey(user@, asset@), Balance {
                        available: (balance_in(old(self).view(), bkey(user@, asset@)).available + amount) as i128,
                        locked: (balance_in(old(self).view(), bkey(user@, asset@)).locked - amount) as i128 })
            },
    {
        if amount <= 0 {
            return Err(BalanceError::InvalidAmount);
        }
        let i = self.entry_index(user, asset);
        let b = self.entries[i].1;
        if b.locked < amount {
            return Err(BalanceError::InsufficientLocked { asset: asset.to_string(), locked: b.locked, requested: amount });
        }
        self.set_at(i, Balance { available: b.available + amount, locked: b.locked - amount });
        Ok(())
    }

    /// Adds a signed delta to the available balance.
    pub fn apply_delta(&mut self, user: &str, asset: &str, delta: i128) -> (r: Result<(), BalanceError>)
        requires
            old(self).wf(),
        ensures
            final(self).wf(),
            delta == 0 ==> r is Ok && final(self).view() == old(self).view(),
            delta != 0 ==> delta_outcome(old(self).view(), final(self).view(), bkey(user@, asset@), delta, r),
    {
        if delta == 0 {
            return Ok(());
        }
        let i = self.entry_index(user, asset);
        let b = self.entries[i].1;
        let new_available = match b.available.checked_add(delta) {
            Some(v) => v,
            None => return Err(BalanceError::Overflow),
        };
        if new_available < 0 {
            return Err(BalanceError::InsufficientAvailable {
                asset: asset.to_string(),
                available: b.available,
                requested: magnitude(delta),
            });
        }
        let ghost mid = self.view();
        self.set_at(i, Balance { available: new_available, locked: b.locked });
        proof {
            assert(self.view() =~= old(self).view().insert(bkey(user@, asset@), Balance { available: new_available, locked: b.locked }));
        }
        Ok(())
    }

    /// The (asset, balance) pairs of one user, in ledger order.
    pub fn user_balances(&self, user: &str) -> (r: Vec<(String, Balance)>)
        requires
            self.wf(),
        ensures
            forall|i: int| 0 <= i < r@.len() ==> {
                &&& self.view().contains_key(bkey(user@, (#[trigger] r@[i]).0@))
                &&& self.view()[bkey(user@, r@[i].0@)] == r@[i].1
            },
            forall|a: Seq<char>| #[trigger] self.view().contains_key(bkey(user@, a)) ==>
                exists|i: int| 0 <= i < r@.len() && r@[i].0@ == a,
            forall|i: int, j: int| 0 <= i < j < r@.len() ==> r@[i].0@ != r@[j].0@,
    {
        let mut out: Vec<(String, Balance)> = Vec::new();
        let mut i: usize = 0;
        while i < self.entries.len()
            invariant
                i <= self.entries@.len(),
                self.wf(),
                forall|k: int| 0 <= k < out@.len() ==> exists|j: int| 0 <= j < i && self.pairs()[j] == (bkey(user@, (#[trigger] out@[k]).0@), out@[k].1),
                forall|j: int| 0 <= j < i && (#[trigger] self.pairs()[j]).0.0 == user@ ==>
                    exists|k: int| 0 <= k < out@.len() && out@[k].0@ == self.pairs()[j].0.1,
                forall|k: int, m: int| 0 <= k < m < out@.len() ==> out@[k].0@ != out@[m].0@,
            decreases self.entries@.len() - i,
        {
            let e = &self.entries[i];
            proof {
                assert(self.pairs()[i as int] == entry_view(self.entries@[i as int]));
            }
            if crate::text::str_eq(e.0.user.as_str(), user) {
                let ghost before = out@;
                out.push((e.0.asset.clone(), e.1));
                proof {
                    assert forall|k: int| 0 <= k < before.len() implies out@[k].0@ != e.0.asset@ by {
                        let j = choose|j: int| 0 <= j < i && self.pairs()[j] == (bkey(user@, out@[k].0@), out@[k].1);
                        assert(self.pairs()[j].0 != self.pairs()[i as int].0);
                    }
                    assert forall|j: int| 0 <= j < i + 1 && (#[trigger] self.pairs()[j]).0.0 == user@ implies
                        exists|k: int| 0 <= k < out@.len() && out@[k].0@ == self.pairs()[j].0.1 by {
                        if j == i {
                            assert(out@[before.len() as int].0@ == self.pairs()[j].0.1);
                        } else {
                            let k = choose|k: int| 0 <= k < before.len() && before[k].0@ == self.pairs()[j].0.1;
                            assert(out@[k] == before[k]);
                        }
                    }
                    assert forall|k: int| 0 <= k < out@.len() implies exists|j: int| 0 <= j < i + 1 && self.pairs()[j] == (bkey(user@, (#[trigger] out@[k]).0@), out@[k].1) by {
                        if k == before.len() {
                            assert(self.pairs()[i as int] == (bkey(user@, out@[k].0@), out@[k].1));
                        } else {
                            assert(out@[k] == before[k]);
                        }
                    }
                }
            }
            i += 1;
        }
        proof {
            assert forall|k: int| 0 <= k < out@.len() implies {
                &&& self.view().contains_key(bkey(user@, (#[trigger] out@[k]).0@))
                &&& self.view()[bkey(user@, out@[k].0@)] == out@[k].1
            } by {
                let j = choose|j: int| 0 <= j < self.entries@.len() && self.pairs()[j] == (bkey(user@, out@[k].0@), out@[k].1);
                lemma_to_map_index(self.pairs(), j);
            }
            assert forall|a: Seq<char>| #[trigger] self.view().contains_key(bkey(user@, a)) implies
                exists|k: int| 0 <= k < out@.len() && out@[k].0@ == a by {
                lemma_to_map_contains(self.pairs(), bkey(user@, a));
                let j = choose|j: int| 0 <= j < self.pairs().len() && self.pairs()[j].0 == bkey(user@, a);
                assert(self.pairs()[j].0.0 == user@);
            }
        }
        out
    }

    /// Applies both legs of a final settlement, or neither.
    pub fn apply_settlement(&mut self, settlement: &SettlementResult) -> (r: Result<(), BalanceError>)
        requires
            old(self).wf(),
        ensures
            final(self).wf(),
            settlement_outcome(old(self).view(), final(self).view(), *settlement, r),
    {
        if !(settlement.status == SettlementStatus::Settled || settlement.status == SettlementStatus::PartiallySettled) {
            return Err(BalanceError::SettlementNotFinal);
        }
        let current_asset = self.get(settlement.user.as_str(), settlement.asset.as_str());
        let current_quote = self.get(settlement.user.as_str(), settlement.quote_asset.as_str());
        let new_asset = match current_asset.available.checked_add(settlement.asset_delta) {
            Some(v) => v,
            None => return Err(BalanceError::Overflow),
        };
        let new_quote = match current_quote.available.checked_add(settlement.quote_delta) {
            Some(v) => v,
            None => return Err(BalanceError::Overflow),
        };
        if new_asset < 0 {
            return Err(BalanceError::InsufficientAvailable {
                asset: settlement.asset.clone(),
                available: current_asset.available,
                requested: magnitude(settlement.asset_delta),
            });
        }
        if new_quote < 0 {
            return Err(BalanceError::InsufficientAvailable {
                asset: settlement.quote_asset.clone(),
                available: current_quote.available,
                requested: magnitude(settlement.quote_delta),
            });
        }
        let ghost m0 = self.view();
        let i = self.entry_index(settlement.user.as_str(), settlement.asset.as_str());
        let b = self.entries[i].1;
        self.set_at(i, Balance { available: new_asset, locked: b.locked });
        let ghost m1 = self.view();
        let j = self.entry_index(settlement.user.as_str(), settlement.quote_asset.as_str());
        let c = self.entries[j].1;
        self.set_at(j, Balance { available: new_quote, locked: c.locked });
        proof {
            let ka = bkey(settlement.user@, settlement.asset@);
            let kq = bkey(settlement.user@, settlement.quote_asset@);
            assert(self.view() =~= settlement_applied(m0, *settlement));
        }
        Ok(())
    }
}

/// What a nonzero delta on the available balance of `k` does.
pub open spec fn delta_outcome(
    before: Map<(Seq<char>, Seq<char>), Balance>,
    after: Map<(Seq<char>, Seq<char>), Balance>,
    k: (Seq<char>, Seq<char>),
    delta: i128,
    r: Result<(), BalanceError>,
) -> bool {
    let b = balance_in(before, k);
    if b.available + delta > i128::MAX || b.available + delta < i128::MIN {
        r matches Err(BalanceError::Overflow) && after == before.insert(k, b)
    } else if b.available + delta < 0 {
        r matches Err(BalanceError::InsufficientAvailable { .. }) && after == before.insert(k, b)
    } else {
        r is Ok && after == before.insert(k, Balance { available: (b.available + delta) as i128, locked: b.locked })
    }
}

/// The ledger after both legs of a settlement.
pub open spec fn settlement_applied(m: Map<(Seq<char>, Seq<char>), Balance>, s: SettlementResult) -> Map<(Seq<char>, Seq<char>), Balance> {
    let ka = bkey(s.user@, s.asset@);
    let kq = bkey(s.user@, s.quote_asset@);
    let a = balance_in(m, ka);
    let m1 = m.insert(ka, Balance { available: (a.available + s.asset_delta) as i128, locked: a.locked });
    let q = balance_in(m, kq);
    m1.insert(kq, Balance { available: (q.available + s.quote_delta) as i128, locked: q.locked })
}

/// What applying a settlement does: nothing unless it is final and both
/// legs stay in range and non-negative; then both legs.
pub open spec fn settlement_outcome(
    before: Map<(Seq<char>, Seq<char>), Balance>,
    after: Map<(Seq<char>, Seq<char>), Balance>,
    s: SettlementResult,
    r: Result<(), BalanceError>,
) -> bool {
    let a = balance_in(before, bkey(s.user@, s.asset@)).available + s.asset_delta;
    let q = balance_in(before, bkey(s.user@, s.quote_asset@)).available + s.quote_delta;
    if !(s.status == SettlementStatus::Settled || s.status == SettlementStatus::PartiallySettled) {
        r matches Err(BalanceError::SettlementNotFinal) && after == before
    } else if a > i128::MAX || a < i128::MIN || q > i128::MAX || q < i128::MIN {
        r matches Err(BalanceError::Overflow) && after == before
    } else if a < 0 || q < 0 {
        r matches Err(BalanceError::InsufficientAvailable { .. }) && after == before
    } else {
        r is Ok && after == settlement_applied(before, s)
    }
}

impl Default for BalanceLedger {
    fn default() -> (r: Self)
        ensures
            r.wf(),
            r.view() == Map::<(Seq<char>, Seq<char>), Balance>::empty(),
    {
        Self::new()
    }
}

} // verus!
