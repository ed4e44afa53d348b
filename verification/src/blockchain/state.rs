//! The chain state: accounts with per-asset balances and nonces, and the
//! assets the chain knows.
use vstd::prelude::*;
use crate::assoc::{keys_unique, lemma_to_map_contains, lemma_to_map_index, lemma_to_map_push, lemma_to_map_remove, lemma_to_map_update, to_map};
use crate::blockchain::asset::{builtin_definition, AssetDefinition, AssetId, AssetRegistry, DefinitionView, BTCP, ETHP, PEP, USDP};
use crate::text::{lemma_lex_total, lemma_lex_transitive, lex_lt, text_lt};
use crate::wallet::Address;

verus! {

#[derive(Debug, Clone, Copy, PartialEq, Eq, Structural)]
pub enum StateError {
    AccountNotFound,
    AssetNotFound,
    AssetAlreadyExists,
    InsufficientBalance,
    Overflow,
}

/// The amount held of an asset: zero when there is no entry.
pub open spec fn held(m: Map<Seq<char>, u64>, asset: Seq<char>) -> u64 {
    if m.contains_key(asset) { m[asset] } else { 0 }
}

pub open spec fn holding_entry(e: (AssetId, u64)) -> (Seq<char>, u64) {
    (e.0@, e.1)
}

#[derive(Debug)]
pub struct Account {
    pub address: Address,
    pub balances: Vec<(AssetId, u64)>,
    pub nonce: u64,
    pub stake: u64,
}

impl Account {
    pub closed spec fn entries(&self) -> Seq<(Seq<char>, u64)> {
        self.balances@.map_values(|e: (AssetId, u64)| holding_entry(e))
    }

    /// The balances, by asset.
    pub closed spec fn holdings(&self) -> Map<Seq<char>, u64> {
        to_map(self.entries())
    }

    pub closed spec fn wf(&self) -> bool {
        keys_unique(self.entries())
    }

    pub fn new(address: Address) -> (r: Self)
        ensures
            r.wf(),
            r.address == address,
            r.holdings() == Map::<Seq<char>, u64>::empty(),
            r.nonce == 0,
            r.stake == 0,
    {
        let r = Account { address, balances: Vec::new(), nonce: 0, stake: 0 };
        assert(r.entries() =~= Seq::<(Seq<char>, u64)>::empty());
        r
    }

    /// An account with no balance and the given nonce and stake.
    pub fn with_counters(address: Address, nonce: u64, stake: u64) -> (r: Self)
        ensures
            r.wf(),
            r.address == address,
            r.holdings() == Map::<Seq<char>, u64>::empty(),
            r.nonce == nonce,
            r.stake == stake,
    {
        let r = Account { address, balances: Vec::new(), nonce, stake };
        assert(r.entries() =~= Seq::<(Seq<char>, u64)>::empty());
        r
    }

    fn find(&self, asset: &AssetId) -> (r: Option<usize>)
        requires
            self.wf(),
        ensures
            r is None ==> !self.holdings().contains_key(asset@),
            r matches Some(i) ==> i < self.entries().len() && self.entries()[i as int].0 == asset@
                && self.holdings().contains_key(asset@) && self.holdings()[asset@] == self.balances@[i as int].1,
    {
        let mut i: usize = 0;
        while i < self.balances.len()
            invariant
                i <= self.balances@.len(),
                self.wf(),
                forall|j: int| 0 <= j < i ==> self.entries()[j].0 != asset@,
            decreases self.balances@.len() - i,
        {
            assert(self.entries()[i as int] == holding_entry(self.balances@[i as int]));
            if self.balances[i].0.same_as(asset) {
                proof {
                    lemma_to_map_index(self.entries(), i as int);
                }
                return Some(i);
            }
            i += 1;
        }
        proof {
            lemma_to_map_contains(self.entries(), asset@);
        }
        None
    }

    /// The balance of an asset (zero when there is none).
    pub fn balance(&self, asset: &AssetId) -> (r: u64)
        requires
            self.wf(),
        ensures
            r == held(self.holdings(), asset@),
    {
        match self.find(asset) {
            Some(i) => self.balances[i].1,
            None => 0,
        }
    }

    /// Sets the balance of an asset.
    pub fn set_balance(&mut self, asset: &AssetId, value: u64)
        requires
            old(self).wf(),
        ensures
            final(self).wf(),
            final(self).holdings() == old(self).holdings().insert(asset@, value),
            final(self).address == old(self).address,
            final(self).nonce == old(self).nonce,
            final(self).stake == old(self).stake,
    {
        let ghost before = self.entries();
        match self.find(asset) {
            Some(i) => {
                self.balances.set(i, (asset.clone(), value));
                proof {
                    assert(self.entries() =~= before.update(i as int, (before[i as int].0, value)));
                    lemma_to_map_update(before, i as int, value);
                }
            },
            None => {
                self.balances.push((asset.clone(), value));
                proof {
                    assert(self.entries() =~= before.push((asset@, value)));
                    lemma_to_map_push(before, asset@, value);
                }
            },
        }
    }

    /// Drops the entry of an asset.
    fn remove_balance(&mut self, asset: &AssetId)
        requires
            old(self).wf(),
        ensures
            final(self).wf(),
            final(self).holdings() == old(self).holdings().remove(asset@),
            final(self).address == old(self).address,
            final(self).nonce == old(self).nonce,
            final(self).stake == old(self).stake,
    {
        let ghost before = self.entries();
        match self.find(asset) {
            Some(i) => {
                self.balances.remove(i);
                proof {
                    assert(self.entries() =~= before.remove(i as int));
                    lemma_to_map_remove(before, i as int);
                }
            },
            None => {
                assert(self.holdings().remove(asset@) =~= self.holdings());
            },
        }
    }
}

/// A balance list as plain values.
pub open spec fn listed(v: Seq<(String, u64)>) -> Seq<(Seq<char>, u64)> {
    v.map_values(|e: (String, u64)| (e.0@, e.1))
}

/// `list` holds exactly the non-zero balances of `h`, once each, in
/// lexicographic order of the asset symbol.
pub open spec fn lists_nonzero(h: Map<Seq<char>, u64>, list: Seq<(Seq<char>, u64)>) -> bool {
    &&& forall|p: int| 0 <= p < list.len() ==> h.contains_key(#[trigger] list[p].0) && h[list[p].0] == list[p].1 && list[p].1 != 0
    &&& forall|k: Seq<char>| h.contains_key(k) && h[k] != 0 ==> exists|p: int| 0 <= p < list.len() && #[trigger] list[p].0 == k
    &&& forall|p: int, q: int| 0 <= p < q < list.len() ==> lex_lt(#[trigger] list[p].0, #[trigger] list[q].0)
}

impl Account {
    /// The non-zero balances as (symbol, amount), ordered by symbol.
    pub fn sorted_balances(&self) -> (r: Vec<(String, u64)>)
        requires
            self.wf(),
        ensures
            lists_nonzero(self.holdings(), listed(r@)),
    {
        let ghost e = self.entries();
        let mut out: Vec<(String, u64)> = Vec::new();
        let ghost mut idx: Seq<int> = Seq::empty();
        let mut i: usize = 0;
        while i < self.balances.len()
            invariant
                i <= self.balances@.len(),
                e == self.entries(),
                keys_unique(e),
                idx.len() == out@.len(),
                forall|p: int| 0 <= p < out@.len() ==> 0 <= #[trigger] idx[p] < i && e[idx[p]].0 == out@[p].0@
                    && e[idx[p]].1 == out@[p].1 && out@[p].1 != 0,
                forall|j: int| 0 <= j < i && (#[trigger] e[j]).1 != 0 ==> exists|p: int| 0 <= p < idx.len() && idx[p] == j,
                forall|p: int, q: int| 0 <= p < q < out@.len() ==> lex_lt(#[trigger] out@[p].0@, #[trigger] out@[q].0@),
            decreases self.balances@.len() - i,
        {
            assert(e[i as int] == holding_entry(self.balances@[i as int]));
            let amount = self.balances[i].1;
            if amount != 0 {
                let key = self.balances[i].0.text();
                let mut p: usize = 0;
                while p < out.len() && !text_lt(key.as_str(), out[p].0.as_str())
                    invariant
                        p <= out@.len(),
                        forall|q: int| 0 <= q < p ==> !lex_lt(key@, #[trigger] out@[q].0@),
                    decreases out@.len() - p,
                {
                    p += 1;
                }
                proof {
                    assert forall|q: int| 0 <= q < out@.len() implies out@[q].0@ != key@ by {
                        assert(e[idx[q]].0 != e[i as int].0);
                    }
                }
                let ghost before = out@;
                let ghost ibefore = idx;
                out.insert(p, (key, amount));
                proof {
                    idx = idx.insert(p as int, i as int);
                    assert forall|p2: int, q2: int| 0 <= p2 < q2 < out@.len() implies lex_lt(#[trigger] out@[p2].0@, #[trigger] out@[q2].0@) by {
                        if q2 < p {
                            assert(out@[p2] == before[p2] && out@[q2] == before[q2]);
                        } else if q2 == p {
                            assert(out@[p2] == before[p2]);
                            lemma_lex_total(key@, before[p2].0@);
                        } else if p2 < p {
                            assert(out@[p2] == before[p2] && out@[q2] == before[q2 - 1]);
                            lemma_lex_total(key@, before[p2].0@);
                            if p < before.len() {
                                if p2 < p {
                                    lemma_lex_total(key@, before[p as int].0@);
                                }
                            }
                            lemma_lex_total(key@, before[q2 - 1].0@);
                            if q2 - 1 > p {
                                lemma_lex_transitive(key@, before[p as int].0@, before[q2 - 1].0@);
                            }
                            lemma_lex_transitive(before[p2].0@, key@, before[q2 - 1].0@);
                        } else if p2 == p {
                            assert(out@[q2] == before[q2 - 1]);
                            if q2 - 1 > p {
                                lemma_lex_transitive(key@, before[p as int].0@, before[q2 - 1].0@);
                            }
                        } else {
                            assert(out@[p2] == before[p2 - 1] && out@[q2] == before[q2 - 1]);
                        }
                    }
                    assert forall|j: int| 0 <= j < i + 1 && (#[trigger] e[j]).1 != 0 implies exists|p2: int| 0 <= p2 < idx.len() && idx[p2] == j by {
                        if j == i {
                            assert(idx[p as int] == j);
                        } else {
                            let p0 = choose|p0: int| 0 <= p0 < ibefore.len() && ibefore[p0] == j;
                            if p0 < p {
                                assert(idx[p0] == j);
                            } else {
                                assert(idx[p0 + 1] == j);
                            }
                        }
                    }
                }
            }
            i += 1;
        }
        proof {
            let l = listed(out@);
            assert forall|p: int| 0 <= p < l.len() implies self.holdings().contains_key(#[trigger] l[p].0)
                && self.holdings()[l[p].0] == l[p].1 && l[p].1 != 0 by {
                lemma_to_map_index(e, idx[p]);
            }
            assert forall|k: Seq<char>| self.holdings().contains_key(k) && self.holdings()[k] != 0
                implies exists|p: int| 0 <= p < l.len() && #[trigger] l[p].0 == k by {
                lemma_to_map_contains(e, k);
                let j = choose|j: int| 0 <= j < e.len() && e[j].0 == k;
                lemma_to_map_index(e, j);
                assert(e[j].1 != 0);
                let p0 = choose|p0: int| 0 <= p0 < idx.len() && idx[p0] == j;
                assert(l[p0].0 == k);
            }
        }
        out
    }
}

impl Clone for Account {
    fn clone(&self) -> (r: Self)
        ensures
            r.address@ == self.address@,
            r.entries() == self.entries(),
            r.holdings() == self.holdings(),
            r.wf() == self.wf(),
            r.nonce == self.nonce,
            r.stake == self.stake,
    {
        let mut balances: Vec<(AssetId, u64)> = Vec::new();
        let mut i: usize = 0;
        while i < self.balances.len()
            invariant
                i <= self.balances@.len(),
                balances@.map_values(|e: (AssetId, u64)| holding_entry(e)) == self.entries().take(i as int),
            decreases self.balances@.len() - i,
        {
            let e = (self.balances[i].0.clone(), self.balances[i].1);
            let ghost before = balances@;
            balances.push(e);
            assert(balances@.map_values(|e: (AssetId, u64)| holding_entry(e))
                =~= before.map_values(|e: (AssetId, u64)| holding_entry(e)).push(holding_entry(e)));
            assert(self.entries().take(i + 1) =~= self.entries().take(i as int).push(self.entries()[i as int]));
            i += 1;
        }
        assert(self.entries().take(self.balances@.len() as int) =~= self.entries());
        Account { address: self.address.clone(), balances, nonce: self.nonce, stake: self.stake }
    }
}

/// An account as plain values: its balances, nonce and stake.
pub type AccountView = (Map<Seq<char>, u64>, u64, u64);

pub open spec fn account_entry(a: Account) -> (Seq<char>, AccountView) {
    (a.address@, (a.holdings(), a.nonce, a.stake))
}

/// The chain state.
pub struct State {
    pub height: u64,
    pub accounts: Vec<Account>,
    pub assets: Vec<AssetDefinition>,
    pub registry: AssetRegistry,
}

impl State {
    pub closed spec fn pairs(&self) -> Seq<(Seq<char>, AccountView)> {
        self.accounts@.map_values(|a: Account| account_entry(a))
    }

    /// The accounts, by address.
    pub closed spec fn view(&self) -> Map<Seq<char>, AccountView> {
        to_map(self.pairs())
    }

    /// The definitions of the assets the state knows, in registration order.
    pub closed spec fn definitions(&self) -> Seq<DefinitionView> {
        self.assets@.map_values(|d: AssetDefinition| d@)
    }

    pub closed spec fn registry(&self) -> AssetRegistry {
        self.registry
    }

    pub closed spec fn wf(&self) -> bool {
        &&& keys_unique(self.pairs())
        &&& forall|i: int| 0 <= i < self.accounts@.len() ==> (#[trigger] self.accounts@[i]).wf()
        &&& forall|i: int, j: int| 0 <= i < j < self.definitions().len()
            ==> (#[trigger] self.definitions()[i]).0 != (#[trigger] self.definitions()[j]).0
        &&& self.registry.wf()
    }

    /// The balance of an address in an asset (zero without an account or entry).
    pub open spec fn balance_of(&self, address: Seq<char>, asset: Seq<char>) -> u64 {
        if self.view().contains_key(address) { held(self.view()[address].0, asset) } else { 0 }
    }

    pub open spec fn nonce_of(&self, address: Seq<char>) -> u64 {
        if self.view().contains_key(address) { self.view()[address].1 } else { 0 }
    }

    pub open spec fn knows_asset(&self, asset: Seq<char>) -> bool {
        exists|i: int| 0 <= i < self.definitions().len() && self.definitions()[i].0 == asset
    }

    /// A state at height zero with no account, knowing the core assets.
    pub fn new() -> (r: Self)
        ensures
            r.wf(),
            r.height == 0,
            r.view() == Map::<Seq<char>, AccountView>::empty(),
            r.definitions().len() == 4,
            r.definitions()[0].0 == "PEP"@,
            r.definitions()[1].0 == "BTCP"@,
            r.definitions()[2].0 == "ETHP"@,
            r.definitions()[3].0 == "USDP"@,
            r.definitions() == core_definitions(),
    {
        let registry = AssetRegistry::new();
        let mut assets: Vec<AssetDefinition> = Vec::new();
        let symbols = [PEP, BTCP, ETHP, USDP];
        proof {
            reveal_strlit("PEP");
            reveal_strlit("BTCP");
            reveal_strlit("ETHP");
            reveal_strlit("USDP");
        }
        let mut k: usize = 0;
        while k < 4
            invariant
                k <= 4,
                registry.wf(),
                symbols@ == seq![PEP, BTCP, ETHP, USDP],
                assets@.len() == k,
                forall|i: int| 0 <= i < k ==> (#[trigger] assets@[i])@.0 == symbols@[i]@,
                forall|i: int| 0 <= i < k ==> Some((#[trigger] assets@[i])@) == builtin_definition(symbols@[i]@),
            decreases 4 - k,
        {
            let id = AssetId::new(symbols[k]);
            assert(id@ == symbols@[k as int]@) by {
                crate::blockchain::asset::lemma_core_upper(symbols@[k as int]@);
            }
            match registry.get(&id) {
                Some(def) => {
                    assets.push(def);
                },
                None => {
                    assert(false);
                },
            }
            k += 1;
        }
        let r = State { height: 0, accounts: Vec::new(), assets, registry };
        assert(r.pairs() =~= Seq::<(Seq<char>, AccountView)>::empty());
        assert(r.definitions() =~= core_definitions());
        proof {
            let d = r.definitions();
            assert(d[0].0 == "PEP"@ && d[1].0 == "BTCP"@ && d[2].0 == "ETHP"@ && d[3].0 == "USDP"@);
            assert("PEP"@.len() == 3 && "BTCP"@.len() == 4);
            assert("BTCP"@[0] == 'B' && "ETHP"@[0] == 'E' && "USDP"@[0] == 'U');
            assert(d[0].0 != d[1].0 && d[0].0 != d[2].0 && d[0].0 != d[3].0);
            assert(d[1].0[0] != d[2].0[0] && d[1].0[0] != d[3].0[0] && d[2].0[0] != d[3].0[0]);
        }
        r
    }

    fn find_account(&self, address: &Address) -> (r: Option<usize>)
        requires
            self.wf(),
        ensures
            r is None ==> !self.view().contains_key(address@),
            r matches Some(i) ==> i < self.accounts@.len() && self.pairs()[i as int].0 == address@
                && self.view().contains_key(address@) && self.view()[address@] == self.pairs()[i as int].1,
    {
        let mut i: usize = 0;
        while i < self.accounts.len()
            invariant
                i <= self.accounts@.len(),
                self.wf(),
                forall|j: int| 0 <= j < i ==> self.pairs()[j].0 != address@,
            decreases self.accounts@.len() - i,
        {
            assert(self.pairs()[i as int] == account_entry(self.accounts@[i as int]));
            if self.accounts[i].address.same_as(address) {
                proof {
                    lemma_to_map_index(self.pairs(), i as int);
                }
                return Some(i);
            }
            i += 1;
        }
        proof {
            lemma_to_map_contains(self.pairs(), address@);
        }
        None
    }

    fn find_asset(&self, asset: &AssetId) -> (r: Option<usize>)
        requires
            self.wf(),
        ensures
            r is None <==> !self.knows_asset(asset@),
            r matches Some(i) ==> i < self.assets@.len() && self.definitions()[i as int].0 == asset@,
    {
        let mut i: usize = 0;
        while i < self.assets.len()
            invariant
                i <= self.assets@.len(),
                forall|j: int| 0 <= j < i ==> self.definitions()[j].0 != asset@,
            decreases self.assets@.len() - i,
        {
            if self.assets[i].id.same_as(asset) {
                assert(self.definitions()[i as int].0 == asset@);
                return Some(i);
            }
            i += 1;
        }
        None
    }

    /// Registers an asset with the state and with its registry.
    pub fn register_asset(&mut self, asset: AssetDefinition) -> (r: Result<(), StateError>)
        requires
            old(self).wf(),
        ensures
            final(self).wf(),
            final(self).view() == old(self).view(),
            final(self).height == old(self).height,
            old(self).knows_asset(asset@.0) ==> (r == Err::<(), StateError>(StateError::AssetAlreadyExists)
                && final(self).definitions() == old(self).definitions()),
            r is Ok ==> final(self).definitions() == old(self).definitions().push(asset@),
            r is Err ==> r == Err::<(), StateError>(StateError::AssetAlreadyExists)
                && final(self).definitions() == old(self).definitions(),
            !old(self).knows_asset(asset@.0) ==> (r is Ok <==> (
                !crate::blockchain::asset::is_core(asset@.0)
                && crate::text::trim_spec(asset@.0).len() > 0
                && asset@.2 <= 38
                && crate::blockchain::asset::custom_definition(old(self).registry().customs(), asset@.0) is None)),
    {
        if self.find_asset(&asset.id).is_some() {
            return Err(StateError::AssetAlreadyExists);
        }
        let ghost before = self.definitions();
        match self.registry.register(asset.clone()) {
            Ok(()) => {},
            Err(_) => {
                assert(self.accounts == old(self).accounts);
                assert(self.assets == old(self).assets);
                return Err(StateError::AssetAlreadyExists);
            },
        }
        let ghost d = asset@;
        self.assets.push(asset);
        assert(self.definitions() =~= before.push(d));
        proof {
            assert forall|i: int, j: int| 0 <= i < j < self.definitions().len()
                implies (#[trigger] self.definitions()[i]).0 != (#[trigger] self.definitions()[j]).0 by {
                if j < before.len() {
                    assert(before[i].0 != before[j].0);
                } else {
                    assert(before[i].0 != d.0);
                }
            }
            assert(self.pairs() == old(self).pairs());
        }
        Ok(())
    }

    pub fn get_asset(&self, asset: &AssetId) -> (r: Option<&AssetDefinition>)
        requires
            self.wf(),
        ensures
            r is Some <==> self.knows_asset(asset@),
            r matches Some(d) ==> d@.0 == asset@ && exists|i: int| 0 <= i < self.definitions().len() && self.definitions()[i] == d@,
    {
        match self.find_asset(asset) {
            Some(i) => Some(&self.assets[i]),
            None => None,
        }
    }

    pub fn has_asset(&self, asset: &AssetId) -> (r: bool)
        requires
            self.wf(),
        ensures
            r == self.knows_asset(asset@),
    {
        self.find_asset(asset).is_some()
    }

    /// The asset definitions, in registration order.
    pub fn assets(&self) -> (r: &Vec<AssetDefinition>)
        ensures
            r@.map_values(|d: AssetDefinition| d@) == self.definitions(),
    {
        &self.assets
    }

    /// Opens an account with no balance, unless there is one.
    pub fn create_account(&mut self, address: &Address)
        requires
            old(self).wf(),
        ensures
            final(self).wf(),
            final(self).height == old(self).height,
            final(self).definitions() == old(self).definitions(),
            final(self).registry() == old(self).registry(),
            old(self).view().contains_key(address@) ==> final(self).view() == old(self).view(),
            !old(self).view().contains_key(address@) ==> final(self).view()
                == old(self).view().insert(address@, (Map::<Seq<char>, u64>::empty(), 0u64, 0u64)),
    {
        if self.find_account(address).is_none() {
            let ghost before = self.pairs();
            let account = Account::new(address.clone());
            let ghost e = account_entry(account);
            self.accounts.push(account);
            proof {
                assert(self.pairs() =~= before.push(e));
                lemma_to_map_push(before, address@, e.1);
                assert forall|i: int| 0 <= i < self.accounts@.len() implies (#[trigger] self.accounts@[i]).wf() by {
                    if i < before.len() {
                        assert(self.accounts@[i] == old(self).accounts@[i]);
                    }
                }
                assert(keys_unique(self.pairs()));
                assert(self.definitions() == old(self).definitions());
                assert(self.registry.wf());
            }
        }
    }

    pub fn get_account(&self, address: &Address) -> (r: Option<&Account>)
        requires
            self.wf(),
        ensures
            r is Some <==> self.view().contains_key(address@),
            r matches Some(a) ==> a.wf() && account_entry(*a) == (address@, self.view()[address@]),
    {
        match self.find_account(address) {
            Some(i) => {
                assert(self.pairs()[i as int] == account_entry(self.accounts@[i as int]));
                Some(&self.accounts[i])
            },
            None => None,
        }
    }

    /// The account of an address, to change in place; `lemma_account_in_place`
    /// tells what the state is after the change.
    pub fn get_account_mut(&mut self, address: &Address) -> (r: Option<&mut Account>)
        requires
            old(self).wf(),
        ensures
            r is Some <==> old(self).view().contains_key(address@),
            r is None ==> *final(self) == *old(self),
            r matches Some(a) ==> {
                &&& a.wf()
                &&& account_entry(*a) == (address@, old(self).view()[address@])
                &&& exists|i: int| 0 <= i < old(self).accounts@.len()
                    && old(self).accounts@[i] == *a
                    && final(self).accounts@ == old(self).accounts@.update(i, *final(a))
                &&& final(self).height == old(self).height
                &&& final(self).assets == old(self).assets
                &&& final(self).registry == old(self).registry
            },
    {
        match self.find_account(address) {
            Some(i) => {
                assert(self.pairs()[i as int] == account_entry(self.accounts@[i as int]));
                Some(&mut self.accounts[i])
            },
            None => None,
        }
    }

    /// The balance of an address in an asset (zero without an account or entry).
    pub fn balance(&self, address: &Address, asset: &AssetId) -> (r: u64)
        requires
            self.wf(),
        ensures
            r == self.balance_of(address@, asset@),
    {
        match self.get_account(address) {
            Some(account) => account.balance(asset),
            None => 0,
        }
    }

    /// Replaces the account at a position by one with the same address.
    fn put_account(&mut self, i: usize, account: Account)
        requires
            old(self).wf(),
            i < old(self).accounts@.len(),
            account.wf(),
            account.address@ == old(self).pairs()[i as int].0,
        ensures
            final(self).wf(),
            final(self).view() == old(self).view().insert(account.address@, account_entry(account).1),
            final(self).height == old(self).height,
            final(self).definitions() == old(self).definitions(),
            final(self).registry() == old(self).registry(),
    {
        let ghost before = self.pairs();
        let ghost e = account_entry(account);
        self.accounts.set(i, account);
        proof {
            assert(self.pairs() =~= before.update(i as int, (before[i as int].0, e.1)));
            lemma_to_map_update(before, i as int, e.1);
            assert forall|k: int| 0 <= k < self.accounts@.len() implies (#[trigger] self.accounts@[k]).wf() by {
                if k != i {
                    assert(self.accounts@[k] == old(self).accounts@[k]);
                }
            }
            assert(keys_unique(self.pairs()));
            assert(self.definitions() == old(self).definitions());
        }
    }

    /// Puts an account in, in place of any account with its address.
    pub fn replace_account(&mut self, account: Account)
        requires
            old(self).wf(),
            account.wf(),
        ensures
            final(self).wf(),
            final(self).view() == old(self).view().insert(account.address@, account_entry(account).1),
            final(self).height == old(self).height,
            final(self).definitions() == old(self).definitions(),
            final(self).registry() == old(self).registry(),
    {
        match self.find_account(&account.address) {
            Some(i) => {
                self.put_account(i, account);
            },
            None => {
                let ghost before = self.pairs();
                let ghost e = account_entry(account);
                self.accounts.push(account);
                proof {
                    assert(self.pairs() =~= before.push(e));
                    lemma_to_map_push(before, e.0, e.1);
                    assert forall|i: int| 0 <= i < self.accounts@.len() implies (#[trigger] self.accounts@[i]).wf() by {
                        if i < before.len() {
                            assert(self.accounts@[i] == old(self).accounts@[i]);
                        }
                    }
                    assert(keys_unique(self.pairs()));
                    assert(self.definitions() == old(self).definitions());
                }
            },
        }
    }

    /// Sets one balance entry of an address to `amount` (even zero), opening
    /// the account if needed.
    pub fn set_holding(&mut self, address: &Address, asset: &AssetId, amount: u64)
        requires
            old(self).wf(),
        ensures
            final(self).wf(),
            final(self).view() == old(self).view().insert(address@, (
                held_map(old(self).view(), address@).insert(asset@, amount),
                old(self).nonce_of(address@),
                stake_of(old(self).view(), address@),
            )),
            final(self).height == old(self).height,
            final(self).definitions() == old(self).definitions(),
            final(self).registry() == old(self).registry(),
    {
        self.create_account(address);
        let i = match self.find_account(address) {
            Some(i) => i,
            None => {
                assert(false);
                return;
            },
        };
        assert(self.pairs()[i as int] == account_entry(self.accounts@[i as int]));
        let mut account = self.accounts[i].clone();
        account.set_balance(asset, amount);
        self.put_account(i, account);
    }

    /// Adds to a balance, opening the account if needed.
    pub fn credit(&mut self, address: &Address, asset: &AssetId, amount: u64) -> (r: Result<(), StateError>)
        requires
            old(self).wf(),
        ensures
            final(self).wf(),
            final(self).height == old(self).height,
            final(self).definitions() == old(self).definitions(),
            final(self).registry() == old(self).registry(),
            !old(self).knows_asset(asset@) ==> r == Err::<(), StateError>(StateError::AssetNotFound)
                && final(self).view() == old(self).view(),
            old(self).knows_asset(asset@) && old(self).balance_of(address@, asset@) + amount > u64::MAX
                ==> r == Err::<(), StateError>(StateError::Overflow),
            r is Err ==> same_balances(*old(self), *final(self)) && same_nonces(*old(self), *final(self)),
            old(self).knows_asset(asset@) && old(self).balance_of(address@, asset@) + amount <= u64::MAX ==> {
                &&& r is Ok
                &&& credited(*old(self), *final(self), address@, asset@, amount)
                &&& forall|a: Seq<char>| final(self).view().contains_key(a) <==> (old(self).view().contains_key(a) || a == address@)
            },
    {
        if !self.has_asset(asset) {
            return Err(StateError::AssetNotFound);
        }
        self.create_account(address);
        let i = match self.find_account(address) {
            Some(i) => i,
            None => return Err(StateError::AccountNotFound),
        };
        assert(self.pairs()[i as int] == account_entry(self.accounts@[i as int]));
        let mut account = self.accounts[i].clone();
        let current = account.balance(asset);
        let new_balance = match current.checked_add(amount) {
            Some(v) => v,
            None => {
                proof {
                    assert forall|a: Seq<char>, s: Seq<char>| #[trigger] self.balance_of(a, s) == old(self).balance_of(a, s) by {
                        if a == address@ && !old(self).view().contains_key(a) {
                            assert(held(Map::<Seq<char>, u64>::empty(), s) == 0);
                        }
                    }
                }
                return Err(StateError::Overflow);
            },
        };
        account.set_balance(asset, new_balance);
        self.put_account(i, account);
        Ok(())
    }

    /// Takes from a balance; an entry that reaches zero is dropped.
    pub fn debit(&mut self, address: &Address, asset: &AssetId, amount: u64) -> (r: Result<(), StateError>)
        requires
            old(self).wf(),
        ensures
            final(self).wf(),
            final(self).height == old(self).height,
            final(self).definitions() == old(self).definitions(),
            final(self).registry() == old(self).registry(),
            r is Err ==> final(self).view() == old(self).view(),
            !old(self).knows_asset(asset@) ==> r == Err::<(), StateError>(StateError::AssetNotFound),
            old(self).knows_asset(asset@) && !old(self).view().contains_key(address@)
                ==> r == Err::<(), StateError>(StateError::AccountNotFound),
            old(self).knows_asset(asset@) && old(self).view().contains_key(address@)
                && old(self).balance_of(address@, asset@) < amount ==> r == Err::<(), StateError>(StateError::InsufficientBalance),
            r is Ok <==> (old(self).knows_asset(asset@) && old(self).view().contains_key(address@)
                && old(self).balance_of(address@, asset@) >= amount),
            r is Ok ==> {
                &&& debited(*old(self), *final(self), address@, asset@, amount)
                &&& forall|a: Seq<char>| final(self).view().contains_key(a) <==> old(self).view().contains_key(a)
            },
    {
        if !self.has_asset(asset) {
            return Err(StateError::AssetNotFound);
        }
        let i = match self.find_account(address) {
            Some(i) => i,
            None => return Err(StateError::AccountNotFound),
        };
        assert(self.pairs()[i as int] == account_entry(self.accounts@[i as int]));
        let mut account = self.accounts[i].clone();
        let current = account.balance(asset);
        if current < amount {
            return Err(StateError::InsufficientBalance);
        }
        let new_balance = current - amount;
        if new_balance == 0 {
            account.remove_balance(asset);
        } else {
            account.set_balance(asset, new_balance);
        }
        self.put_account(i, account);
        Ok(())
    }

    /// Adds one to an account's nonce (saturating); no account, no change.
    pub fn increase_nonce(&mut self, address: &Address)
        requires
            old(self).wf(),
        ensures
            final(self).wf(),
            final(self).height == old(self).height,
            final(self).definitions() == old(self).definitions(),
            final(self).registry() == old(self).registry(),
            same_balances(*old(self), *final(self)),
            forall|a: Seq<char>| a != address@ ==> #[trigger] final(self).nonce_of(a) == old(self).nonce_of(a),
            old(self).view().contains_key(address@) ==> final(self).nonce_of(address@)
                == if old(self).nonce_of(address@) == u64::MAX { u64::MAX } else { (old(self).nonce_of(address@) + 1) as u64 },
            !old(self).view().contains_key(address@) ==> final(self).view() == old(self).view(),
            forall|a: Seq<char>| final(self).view().contains_key(a) <==> old(self).view().contains_key(a),
    {
        match self.find_account(address) {
            Some(i) => {
                assert(self.pairs()[i as int] == account_entry(self.accounts@[i as int]));
                let mut account = self.accounts[i].clone();
                account.nonce = account.nonce.saturating_add(1);
                self.put_account(i, account);
            },
            None => {},
        }
    }
}

impl Clone for State {
    fn clone(&self) -> (r: Self)
        ensures
            r.wf() == self.wf(),
            r.height == self.height,
            r.view() == self.view(),
            r.pairs() == self.pairs(),
            r.definitions() == self.definitions(),
            r.registry().customs() == self.registry().customs(),
            r.registry().wf() == self.registry().wf(),
    {
        let mut accounts: Vec<Account> = Vec::new();
        let mut i: usize = 0;
        while i < self.accounts.len()
            invariant
                i <= self.accounts@.len(),
                accounts@.len() == i,
                accounts@.map_values(|a: Account| account_entry(a)) == self.pairs().take(i as int),
                forall|k: int| 0 <= k < i ==> (#[trigger] accounts@[k]).wf() == self.accounts@[k].wf(),
            decreases self.accounts@.len() - i,
        {
            let a = self.accounts[i].clone();
            let ghost before = accounts@;
            accounts.push(a);
            assert(accounts@.map_values(|a: Account| account_entry(a))
                =~= before.map_values(|a: Account| account_entry(a)).push(account_entry(a)));
            assert(self.pairs().take(i + 1) =~= self.pairs().take(i as int).push(self.pairs()[i as int]));
            i += 1;
        }
        assert(self.pairs().take(self.accounts@.len() as int) =~= self.pairs());
        let mut assets: Vec<AssetDefinition> = Vec::new();
        let mut j: usize = 0;
        while j < self.assets.len()
            invariant
                j <= self.assets@.len(),
                assets@.map_values(|d: AssetDefinition| d@) == self.definitions().take(j as int),
            decreases self.assets@.len() - j,
        {
            let d = self.assets[j].clone();
            let ghost before = assets@;
            assets.push(d);
            assert(assets@.map_values(|d: AssetDefinition| d@) =~= before.map_values(|d: AssetDefinition| d@).push(d@));
            assert(self.definitions().take(j + 1) =~= self.definitions().take(j as int).push(self.definitions()[j as int]));
            j += 1;
        }
        assert(self.definitions().take(self.assets@.len() as int) =~= self.definitions());
        let r = State { height: self.height, accounts, assets, registry: self.registry.clone() };
        assert(r.pairs() == self.pairs());
        assert(r.definitions() == self.definitions());
        assert(r.wf() == self.wf()) by {
            if self.wf() {
                assert forall|k: int| 0 <= k < r.accounts@.len() implies (#[trigger] r.accounts@[k]).wf() by {
                    assert(self.accounts@[k].wf());
                }
            }
            if r.wf() {
                assert forall|k: int| 0 <= k < self.accounts@.len() implies (#[trigger] self.accounts@[k]).wf() by {
                    assert(r.accounts@[k].wf());
                }
            }
        }
        r
    }
}

/// The accounts of a state, by address, are its account list read as a map.
pub proof fn lemma_view_of_list(s: State)
    ensures
        s.view() == to_map(s.accounts@.map_values(|a: Account| account_entry(a))),
        forall|i: int| 0 <= i < s.accounts@.len() ==> (#[trigger] s.accounts@[i]).holdings()
            == to_map(s.accounts@[i].balances@.map_values(|e: (AssetId, u64)| holding_entry(e))),
{
}

/// The balances of an account, by asset, are its entry list read as a map.
pub proof fn lemma_holdings_of_list(a: Account)
    ensures
        a.holdings() == to_map(a.balances@.map_values(|e: (AssetId, u64)| holding_entry(e))),
{
}

/// The height is not part of what the other views of a state read.
pub proof fn lemma_height_apart(a: State, b: State)
    requires
        a.accounts == b.accounts,
        a.assets == b.assets,
        a.registry == b.registry,
    ensures
        a.wf() == b.wf(),
        a.view() == b.view(),
        a.definitions() == b.definitions(),
        a.registry() == b.registry(),
{
    assert(a.pairs() == b.pairs());
    assert(a.definitions() == b.definitions());
    if a.wf() {
        assert forall|i: int| 0 <= i < b.accounts@.len() implies (#[trigger] b.accounts@[i]).wf() by {
            assert(a.accounts@[i].wf());
        }
    }
    if b.wf() {
        assert forall|i: int| 0 <= i < a.accounts@.len() implies (#[trigger] a.accounts@[i]).wf() by {
            assert(b.accounts@[i].wf());
        }
    }
}

/// The definitions of the core assets, PEP, BTCP, ETHP and USDP, in that order.
pub open spec fn core_definitions() -> Seq<DefinitionView> {
    seq![
        builtin_definition("PEP"@)->0,
        builtin_definition("BTCP"@)->0,
        builtin_definition("ETHP"@)->0,
        builtin_definition("USDP"@)->0,
    ]
}

/// The balance entries of an address (none without an account).
pub open spec fn held_map(v: Map<Seq<char>, AccountView>, address: Seq<char>) -> Map<Seq<char>, u64> {
    if v.contains_key(address) { v[address].0 } else { Map::empty() }
}

/// The stake of an address (zero without an account).
pub open spec fn stake_of(v: Map<Seq<char>, AccountView>, address: Seq<char>) -> u64 {
    if v.contains_key(address) { v[address].2 } else { 0 }
}

/// Every balance is the same in both states.
pub open spec fn same_balances(before: State, after: State) -> bool {
    forall|a: Seq<char>, s: Seq<char>| #[trigger] after.balance_of(a, s) == before.balance_of(a, s)
}

/// Every nonce is the same in both states.
pub open spec fn same_nonces(before: State, after: State) -> bool {
    forall|a: Seq<char>| #[trigger] after.nonce_of(a) == before.nonce_of(a)
}

/// Every balance but one is the same in both states.
pub open spec fn same_balances_except(before: State, after: State, address: Seq<char>, asset: Seq<char>) -> bool {
    forall|a: Seq<char>, s: Seq<char>| !(a == address && s == asset)
        ==> #[trigger] after.balance_of(a, s) == before.balance_of(a, s)
}

/// `after` is `before` with `amount` added to one balance.
pub open spec fn credited(before: State, after: State, address: Seq<char>, asset: Seq<char>, amount: u64) -> bool {
    &&& after.balance_of(address, asset) == before.balance_of(address, asset) + amount
    &&& same_balances_except(before, after, address, asset)
    &&& same_nonces(before, after)
}

/// `after` is `before` with `amount` taken from one balance.
pub open spec fn debited(before: State, after: State, address: Seq<char>, asset: Seq<char>, amount: u64) -> bool {
    &&& after.balance_of(address, asset) == before.balance_of(address, asset) - amount
    &&& same_balances_except(before, after, address, asset)
    &&& same_nonces(before, after)
}

/// Crediting an amount and then debiting the same amount from the same
/// balance gives every balance and nonce back.
pub proof fn lemma_credit_then_debit(s0: State, s1: State, s2: State, address: Seq<char>, asset: Seq<char>, amount: u64)
    requires
        credited(s0, s1, address, asset, amount),
        debited(s1, s2, address, asset, amount),
    ensures
        same_balances(s0, s2),
        same_nonces(s0, s2),
{
    assert forall|a: Seq<char>, s: Seq<char>| #[trigger] s2.balance_of(a, s) == s0.balance_of(a, s) by {
        if !(a == address && s == asset) {
            assert(s1.balance_of(a, s) == s0.balance_of(a, s));
        }
    }
    assert forall|a: Seq<char>| #[trigger] s2.nonce_of(a) == s0.nonce_of(a) by {
        assert(s1.nonce_of(a) == s0.nonce_of(a));
    }
}

/// Debiting an amount and then crediting the same amount to the same
/// balance gives every balance and nonce back.
pub proof fn lemma_debit_then_credit(s0: State, s1: State, s2: State, address: Seq<char>, asset: Seq<char>, amount: u64)
    requires
        debited(s0, s1, address, asset, amount),
        credited(s1, s2, address, asset, amount),
    ensures
        same_balances(s0, s2),
        same_nonces(s0, s2),
{
    assert forall|a: Seq<char>, s: Seq<char>| #[trigger] s2.balance_of(a, s) == s0.balance_of(a, s) by {
        if !(a == address && s == asset) {
            assert(s1.balance_of(a, s) == s0.balance_of(a, s));
        }
    }
    assert forall|a: Seq<char>| #[trigger] s2.nonce_of(a) == s0.nonce_of(a) by {
        assert(s1.nonce_of(a) == s0.nonce_of(a));
    }
}

/// Changing the account at a position in place: when it keeps its address
/// and stays well formed, the state stays well formed and maps the address to
/// the changed account.
pub proof fn lemma_account_in_place(s: State, t: State, i: int)
    requires
        s.wf(),
        0 <= i < s.accounts@.len(),
        t.accounts@ == s.accounts@.update(i, t.accounts@[i]),
        t.assets == s.assets,
        t.registry == s.registry,
        t.height == s.height,
    ensures
        t.definitions() == s.definitions(),
        t.registry() == s.registry(),
        t.accounts@[i].address@ == s.accounts@[i].address@ && t.accounts@[i].wf() ==> t.wf(),
        t.accounts@[i].address@ == s.accounts@[i].address@ && t.accounts@[i].wf()
            ==> t.view() == s.view().insert(s.accounts@[i].address@, account_entry(t.accounts@[i]).1),
{
    if t.accounts@[i].address@ == s.accounts@[i].address@ && t.accounts@[i].wf() {
        let before = s.pairs();
        let e = account_entry(t.accounts@[i]);
        assert(before[i] == account_entry(s.accounts@[i]));
        assert(t.pairs() =~= before.update(i, (before[i].0, e.1)));
        lemma_to_map_update(before, i, e.1);
        assert forall|k: int| 0 <= k < t.accounts@.len() implies (#[trigger] t.accounts@[k]).wf() by {
            if k != i {
                assert(t.accounts@[k] == s.accounts@[k]);
            }
        }
        assert(keys_unique(t.pairs()));
        assert(before[i].0 == s.accounts@[i].address@);
        assert(t.view() =~= s.view().insert(s.accounts@[i].address@, e.1));
        assert(t.definitions() == s.definitions());
        assert(t.registry.wf());
        assert(t.wf());
    }
}

} // verus!
