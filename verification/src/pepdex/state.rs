//! The shared state of a PEPDEX service: connected accounts, balances, market
//! data, risk, orders and reconciliation.
use vstd::prelude::*;
use crate::pepdex::balance::BalanceLedger;
use crate::pepdex::market_data::MarketDataEngine;
use crate::pepdex::order_store::OrderStore;
use crate::pepdex::reconciliation::ReconciliationEngine;
use crate::pepdex::risk::RiskEngine;
use crate::text::str_eq;

verus! {

/// The wallet addresses connected to PEPDEX.
pub struct AccountRegistry {
    connected: Vec<String>,
}

impl AccountRegistry {
    /// The connected addresses.
    pub closed spec fn addresses(&self) -> Set<Seq<char>> {
        self.connected@.map_values(|a: String| a@).to_set()
    }

    pub fn new() -> (r: Self)
        ensures
            r.addresses() == Set::<Seq<char>>::empty(),
    {
        let r = AccountRegistry { connected: Vec::new() };
        assert(r.addresses() =~= Set::<Seq<char>>::empty());
        r
    }

    /// Connects an address (connecting it again changes nothing).
    pub fn connect(&mut self, address: &str)
        ensures
            final(self).addresses() == old(self).addresses().insert(address@),
    {
        if self.is_connected(address) {
            assert(old(self).addresses().insert(address@) =~= old(self).addresses());
            return;
        }
        let ghost before = self.connected@.map_values(|a: String| a@);
        self.connected.push(address.to_string());
        assert(self.connected@.map_values(|a: String| a@) =~= before.push(address@));
        assert(self.addresses() =~= old(self).addresses().insert(address@)) by {
            let now = self.connected@.map_values(|a: String| a@);
            assert forall|x: Seq<char>| #[trigger] self.addresses().contains(x) <==> old(self).addresses().insert(address@).contains(x) by {
                if now.contains(x) {
                    let k = choose|k: int| 0 <= k < now.len() && now[k] == x;
                    if k < before.len() {
                        assert(before[k] == x);
                    }
                }
                if before.contains(x) {
                    let k = choose|k: int| 0 <= k < before.len() && before[k] == x;
                    assert(now[k] == x);
                }
                if x == address@ {
                    assert(now[before.len() as int] == x);
                }
            }
        }
    }

    /// The first address connected, if any.
    pub fn first(&self) -> (r: Option<String>)
        ensures
            r is None <==> self.addresses() == Set::<Seq<char>>::empty(),
            r matches Some(a) ==> self.addresses().contains(a@),
    {
        let ghost views = self.connected@.map_values(|a: String| a@);
        if self.connected.len() == 0 {
            assert(self.addresses() =~= Set::<Seq<char>>::empty());
            return None;
        }
        assert(views[0] == self.connected@[0]@);
        assert(self.addresses().contains(views[0]));
        Some(self.connected[0].clone())
    }

    pub fn is_connected(&self, address: &str) -> (r: bool)
        ensures
            r == self.addresses().contains(address@),
    {
        let ghost views = self.connected@.map_values(|a: String| a@);
        let mut i: usize = 0;
        while i < self.connected.len()
            invariant
                i <= self.connected@.len(),
                views == self.connected@.map_values(|a: String| a@),
                forall|k: int| 0 <= k < i ==> views[k] != address@,
            decreases self.connected@.len() - i,
        {
            if str_eq(self.connected[i].as_str(), address) {
                assert(views[i as int] == address@);
                assert(views.contains(address@));
                return true;
            }
            i += 1;
        }
        assert(!views.contains(address@));
        false
    }
}

impl Default for AccountRegistry {
    fn default() -> (r: Self)
        ensures
            r.addresses() == Set::<Seq<char>>::empty(),
    {
        Self::new()
    }
}

/// Everything a PEPDEX service holds.
pub struct PEPDEXState {
    pub accounts: AccountRegistry,
    pub balances: BalanceLedger,
    pub market_data: MarketDataEngine,
    pub risk: RiskEngine,
    pub orders: OrderStore,
    pub reconciliation: ReconciliationEngine,
}

impl PEPDEXState {
    /// A state whose orders are kept in memory.
    pub fn memory() -> (r: Self)
        ensures
            r.accounts.addresses() == Set::<Seq<char>>::empty(),
            r.balances.wf(),
            r.balances.view() == Map::<(Seq<char>, Seq<char>), crate::pepdex::balance::Balance>::empty(),
            r.market_data.wf(),
            r.market_data.venue_total() == 0,
            r.orders.records() == Seq::<crate::pepdex::order_store::StoredOrder>::empty(),
            r.orders.infallible(),
    {
        PEPDEXState::with_orders(OrderStore::memory())
    }

    /// A state over the given order store.
    pub fn with_orders(orders: OrderStore) -> (r: Self)
        ensures
            r.accounts.addresses() == Set::<Seq<char>>::empty(),
            r.balances.wf(),
            r.balances.view() == Map::<(Seq<char>, Seq<char>), crate::pepdex::balance::Balance>::empty(),
            r.market_data.wf(),
            r.market_data.venue_total() == 0,
            r.orders == orders,
    {
        PEPDEXState {
            accounts: AccountRegistry::new(),
            balances: BalanceLedger::new(),
            market_data: MarketDataEngine::new(),
            risk: RiskEngine::new(),
            orders,
            reconciliation: ReconciliationEngine::new(),
        }
    }
}

} // verus!
