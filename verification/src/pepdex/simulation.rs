//! A simulated asset and fund registry: custom assets, funds whose CCQ shares are
//! issued against USDP, redemption with proof-of-liquidity records, and transfers.
use vstd::prelude::*;
use crate::pepdex::balance::{balance_in, bkey, Balance, BalanceError, BalanceLedger};
use crate::text::{decimal, push_str, str_eq, to_upper, trim, trim_spec, u64_text_padded, unicode_upper, zero_pad};

verus! {

/// Decimal places of USDP amounts and of CCQ amounts; one USDP unit is worth a
/// hundred CCQ units.
pub const USDP_DECIMALS: u32 = 6;
pub const CCQ_DECIMALS: u32 = 8;
pub const CCQ_PER_USDP: i128 = 100;

#[derive(Debug)]
pub struct SimAsset {
    pub symbol: String,
    pub decimals: u8,
    pub transferable: bool,
    pub kind: String,
    pub peg: Option<String>,
    pub total_supply: i128,
}

pub open spec fn opt_text(s: Option<String>) -> Option<Seq<char>> {
    match s {
        Some(t) => Some(t@),
        None => None,
    }
}

impl View for SimAsset {
    type V = (Seq<char>, u8, bool, Seq<char>, Option<Seq<char>>, i128);

    open spec fn view(&self) -> Self::V {
        (self.symbol@, self.decimals, self.transferable, self.kind@, opt_text(self.peg), self.total_supply)
    }
}

fn clone_opt(s: &Option<String>) -> (r: Option<String>)
    ensures
        opt_text(r) == opt_text(*s),
{
    match s {
        Some(t) => Some(t.clone()),
        None => None,
    }
}

impl Clone for SimAsset {
    fn clone(&self) -> (r: Self)
        ensures
            r@ == self@,
    {
        SimAsset {
            symbol: self.symbol.clone(),
            decimals: self.decimals,
            transferable: self.transferable,
            kind: self.kind.clone(),
            peg: clone_opt(&self.peg),
            total_supply: self.total_supply,
        }
    }
}

#[derive(Debug)]
pub struct SimFund {
    pub id: String,
    pub name: String,
    pub symbol: String,
    pub underlying: String,
    pub ccq_asset: String,
    pub nav: i128,
    pub reserve: i128,
    pub ccq_supply: i128,
}

impl View for SimFund {
    type V = (Seq<char>, Seq<char>, Seq<char>, Seq<char>, Seq<char>, i128, i128, i128);

    open spec fn view(&self) -> Self::V {
        (self.id@, self.name@, self.symbol@, self.underlying@, self.ccq_asset@, self.nav, self.reserve, self.ccq_supply)
    }
}

impl Clone for SimFund {
    fn clone(&self) -> (r: Self)
        ensures
            r@ == self@,
    {
        SimFund {
            id: self.id.clone(),
            name: self.name.clone(),
            symbol: self.symbol.clone(),
            underlying: self.underlying.clone(),
            ccq_asset: self.ccq_asset.clone(),
            nav: self.nav,
            reserve: self.reserve,
            ccq_supply: self.ccq_supply,
        }
    }
}

/// Proof of liquidity: the record of one redemption.
#[derive(Debug)]
pub struct PolProof {
    pub id: u64,
    pub fund_id: String,
    pub wallet: String,
    pub ccq_burned: i128,
    pub underlying_redeemed: i128,
    pub reserve_after: i128,
}

impl View for PolProof {
    type V = (u64, Seq<char>, Seq<char>, i128, i128, i128);

    open spec fn view(&self) -> Self::V {
        (self.id, self.fund_id@, self.wallet@, self.ccq_burned, self.underlying_redeemed, self.reserve_after)
    }
}

impl Clone for PolProof {
    fn clone(&self) -> (r: Self)
        ensures
            r@ == self@,
    {
        PolProof {
            id: self.id,
            fund_id: self.fund_id.clone(),
            wallet: self.wallet.clone(),
            ccq_burned: self.ccq_burned,
            underlying_redeemed: self.underlying_redeemed,
            reserve_after: self.reserve_after,
        }
    }
}

pub type AssetView = (Seq<char>, u8, bool, Seq<char>, Option<Seq<char>>, i128);
pub type FundView = (Seq<char>, Seq<char>, Seq<char>, Seq<char>, Seq<char>, i128, i128, i128);

/// The asset USDP the simulation starts with.
pub open spec fn usdp_asset() -> AssetView {
    ("USDP"@, 6u8, true, "Pegged"@, Some("USDT"@), 0i128)
}

/// The id of the `n`-th fund: `FUND-` and `n` on at least four digits.
pub open spec fn fund_id_text(n: u64) -> Seq<char> {
    "FUND-"@ + zero_pad(decimal(n as nat), 4)
}

/// The symbol a fund's shares are registered under.
pub open spec fn ccq_symbol(fund_id: Seq<char>) -> Seq<char> {
    "CCQ:"@ + fund_id
}

/// How the symbol of a request is read: trimmed and in upper case.
pub open spec fn symbol_key(s: Seq<char>) -> Seq<char> {
    unicode_upper(trim_spec(s))
}

pub open spec fn has_asset(s: Seq<AssetView>, sym: Seq<char>) -> bool {
    exists|i: int| 0 <= i < s.len() && s[i].0 == sym
}

pub open spec fn asset_index(s: Seq<AssetView>, sym: Seq<char>) -> int {
    choose|i: int| 0 <= i < s.len() && s[i].0 == sym
}

pub open spec fn has_fund(s: Seq<FundView>, id: Seq<char>) -> bool {
    exists|i: int| 0 <= i < s.len() && s[i].0 == id
}

pub open spec fn fund_index(s: Seq<FundView>, id: Seq<char>) -> int {
    choose|i: int| 0 <= i < s.len() && s[i].0 == id
}

/// The table after storing an asset under its symbol.
pub open spec fn put_asset(s: Seq<AssetView>, a: AssetView) -> Seq<AssetView> {
    if has_asset(s, a.0) { s.update(asset_index(s, a.0), a) } else { s.push(a) }
}

/// The table after storing a fund under its id.
pub open spec fn put_fund(s: Seq<FundView>, f: FundView) -> Seq<FundView> {
    if has_fund(s, f.0) { s.update(fund_index(s, f.0), f) } else { s.push(f) }
}

/// The asset with its supply changed.
pub open spec fn with_supply(a: AssetView, supply: int) -> AssetView {
    (a.0, a.1, a.2, a.3, a.4, supply as i128)
}

/// Every CCQ unit of the fund is backed by its reserve.
/// A fund after `usdp` USDP was paid in: NAV and reserve grow by it, and the
/// CCQ supply by a hundred CCQ units per USDP unit.
pub open spec fn fund_after_issue(f: FundView, usdp: int) -> FundView {
    (f.0, f.1, f.2, f.3, f.4, (f.5 + usdp) as i128, (f.6 + usdp) as i128, (f.7 + usdp * 100) as i128)
}

/// A fund after `ccq` CCQ units were redeemed: NAV and reserve shrink by the
/// USDP paid out (a hundredth of it), the CCQ supply by `ccq`.
pub open spec fn fund_after_redeem(f: FundView, ccq: int) -> FundView {
    (f.0, f.1, f.2, f.3, f.4, (f.5 - ccq / 100) as i128, (f.6 - ccq / 100) as i128, (f.7 - ccq) as i128)
}

/// Issuing CCQ for some USDP and redeeming all of it gives the fund back as it
/// was (when the issue fit in range).
pub proof fn lemma_issue_then_redeem(f: FundView, usdp: int)
    requires
        usdp > 0,
        f.5 + usdp <= i128::MAX,
        f.6 + usdp <= i128::MAX,
        f.7 + usdp * 100 <= i128::MAX,
    ensures
        fund_after_redeem(fund_after_issue(f, usdp), usdp * 100) == f,
{
    assert((usdp * 100) / 100 == usdp);
}

pub open spec fn fully_backed(f: FundView) -> bool {
    f.5 == f.6 && f.7 == 100 * f.6
}

pub struct Simulation {
    assets: Vec<SimAsset>,
    funds: Vec<SimFund>,
    pol: Vec<PolProof>,
    next_fund: u64,
    next_pol: u64,
}

impl Simulation {
    pub closed spec fn asset_views(&self) -> Seq<AssetView> {
        self.assets@.map_values(|a: SimAsset| a@)
    }

    pub closed spec fn fund_views(&self) -> Seq<FundView> {
        self.funds@.map_values(|f: SimFund| f@)
    }

    pub closed spec fn proofs(&self) -> Seq<(u64, Seq<char>, Seq<char>, i128, i128, i128)> {
        self.pol@.map_values(|p: PolProof| p@)
    }

    pub closed spec fn next_fund_number(&self) -> u64 {
        self.next_fund
    }

    pub closed spec fn next_proof_id(&self) -> u64 {
        self.next_pol
    }

    /// Symbols and fund ids are unique, and every fund's shares are a registered asset.
    pub closed spec fn wf(&self) -> bool {
        &&& self.asset_views().len() == self.assets@.len()
        &&& self.fund_views().len() == self.funds@.len()
        &&& forall|i: int, j: int| 0 <= i < j < self.asset_views().len()
            ==> (#[trigger] self.asset_views()[i]).0 != (#[trigger] self.asset_views()[j]).0
        &&& forall|i: int, j: int| 0 <= i < j < self.fund_views().len()
            ==> (#[trigger] self.fund_views()[i]).0 != (#[trigger] self.fund_views()[j]).0
        &&& forall|i: int| 0 <= i < self.fund_views().len()
            ==> has_asset(self.asset_views(), (#[trigger] self.fund_views()[i]).4)
    }

    pub fn new() -> (r: Self)
        ensures
            r.wf(),
            r.asset_views() == seq![usdp_asset()],
            r.fund_views() == Seq::<FundView>::empty(),
            r.proofs().len() == 0,
            r.next_fund_number() == 1,
            r.next_proof_id() == 1,
    {
        let usdp = SimAsset {
            symbol: "USDP".to_string(),
            decimals: 6,
            transferable: true,
            kind: "Pegged".to_string(),
            peg: Some("USDT".to_string()),
            total_supply: 0,
        };
        let mut assets: Vec<SimAsset> = Vec::new();
        assets.push(usdp);
        let r = Simulation { assets, funds: Vec::new(), pol: Vec::new(), next_fund: 1, next_pol: 1 };
        assert(r.asset_views() =~= seq![usdp_asset()]);
        assert(r.fund_views() =~= Seq::<FundView>::empty());
        r
    }

    fn find_asset(&self, symbol: &str) -> (r: Option<usize>)
        requires
            self.wf(),
        ensures
            r is None <==> !has_asset(self.asset_views(), symbol@),
            r matches Some(i) ==> i < self.assets@.len() && i == asset_index(self.asset_views(), symbol@),
    {
        let ghost v = self.asset_views();
        let mut i: usize = 0;
        while i < self.assets.len()
            invariant
                i <= self.assets@.len(),
                v == self.asset_views(),
                self.wf(),
                forall|k: int| 0 <= k < i ==> v[k].0 != symbol@,
            decreases self.assets@.len() - i,
        {
            if str_eq(self.assets[i].symbol.as_str(), symbol) {
                proof {
                    assert(v[i as int].0 == symbol@);
                    let c = asset_index(v, symbol@);
                    assert(c == i) by {
                        if c != i as int {
                            if c < i {
                                assert(v[c].0 != symbol@);
                            } else {
                                assert(v[i as int].0 != v[c].0);
                            }
                        }
                    }
                }
                return Some(i);
            }
            i += 1;
        }
        None
    }

    fn find_fund(&self, id: &str) -> (r: Option<usize>)
        requires
            self.wf(),
        ensures
            r is None <==> !has_fund(self.fund_views(), id@),
            r matches Some(i) ==> i < self.funds@.len() && i == fund_index(self.fund_views(), id@),
    {
        let ghost v = self.fund_views();
        let mut i: usize = 0;
        while i < self.funds.len()
            invariant
                i <= self.funds@.len(),
                v == self.fund_views(),
                self.wf(),
                forall|k: int| 0 <= k < i ==> v[k].0 != id@,
            decreases self.funds@.len() - i,
        {
            if str_eq(self.funds[i].id.as_str(), id) {
                proof {
                    assert(v[i as int].0 == id@);
                    let c = fund_index(v, id@);
                    assert(c == i) by {
                        if c != i as int {
                            if c < i {
                                assert(v[c].0 != id@);
                            } else {
                                assert(v[i as int].0 != v[c].0);
                            }
                        }
                    }
                }
                return Some(i);
            }
            i += 1;
        }
        None
    }

    /// Stores an asset under its symbol, replacing the one registered there.
    fn store_asset(&mut self, asset: SimAsset)
        requires
            old(self).wf(),
        ensures
            final(self).wf(),
            final(self).asset_views() == put_asset(old(self).asset_views(), asset@),
            final(self).fund_views() == old(self).fund_views(),
            final(self).proofs() == old(self).proofs(),
            final(self).next_fund_number() == old(self).next_fund_number(),
            final(self).next_proof_id() == old(self).next_proof_id(),
    {
        let ghost before = self.asset_views();
        let ghost a = asset@;
        match self.find_asset(asset.symbol.as_str()) {
            Some(i) => {
                assert(before[i as int].0 == a.0);
                self.assets.set(i, asset);
                assert(self.asset_views() =~= before.update(i as int, a));
                proof {
                    assert forall|x: int, y: int| 0 <= x < y < self.asset_views().len()
                        implies (#[trigger] self.asset_views()[x]).0 != (#[trigger] self.asset_views()[y]).0 by {
                        assert(before[x].0 != before[y].0);
                    }
                    assert forall|k: int| 0 <= k < self.fund_views().len()
                        implies has_asset(self.asset_views(), (#[trigger] self.fund_views()[k]).4) by {
                        let s = self.fund_views()[k].4;
                        assert(self.fund_views()[k] == old(self).fund_views()[k]);
                        assert(has_asset(before, s));
                        let j = choose|j: int| 0 <= j < before.len() && before[j].0 == s;
                        assert(self.asset_views()[j].0 == s);
                    }
                }
            },
            None => {
                self.assets.push(asset);
                assert(self.asset_views() =~= before.push(a));
                proof {
                    assert forall|x: int, y: int| 0 <= x < y < self.asset_views().len()
                        implies (#[trigger] self.asset_views()[x]).0 != (#[trigger] self.asset_views()[y]).0 by {
                        if y < before.len() {
                            assert(before[x].0 != before[y].0);
                        } else {
                            assert(before[x].0 != a.0);
                        }
                    }
                    assert forall|k: int| 0 <= k < self.fund_views().len()
                        implies has_asset(self.asset_views(), (#[trigger] self.fund_views()[k]).4) by {
                        let s = self.fund_views()[k].4;
                        assert(self.fund_views()[k] == old(self).fund_views()[k]);
                        assert(has_asset(before, s));
                        let j = choose|j: int| 0 <= j < before.len() && before[j].0 == s;
                        assert(self.asset_views()[j].0 == s);
                    }
                }
            },
        }
    }

    /// Stores a fund whose shares are registered, replacing the one with its id.
    fn store_fund(&mut self, fund: SimFund)
        requires
            old(self).wf(),
            has_asset(old(self).asset_views(), fund@.4),
        ensures
            final(self).wf(),
            final(self).fund_views() == put_fund(old(self).fund_views(), fund@),
            final(self).asset_views() == old(self).asset_views(),
            final(self).proofs() == old(self).proofs(),
            final(self).next_fund_number() == old(self).next_fund_number(),
            final(self).next_proof_id() == old(self).next_proof_id(),
    {
        let ghost before = self.fund_views();
        let ghost f = fund@;
        match self.find_fund(fund.id.as_str()) {
            Some(i) => {
                self.funds.set(i, fund);
                assert(self.fund_views() =~= before.update(i as int, f));
                proof {
                    assert forall|x: int, y: int| 0 <= x < y < self.fund_views().len()
                        implies (#[trigger] self.fund_views()[x]).0 != (#[trigger] self.fund_views()[y]).0 by {
                        assert(before[x].0 != before[y].0);
                    }
                    assert forall|k: int| 0 <= k < self.fund_views().len()
                        implies has_asset(self.asset_views(), (#[trigger] self.fund_views()[k]).4) by {
                        if k != i {
                            assert(self.fund_views()[k] == before[k]);
                        }
                    }
                }
            },
            None => {
                self.funds.push(fund);
                assert(self.fund_views() =~= before.push(f));
                proof {
                    assert forall|x: int, y: int| 0 <= x < y < self.fund_views().len()
                        implies (#[trigger] self.fund_views()[x]).0 != (#[trigger] self.fund_views()[y]).0 by {
                        if y < before.len() {
                            assert(before[x].0 != before[y].0);
                        } else {
                            assert(before[x].0 != f.0);
                        }
                    }
                    assert forall|k: int| 0 <= k < self.fund_views().len()
                        implies has_asset(self.asset_views(), (#[trigger] self.fund_views()[k]).4) by {
                        if k < before.len() {
                            assert(self.fund_views()[k] == before[k]);
                        }
                    }
                }
            },
        }
    }

    /// Registers a fund and its CCQ share asset.
    pub fn create_fund(&mut self, name: String, symbol: String) -> (r: Result<SimFund, String>)
        requires
            old(self).wf(),
            old(self).next_fund_number() < u64::MAX,
        ensures
            final(self).wf(),
            (trim_spec(name@).len() == 0 || trim_spec(symbol@).len() == 0) <==> r is Err,
            r is Err ==> *final(self) == *old(self),
            r matches Ok(f) ==> {
                let id = fund_id_text(old(self).next_fund_number());
                &&& f@ == (id, trim_spec(name@), unicode_upper(trim_spec(symbol@)), "USDP"@, ccq_symbol(id), 0i128, 0i128, 0i128)
                &&& final(self).next_fund_number() == old(self).next_fund_number() + 1
                &&& final(self).asset_views() == put_asset(old(self).asset_views(),
                        (ccq_symbol(id), 8u8, true, "CCQ"@, None::<Seq<char>>, 0i128))
                &&& final(self).fund_views() == put_fund(old(self).fund_views(), f@)
                &&& final(self).proofs() == old(self).proofs()
                &&& final(self).next_proof_id() == old(self).next_proof_id()
            },
    {
        let name_t = trim(name.as_str());
        let symbol_t = trim(symbol.as_str());
        if name_t.unicode_len() == 0 || symbol_t.unicode_len() == 0 {
            return Err("fund name and symbol are required".to_string());
        }
        let mut id = "FUND-".to_string();
        let number = u64_text_padded(self.next_fund, 4);
        push_str(&mut id, number.as_str());
        self.next_fund = self.next_fund + 1;
        let upper = to_upper(symbol_t);
        let mut ccq_asset = "CCQ:".to_string();
        push_str(&mut ccq_asset, id.as_str());
        let asset = SimAsset {
            symbol: ccq_asset.clone(),
            decimals: 8,
            transferable: true,
            kind: "CCQ".to_string(),
            peg: None,
            total_supply: 0,
        };
        self.store_asset(asset);
        proof {
            let a = (ccq_asset@, 8u8, true, "CCQ"@, None::<Seq<char>>, 0i128);
            assert(self.asset_views() == put_asset(old(self).asset_views(), a));
            if has_asset(old(self).asset_views(), a.0) {
                let k = asset_index(old(self).asset_views(), a.0);
                assert(self.asset_views()[k].0 == a.0);
            } else {
                assert(self.asset_views()[old(self).asset_views().len() as int].0 == a.0);
            }
        }
        let fund = SimFund {
            id,
            name: name_t.to_string(),
            symbol: upper,
            underlying: "USDP".to_string(),
            ccq_asset,
            nav: 0,
            reserve: 0,
            ccq_supply: 0,
        };
        let out = fund.clone();
        self.store_fund(fund);
        Ok(out)
    }

    /// Registers a custom asset under its symbol, trimmed and in upper case.
    pub fn create_asset(&mut self, symbol: String, decimals: u8, transferable: bool, kind: String, peg: Option<String>) -> (r: Result<SimAsset, String>)
        requires
            old(self).wf(),
        ensures
            final(self).wf(),
            r is Ok <==> (symbol_key(symbol@).len() > 0 && !has_asset(old(self).asset_views(), symbol_key(symbol@))),
            r is Err ==> *final(self) == *old(self),
            r matches Ok(a) ==> {
                &&& a@ == (symbol_key(symbol@), decimals, transferable, kind@, opt_text(peg), 0i128)
                &&& final(self).asset_views() == old(self).asset_views().push(a@)
                &&& final(self).fund_views() == old(self).fund_views()
                &&& final(self).proofs() == old(self).proofs()
                &&& final(self).next_fund_number() == old(self).next_fund_number()
            },
    {
        let key = to_upper(trim(symbol.as_str()));
        if key.as_str().unicode_len() == 0 {
            return Err("asset symbol cannot be empty".to_string());
        }
        if self.find_asset(key.as_str()).is_some() {
            let mut m = "asset already exists: ".to_string();
            push_str(&mut m, key.as_str());
            return Err(m);
        }
        let asset = SimAsset { symbol: key, decimals, transferable, kind, peg, total_supply: 0 };
        let out = asset.clone();
        self.store_asset(asset);
        Ok(out)
    }

    /// The asset registered under the symbol, trimmed and in upper case.
    pub fn asset(&self, symbol: &str) -> (r: Option<SimAsset>)
        requires
            self.wf(),
        ensures
            r is Some <==> has_asset(self.asset_views(), symbol_key(symbol@)),
            r matches Some(a) ==> a@ == self.asset_views()[asset_index(self.asset_views(), symbol_key(symbol@))],
    {
        let key = to_upper(trim(symbol));
        match self.find_asset(key.as_str()) {
            Some(i) => Some(self.assets[i].clone()),
            None => None,
        }
    }

    pub fn fund(&self, id: &str) -> (r: Option<SimFund>)
        requires
            self.wf(),
        ensures
            r is Some <==> has_fund(self.fund_views(), id@),
            r matches Some(f) ==> f@ == self.fund_views()[fund_index(self.fund_views(), id@)],
    {
        match self.find_fund(id) {
            Some(i) => Some(self.funds[i].clone()),
            None => None,
        }
    }

    /// The proof-of-liquidity records, oldest first.
    pub fn pol(&self) -> (r: Vec<PolProof>)
        ensures
            r@.map_values(|p: PolProof| p@) == self.proofs(),
    {
        let mut out: Vec<PolProof> = Vec::new();
        let mut i: usize = 0;
        while i < self.pol.len()
            invariant
                i <= self.pol@.len(),
                out@.map_values(|p: PolProof| p@) == self.proofs().take(i as int),
            decreases self.pol@.len() - i,
        {
            let p = self.pol[i].clone();
            let ghost before = out@;
            out.push(p);
            assert(out@.map_values(|p: PolProof| p@) =~= before.map_values(|p: PolProof| p@).push(p@));
            assert(self.proofs().take(i + 1) =~= self.proofs().take(i as int).push(self.proofs()[i as int]));
            i += 1;
        }
        assert(self.proofs().take(self.pol@.len() as int) =~= self.proofs());
        out
    }

    /// Changes the supply of the asset at a position.
    fn set_supply(&mut self, i: usize, supply: i128)
        requires
            old(self).wf(),
            i < old(self).asset_views().len(),
        ensures
            final(self).wf(),
            final(self).asset_views() == old(self).asset_views().update(i as int, with_supply(old(self).asset_views()[i as int], supply as int)),
            final(self).fund_views() == old(self).fund_views(),
            final(self).proofs() == old(self).proofs(),
            final(self).next_fund_number() == old(self).next_fund_number(),
            final(self).next_proof_id() == old(self).next_proof_id(),
    {
        let mut a = self.assets[i].clone();
        a.total_supply = supply;
        self.store_asset(a);
        proof {
            let before = old(self).asset_views();
            let c = asset_index(before, before[i as int].0);
            assert(c == i) by {
                if c != i as int {
                    if c < i {
                        assert(before[c].0 != before[i as int].0);
                    } else {
                        assert(before[i as int].0 != before[c].0);
                    }
                }
            }
        }
    }

    /// Mints a custom asset to a wallet: its supply and the wallet's balance grow.
    pub fn mint_asset(&mut self, ledger: &mut BalanceLedger, wallet: &str, symbol: &str, amount: i128) -> (r: Result<SimAsset, String>)
        requires
            old(self).wf(),
            old(ledger).wf(),
        ensures
            final(self).wf(),
            final(ledger).wf(),
            amount <= 0 || !has_asset(old(self).asset_views(), symbol_key(symbol@))
                ==> (r is Err && *final(self) == *old(self) && *final(ledger) == *old(ledger)),
            amount > 0 && has_asset(old(self).asset_views(), symbol_key(symbol@)) ==> ({
                let k = asset_index(old(self).asset_views(), symbol_key(symbol@));
                let a = old(self).asset_views()[k];
                let b = balance_in(old(ledger).view(), bkey(wallet@, symbol_key(symbol@)));
                &&& a.5 + amount > i128::MAX ==> (r is Err && *final(self) == *old(self) && *final(ledger) == *old(ledger))
                &&& a.5 + amount <= i128::MAX ==> {
                    &&& final(self).asset_views() == old(self).asset_views().update(k, with_supply(a, a.5 + amount))
                    &&& (r is Ok <==> 0 <= b.available + amount <= i128::MAX)
                    &&& r matches Ok(x) ==> x@ == with_supply(a, a.5 + amount)
                    &&& r is Ok ==> final(ledger).view() == old(ledger).view().insert(bkey(wallet@, symbol_key(symbol@)),
                            Balance { available: (b.available + amount) as i128, locked: b.locked })
                    &&& r is Err ==> final(ledger).view() == old(ledger).view().insert(bkey(wallet@, symbol_key(symbol@)), b)
                }
            }),
    {
        if amount <= 0 {
            return Err("mint amount must be greater than zero".to_string());
        }
        let key = to_upper(trim(symbol));
        let i = match self.find_asset(key.as_str()) {
            Some(i) => i,
            None => {
                let mut m = "asset not found: ".to_string();
                push_str(&mut m, key.as_str());
                return Err(m);
            },
        };
        let supply = match self.assets[i].total_supply.checked_add(amount) {
            Some(s) => s,
            None => return Err("asset supply overflow".to_string()),
        };
        self.set_supply(i, supply);
        assert(key@ == symbol_key(symbol@));
        match ledger.deposit(wallet, key.as_str(), amount) {
            Ok(()) => {},
            Err(e) => {
                let mut m = "asset credit failed: ".to_string();
                let t = e.text();
                push_str(&mut m, t.as_str());
                return Err(m);
            },
        }
        let out = self.assets[i].clone();
        assert(out@ == self.asset_views()[i as int]);
        Ok(out)
    }

    /// Issues a fund's CCQ against USDP: the wallet's USDP goes to the fund's
    /// reserve, and a hundred CCQ units per USDP unit are minted to the wallet.
    pub fn issue_ccq(&mut self, ledger: &mut BalanceLedger, wallet: &str, fund_id: &str, usdp_amount: i128) -> (r: Result<SimFund, String>)
        requires
            old(self).wf(),
            old(ledger).wf(),
        ensures
            final(self).wf(),
            final(ledger).wf(),
            (usdp_amount <= 0 || !has_fund(old(self).fund_views(), fund_id@) || usdp_amount * 100 > i128::MAX
                || balance_in(old(ledger).view(), bkey(wallet@, "USDP"@)).available < usdp_amount)
                ==> (r is Err && *final(self) == *old(self) && final(ledger).view() == old(ledger).view()),
            r matches Ok(f) ==> ({
                let k = fund_index(old(self).fund_views(), fund_id@);
                let before = old(self).fund_views()[k];
                let ccq = usdp_amount * 100;
                let u = balance_in(old(ledger).view(), bkey(wallet@, "USDP"@));
                let l1 = old(ledger).view().insert(bkey(wallet@, "USDP"@),
                    Balance { available: (u.available - usdp_amount) as i128, locked: u.locked });
                let c = balance_in(l1, bkey(wallet@, before.4));
                &&& has_fund(old(self).fund_views(), fund_id@)
                &&& f@ == fund_after_issue(before, usdp_amount as int)
                &&& final(self).fund_views() == old(self).fund_views().update(k, f@)
                &&& final(self).asset_views() == old(self).asset_views().update(asset_index(old(self).asset_views(), before.4),
                        with_supply(old(self).asset_views()[asset_index(old(self).asset_views(), before.4)],
                            old(self).asset_views()[asset_index(old(self).asset_views(), before.4)].5 + ccq))
                &&& final(ledger).view() == l1.insert(bkey(wallet@, before.4),
                        Balance { available: (c.available + ccq) as i128, locked: c.locked })
                &&& (fully_backed(before) ==> fully_backed(f@))
            }),
            ({
                let k = fund_index(old(self).fund_views(), fund_id@);
                let before = old(self).fund_views()[k];
                let a = old(self).asset_views()[asset_index(old(self).asset_views(), before.4)];
                let ccq = usdp_amount * 100;
                let u = balance_in(old(ledger).view(), bkey(wallet@, "USDP"@));
                let l1 = old(ledger).view().insert(bkey(wallet@, "USDP"@),
                    Balance { available: (u.available - usdp_amount) as i128, locked: u.locked });
                let c = balance_in(l1, bkey(wallet@, before.4));
                r is Ok <==> (usdp_amount > 0 && has_fund(old(self).fund_views(), fund_id@) && ccq <= i128::MAX
                    && u.available >= usdp_amount
                    && before.6 + usdp_amount <= i128::MAX && before.5 + usdp_amount <= i128::MAX
                    && before.7 + ccq <= i128::MAX && a.5 + ccq <= i128::MAX
                    && 0 <= c.available + ccq <= i128::MAX)
            }),
    {
        if usdp_amount <= 0 {
            return Err("USDP amount must be greater than zero".to_string());
        }
        let k = match self.find_fund(fund_id) {
            Some(k) => k,
            None => {
                let mut m = "fund not found: ".to_string();
                push_str(&mut m, fund_id);
                return Err(m);
            },
        };
        let ccq_amount = match usdp_amount.checked_mul(CCQ_PER_USDP) {
            Some(c) => c,
            None => return Err("CCQ amount overflow".to_string()),
        };
        match ledger.withdraw(wallet, "USDP", usdp_amount) {
            Ok(()) => {},
            Err(e) => {
                let mut m = "USDP debit failed: ".to_string();
                let t = e.text();
                push_str(&mut m, t.as_str());
                return Err(m);
            },
        }
        let mut fund = self.funds[k].clone();
        let ghost before = self.fund_views()[k as int];
        fund.reserve = match fund.reserve.checked_add(usdp_amount) {
            Some(v) => v,
            None => return Err("fund reserve overflow".to_string()),
        };
        self.store_fund_at(k, fund.clone());
        fund.nav = match fund.nav.checked_add(usdp_amount) {
            Some(v) => v,
            None => return Err("fund NAV overflow".to_string()),
        };
        self.store_fund_at(k, fund.clone());
        fund.ccq_supply = match fund.ccq_supply.checked_add(ccq_amount) {
            Some(v) => v,
            None => return Err("CCQ supply overflow".to_string()),
        };
        self.store_fund_at(k, fund.clone());
        let a = match self.find_asset(fund.ccq_asset.as_str()) {
            Some(a) => a,
            None => return Err("CCQ asset missing".to_string()),
        };
        let supply = match self.assets[a].total_supply.checked_add(ccq_amount) {
            Some(s) => s,
            None => return Err("CCQ total supply overflow".to_string()),
        };
        self.set_supply(a, supply);
        match ledger.deposit(wallet, fund.ccq_asset.as_str(), ccq_amount) {
            Ok(()) => {},
            Err(e) => {
                let mut m = "CCQ credit failed: ".to_string();
                let t = e.text();
                push_str(&mut m, t.as_str());
                return Err(m);
            },
        }
        proof {
            reveal_strlit("USDP");
        }
        Ok(fund)
    }

    /// Replaces the fund at a position by one with the same id and share asset.
    fn store_fund_at(&mut self, k: usize, fund: SimFund)
        requires
            old(self).wf(),
            k < old(self).fund_views().len(),
            fund@.0 == old(self).fund_views()[k as int].0,
            fund@.4 == old(self).fund_views()[k as int].4,
        ensures
            final(self).wf(),
            final(self).fund_views() == old(self).fund_views().update(k as int, fund@),
            final(self).asset_views() == old(self).asset_views(),
            final(self).proofs() == old(self).proofs(),
            final(self).next_fund_number() == old(self).next_fund_number(),
            final(self).next_proof_id() == old(self).next_proof_id(),
    {
        let ghost before = self.fund_views();
        let ghost f = fund@;
        self.funds.set(k, fund);
        assert(self.fund_views() =~= before.update(k as int, f));
        proof {
            assert forall|x: int, y: int| 0 <= x < y < self.fund_views().len()
                implies (#[trigger] self.fund_views()[x]).0 != (#[trigger] self.fund_views()[y]).0 by {
                assert(before[x].0 != before[y].0);
            }
            assert forall|j: int| 0 <= j < self.fund_views().len()
                implies has_asset(self.asset_views(), (#[trigger] self.fund_views()[j]).4) by {
                assert(has_asset(self.asset_views(), before[j].4));
            }
        }
    }

    /// Redeems CCQ for USDP out of the fund's reserve and records a proof of
    /// liquidity; only whole USDP units can be redeemed.
    pub fn redeem(&mut self, ledger: &mut BalanceLedger, wallet: &str, fund_id: &str, ccq_amount: i128) -> (r: Result<PolProof, String>)
        requires
            old(self).wf(),
            old(ledger).wf(),
            old(self).next_proof_id() < u64::MAX,
            has_fund(old(self).fund_views(), fund_id@) ==> ({
                let f = old(self).fund_views()[fund_index(old(self).fund_views(), fund_id@)];
                let a = old(self).asset_views()[asset_index(old(self).asset_views(), f.4)];
                &&& f.5 - ccq_amount / 100 >= i128::MIN
                &&& f.7 - ccq_amount >= i128::MIN
                &&& a.5 - ccq_amount >= i128::MIN
            }),
        ensures
            final(self).wf(),
            final(ledger).wf(),
            (ccq_amount <= 0 || !has_fund(old(self).fund_views(), fund_id@) || ccq_amount % 100 != 0
                || old(self).fund_views()[fund_index(old(self).fund_views(), fund_id@)].6 < ccq_amount / 100)
                ==> (r is Err && *final(self) == *old(self) && final(ledger).view() == old(ledger).view()),
            r matches Ok(p) ==> ({
                let k = fund_index(old(self).fund_views(), fund_id@);
                let before = old(self).fund_views()[k];
                let usdp = ccq_amount / 100;
                let after = fund_after_redeem(before, ccq_amount as int);
                &&& has_fund(old(self).fund_views(), fund_id@)
                &&& p@ == (old(self).next_proof_id(), fund_id@, wallet@, ccq_amount, usdp as i128, after.6)
                &&& final(self).fund_views() == old(self).fund_views().update(k, after)
                &&& final(self).asset_views() == old(self).asset_views().update(asset_index(old(self).asset_views(), before.4),
                        with_supply(old(self).asset_views()[asset_index(old(self).asset_views(), before.4)],
                            old(self).asset_views()[asset_index(old(self).asset_views(), before.4)].5 - ccq_amount))
                &&& final(self).proofs() == old(self).proofs().push(p@)
                &&& final(self).next_proof_id() == old(self).next_proof_id() + 1
                &&& (fully_backed(before) ==> fully_backed(after))
            }),
            ({
                let k = fund_index(old(self).fund_views(), fund_id@);
                let f = old(self).fund_views()[k];
                let usdp = ccq_amount / 100;
                let b = balance_in(old(ledger).view(), bkey(wallet@, f.4));
                let l1 = old(ledger).view().insert(bkey(wallet@, f.4),
                    Balance { available: (b.available - ccq_amount) as i128, locked: b.locked });
                let c = balance_in(l1, bkey(wallet@, "USDP"@));
                &&& r is Ok <==> (ccq_amount > 0 && has_fund(old(self).fund_views(), fund_id@) && ccq_amount % 100 == 0
                    && f.6 >= usdp && b.available >= ccq_amount && 0 <= c.available + usdp <= i128::MAX)
                &&& r is Ok ==> final(ledger).view() == l1.insert(bkey(wallet@, "USDP"@),
                    Balance { available: (c.available + usdp) as i128, locked: c.locked })
            }),
    {
        if ccq_amount <= 0 {
            return Err("CCQ amount must be greater than zero".to_string());
        }
        let k = match self.find_fund(fund_id) {
            Some(k) => k,
            None => {
                let mut m = "fund not found: ".to_string();
                push_str(&mut m, fund_id);
                return Err(m);
            },
        };
        if ccq_amount % CCQ_PER_USDP != 0 {
            return Err("CCQ amount is not exactly redeemable".to_string());
        }
        let usdp_amount = ccq_amount / CCQ_PER_USDP;
        if self.funds[k].reserve < usdp_amount {
            return Err("fund reserve is insufficient".to_string());
        }
        let ccq_asset = self.funds[k].ccq_asset.clone();
        match ledger.withdraw(wallet, ccq_asset.as_str(), ccq_amount) {
            Ok(()) => {},
            Err(e) => {
                let mut m = "CCQ burn failed: ".to_string();
                let t = e.text();
                push_str(&mut m, t.as_str());
                return Err(m);
            },
        }
        let mut fund = self.funds[k].clone();
        fund.reserve = fund.reserve - usdp_amount;
        fund.nav = fund.nav - usdp_amount;
        fund.ccq_supply = fund.ccq_supply - ccq_amount;
        let reserve_after = fund.reserve;
        self.store_fund_at(k, fund);
        let a = match self.find_asset(ccq_asset.as_str()) {
            Some(a) => a,
            None => return Err("CCQ asset missing".to_string()),
        };
        let supply = self.assets[a].total_supply - ccq_amount;
        self.set_supply(a, supply);
        match ledger.deposit(wallet, "USDP", usdp_amount) {
            Ok(()) => {},
            Err(e) => {
                let mut m = "USDP redemption credit failed: ".to_string();
                let t = e.text();
                push_str(&mut m, t.as_str());
                return Err(m);
            },
        }
        let proof = PolProof {
            id: self.next_pol,
            fund_id: fund_id.to_string(),
            wallet: wallet.to_string(),
            ccq_burned: ccq_amount,
            underlying_redeemed: usdp_amount,
            reserve_after,
        };
        self.next_pol = self.next_pol + 1;
        let ghost before_proofs = self.proofs();
        self.pol.push(proof.clone());
        assert(self.proofs() =~= before_proofs.push(proof@));
        Ok(proof)
    }

    /// Moves a transferable asset between wallets.
    pub fn transfer(&self, ledger: &mut BalanceLedger, from: &str, to: &str, asset: &str, amount: i128) -> (r: Result<(), String>)
        requires
            self.wf(),
            old(ledger).wf(),
        ensures
            final(ledger).wf(),
            (amount <= 0 || !has_asset(self.asset_views(), symbol_key(asset@))
                || !self.asset_views()[asset_index(self.asset_views(), symbol_key(asset@))].2
                || balance_in(old(ledger).view(), bkey(from@, symbol_key(asset@))).available < amount)
                ==> (r is Err && final(ledger).view() == old(ledger).view()),
            ({
                let key = symbol_key(asset@);
                let b = balance_in(old(ledger).view(), bkey(from@, key));
                let l1 = old(ledger).view().insert(bkey(from@, key), Balance { available: (b.available - amount) as i128, locked: b.locked });
                let c = balance_in(l1, bkey(to@, key));
                &&& r is Ok <==> (amount > 0 && has_asset(self.asset_views(), key)
                    && self.asset_views()[asset_index(self.asset_views(), key)].2
                    && b.available >= amount && 0 <= c.available + amount <= i128::MAX)
                &&& r is Ok ==> final(ledger).view() == l1.insert(bkey(to@, key), Balance { available: (c.available + amount) as i128, locked: c.locked })
                &&& (r is Err && amount > 0 && has_asset(self.asset_views(), key)
                    && self.asset_views()[asset_index(self.asset_views(), key)].2 && b.available >= amount)
                    ==> final(ledger).view() == l1.insert(bkey(to@, key), c)
            }),
    {
        if amount <= 0 {
            return Err("transfer amount must be greater than zero".to_string());
        }
        let key = to_upper(trim(asset));
        let i = match self.find_asset(key.as_str()) {
            Some(i) => i,
            None => {
                let mut m = "asset not found: ".to_string();
                push_str(&mut m, key.as_str());
                return Err(m);
            },
        };
        if !self.assets[i].transferable {
            let mut m = "asset is not transferable: ".to_string();
            push_str(&mut m, key.as_str());
            return Err(m);
        }
        match ledger.withdraw(from, key.as_str(), amount) {
            Ok(()) => {},
            Err(e) => {
                let mut m = "sender debit failed: ".to_string();
                let t = e.text();
                push_str(&mut m, t.as_str());
                return Err(m);
            },
        }
        match ledger.deposit(to, key.as_str(), amount) {
            Ok(()) => {},
            Err(e) => {
                let mut m = "receiver credit failed: ".to_string();
                let t = e.text();
                push_str(&mut m, t.as_str());
                return Err(m);
            },
        }
        Ok(())
    }
}

impl Default for Simulation {
    fn default() -> (r: Self)
        ensures
            r.wf(),
            r.asset_views() == seq![usdp_asset()],
            r.fund_views() == Seq::<FundView>::empty(),
    {
        Self::new()
    }
}

} // verus!
