//! Assets of the chain: the core assets, fund shares (CCQ) and custom assets.
use vstd::prelude::*;
use crate::text::{ascii_upper, is_ascii_text, push_str, starts_with, starts_with_spec, str_eq, to_upper, trim, trim_spec, unicode_upper};

verus! {

/// An asset identifier: its symbol in upper case.
#[derive(Debug, PartialEq, Eq, Hash)]
pub struct AssetId(String);

impl View for AssetId {
    type V = Seq<char>;

    closed spec fn view(&self) -> Seq<char> {
        self.0@
    }
}

impl Clone for AssetId {
    fn clone(&self) -> (r: Self)
        ensures
            r@ == self@,
    {
        AssetId(self.0.clone())
    }
}

pub const PEP: &'static str = "PEP";
pub const BTCP: &'static str = "BTCP";
pub const ETHP: &'static str = "ETHP";
pub const USDP: &'static str = "USDP";

impl AssetId {
    pub fn new(symbol: &str) -> (r: Self)
        ensures
            r@ == unicode_upper(symbol@),
            is_ascii_text(symbol@) ==> r@ == ascii_upper(symbol@),
    {
        AssetId(to_upper(symbol))
    }

    pub fn as_str(&self) -> (r: &str)
        ensures
            r@ == self@,
    {
        self.0.as_str()
    }

    /// The symbol, as text.
    pub fn text(&self) -> (r: String)
        ensures
            r@ == self@,
    {
        self.0.clone()
    }

    /// Whether two identifiers are the same symbol.
    pub fn same_as(&self, other: &AssetId) -> (r: bool)
        ensures
            r == (self@ == other@),
    {
        self.0.eq(&other.0)
    }
}

#[derive(Debug, Clone, Copy, PartialEq, Eq, Structural)]
pub enum AssetType {
    /// The index asset of the ecosystem (PEP).
    Index,
    /// Native representations of external-chain assets (BTCP, ETHP, USDP).
    Pegged,
    /// Fund shares.
    Ccq,
    /// Other native assets.
    Native,
}

#[derive(Debug)]
pub struct AssetDefinition {
    pub id: AssetId,
    pub asset_type: AssetType,
    pub decimals: u8,
    /// Total supply.
    pub supply: u64,
    /// Deploy, contract or external reference, if any.
    pub deploy_address: Option<String>,
    pub transferable: bool,
    pub gas_eligible: bool,
    /// The external asset a pegged asset stands for.
    pub peg: Option<&'static str>,
}

pub open spec fn opt_str(s: Option<String>) -> Option<Seq<char>> {
    match s {
        Some(t) => Some(t@),
        None => None,
    }
}

pub open spec fn opt_static(s: Option<&'static str>) -> Option<Seq<char>> {
    match s {
        Some(t) => Some(t@),
        None => None,
    }
}

/// An asset definition as plain values.
pub type DefinitionView = (Seq<char>, AssetType, u8, u64, Option<Seq<char>>, bool, bool, Option<Seq<char>>);

impl View for AssetDefinition {
    type V = DefinitionView;

    open spec fn view(&self) -> DefinitionView {
        (self.id@, self.asset_type, self.decimals, self.supply, opt_str(self.deploy_address), self.transferable,
            self.gas_eligible, opt_static(self.peg))
    }
}

impl Clone for AssetDefinition {
    fn clone(&self) -> (r: Self)
        ensures
            r@ == self@,
    {
        AssetDefinition {
            id: self.id.clone(),
            asset_type: self.asset_type,
            decimals: self.decimals,
            supply: self.supply,
            deploy_address: match &self.deploy_address {
                Some(d) => Some(d.clone()),
                None => None,
            },
            transferable: self.transferable,
            gas_eligible: self.gas_eligible,
            peg: self.peg,
        }
    }
}

/// The definition of a core asset, or of fund shares, by symbol.
pub open spec fn builtin_definition(id: Seq<char>) -> Option<DefinitionView> {
    if id == "PEP"@ {
        Some((id, AssetType::Index, 8u8, 0u64, None, true, true, None))
    } else if id == "BTCP"@ {
        Some((id, AssetType::Pegged, 8u8, 0u64, None, true, false, Some("BTC"@)))
    } else if id == "ETHP"@ {
        Some((id, AssetType::Pegged, 18u8, 0u64, None, true, false, Some("ETH"@)))
    } else if id == "USDP"@ {
        Some((id, AssetType::Pegged, 6u8, 0u64, None, true, false, Some("USDT"@)))
    } else if starts_with_spec(id, "CCQ:"@) {
        Some((id, AssetType::Ccq, 8u8, 0u64, None, true, false, None))
    } else {
        None
    }
}

pub open spec fn is_core(id: Seq<char>) -> bool {
    id == "PEP"@ || id == "BTCP"@ || id == "ETHP"@ || id == "USDP"@
}

/// The registered custom asset with this symbol, if any.
pub open spec fn custom_definition(custom: Seq<DefinitionView>, id: Seq<char>) -> Option<DefinitionView> {
    if exists|i: int| 0 <= i < custom.len() && custom[i].0 == id {
        Some(custom[choose|i: int| 0 <= i < custom.len() && custom[i].0 == id])
    } else {
        None
    }
}

/// The assets the chain knows: the core assets, fund shares, and custom assets
/// registered at run time.
pub struct AssetRegistry {
    custom: Vec<AssetDefinition>,
}

impl AssetRegistry {
    pub closed spec fn customs(&self) -> Seq<DefinitionView> {
        self.custom@.map_values(|d: AssetDefinition| d@)
    }

    /// No symbol is registered twice.
    pub closed spec fn wf(&self) -> bool {
        forall|i: int, j: int| 0 <= i < j < self.customs().len() ==> (#[trigger] self.customs()[i]).0 != (#[trigger] self.customs()[j]).0
    }

    /// What `get` answers for a symbol.
    pub open spec fn lookup(&self, id: Seq<char>) -> Option<DefinitionView> {
        match builtin_definition(id) {
            Some(d) => Some(d),
            None => custom_definition(self.customs(), id),
        }
    }

    pub fn new() -> (r: Self)
        ensures
            r.wf(),
            r.customs() == Seq::<DefinitionView>::empty(),
    {
        let r = AssetRegistry { custom: Vec::new() };
        assert(r.customs() =~= Seq::<DefinitionView>::empty());
        r
    }

    pub fn get(&self, asset: &AssetId) -> (r: Option<AssetDefinition>)
        requires
            self.wf(),
        ensures
            match r {
                Some(d) => self.lookup(asset@) == Some(d@),
                None => self.lookup(asset@) is None,
            },
    {
        let s = asset.as_str();
        proof {
            reveal_strlit("BTC");
            reveal_strlit("ETH");
            reveal_strlit("USDT");
        }
        if str_eq(s, PEP) {
            return Some(AssetDefinition {
                id: asset.clone(),
                asset_type: AssetType::Index,
                decimals: 8,
                supply: 0,
                deploy_address: None,
                transferable: true,
                gas_eligible: true,
                peg: None,
            });
        }
        if str_eq(s, BTCP) {
            return Some(AssetDefinition {
                id: asset.clone(),
                asset_type: AssetType::Pegged,
                decimals: 8,
                supply: 0,
                deploy_address: None,
                transferable: true,
                gas_eligible: false,
                peg: Some("BTC"),
            });
        }
        if str_eq(s, ETHP) {
            return Some(AssetDefinition {
                id: asset.clone(),
                asset_type: AssetType::Pegged,
                decimals: 18,
                supply: 0,
                deploy_address: None,
                transferable: true,
                gas_eligible: false,
                peg: Some("ETH"),
            });
        }
        if str_eq(s, USDP) {
            return Some(AssetDefinition {
                id: asset.clone(),
                asset_type: AssetType::Pegged,
                decimals: 6,
                supply: 0,
                deploy_address: None,
                transferable: true,
                gas_eligible: false,
                peg: Some("USDT"),
            });
        }
        if starts_with(s, "CCQ:") {
            return Some(AssetDefinition {
                id: asset.clone(),
                asset_type: AssetType::Ccq,
                decimals: 8,
                supply: 0,
                deploy_address: None,
                transferable: true,
                gas_eligible: false,
                peg: None,
            });
        }
        match self.find(asset) {
            Some(i) => Some(self.custom[i].clone()),
            None => None,
        }
    }

    fn find(&self, asset: &AssetId) -> (r: Option<usize>)
        requires
            self.wf(),
        ensures
            r is None <==> custom_definition(self.customs(), asset@) is None,
            r matches Some(i) ==> i < self.custom@.len() && custom_definition(self.customs(), asset@) == Some(self.customs()[i as int]),
    {
        let ghost c = self.customs();
        let mut i: usize = 0;
        while i < self.custom.len()
            invariant
                i <= self.custom@.len(),
                c == self.customs(),
                self.wf(),
                forall|k: int| 0 <= k < i ==> c[k].0 != asset@,
            decreases self.custom@.len() - i,
        {
            if self.custom[i].id.same_as(asset) {
                proof {
                    assert(c[i as int].0 == asset@);
                    let w = choose|k: int| 0 <= k < c.len() && c[k].0 == asset@;
                    assert(w == i) by {
                        if w != i as int {
                            if w < i {
                                assert(c[w].0 != asset@);
                            } else {
                                assert(c[i as int].0 != c[w].0);
                            }
                        }
                    }
                }
                return Some(i);
            }
            i += 1;
        }
        None
    }

    /// Registers a custom asset: not a core symbol, not blank, at most 38
    /// decimals, and not registered before.
    pub fn register(&mut self, definition: AssetDefinition) -> (r: Result<(), String>)
        requires
            old(self).wf(),
        ensures
            final(self).wf(),
            r is Ok <==> (!is_core(definition.id@) && trim_spec(definition.id@).len() > 0 && definition.decimals <= 38
                && custom_definition(old(self).customs(), definition.id@) is None),
            r is Ok ==> final(self).customs() == old(self).customs().push(definition@),
            r is Err ==> final(self).customs() == old(self).customs(),
    {
        let s = definition.id.as_str();
        if str_eq(s, PEP) || str_eq(s, BTCP) || str_eq(s, ETHP) || str_eq(s, USDP) {
            let mut m = "Cannot overwrite core asset: ".to_string();
            push_str(&mut m, s);
            return Err(m);
        }
        if trim(s).unicode_len() == 0 {
            return Err("Asset ID cannot be empty".to_string());
        }
        if definition.decimals > 38 {
            return Err("Asset decimals cannot exceed 38".to_string());
        }
        if self.find(&definition.id).is_some() {
            let mut m = "Asset already exists: ".to_string();
            push_str(&mut m, s);
            return Err(m);
        }
        let ghost before = self.customs();
        let ghost d = definition@;
        self.custom.push(definition);
        assert(self.customs() =~= before.push(d));
        proof {
            assert forall|i: int, j: int| 0 <= i < j < self.customs().len()
                implies (#[trigger] self.customs()[i]).0 != (#[trigger] self.customs()[j]).0 by {
                if j < before.len() {
                    assert(before[i].0 != before[j].0);
                } else {
                    assert(before[i].0 != d.0);
                }
            }
        }
        Ok(())
    }

    /// A native asset with eight decimals.
    pub fn create_native(id: AssetId, supply: u64, deploy_address: Option<String>) -> (r: AssetDefinition)
        ensures
            r@ == (id@, AssetType::Native, 8u8, supply, opt_str(deploy_address), true, false, None::<Seq<char>>),
    {
        AssetDefinition {
            id,
            asset_type: AssetType::Native,
            decimals: 8,
            supply,
            deploy_address,
            transferable: true,
            gas_eligible: false,
            peg: None,
        }
    }

    pub fn is_registered(&self, asset: &AssetId) -> (r: bool)
        requires
            self.wf(),
        ensures
            r == self.lookup(asset@) is Some,
    {
        self.get(asset).is_some()
    }

    /// The asset fees are paid in: PEP.
    pub fn gas_asset() -> (r: AssetId)
        ensures
            r@ == "PEP"@,
    {
        let r = AssetId(PEP.to_string());
        r
    }
}

impl Clone for AssetRegistry {
    fn clone(&self) -> (r: Self)
        ensures
            r.customs() == self.customs(),
            r.wf() == self.wf(),
    {
        let mut custom: Vec<AssetDefinition> = Vec::new();
        let mut i: usize = 0;
        while i < self.custom.len()
            invariant
                i <= self.custom@.len(),
                custom@.map_values(|d: AssetDefinition| d@) == self.customs().take(i as int),
            decreases self.custom@.len() - i,
        {
            let d = self.custom[i].clone();
            let ghost before = custom@;
            custom.push(d);
            assert(custom@.map_values(|d: AssetDefinition| d@) =~= before.map_values(|d: AssetDefinition| d@).push(d@));
            assert(self.customs().take(i + 1) =~= self.customs().take(i as int).push(self.customs()[i as int]));
            i += 1;
        }
        assert(self.customs().take(self.custom@.len() as int) =~= self.customs());
        AssetRegistry { custom }
    }
}

impl Default for AssetRegistry {
    fn default() -> (r: Self)
        ensures
            r.wf(),
            r.customs() == Seq::<DefinitionView>::empty(),
    {
        Self::new()
    }
}

/// The core symbols are already in upper case.
pub proof fn lemma_core_upper(s: Seq<char>)
    requires
        s == "PEP"@ || s == "BTCP"@ || s == "ETHP"@ || s == "USDP"@,
    ensures
        crate::text::is_ascii_text(s),
        crate::text::ascii_upper(s) == s,
{
    reveal_strlit("PEP");
    reveal_strlit("BTCP");
    reveal_strlit("ETHP");
    reveal_strlit("USDP");
    assert(crate::text::is_ascii_text(s));
    assert(crate::text::ascii_upper(s) =~= s);
}

} // verus!
