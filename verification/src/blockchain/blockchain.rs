//! The chain: its blocks and the state they lead to. New transactions and
//! blocks from peers are executed against a copy of the state, which
//! replaces the state only when every transaction goes through.
use vstd::prelude::*;
use crate::blockchain::block::{consistent, Block, BlockView};
use crate::blockchain::block_header::header_hash;
use crate::blockchain::consensus::difficulty::{block_views, next_bits_spec, schedule_defined, Difficulty};
use crate::blockchain::consensus::pow::{meets, PoW};
use crate::blockchain::executor::{executable, step_ok, step_succeeds, Executor};
use crate::blockchain::genesis::{genesis_block, genesis_transactions, Genesis};
use crate::blockchain::asset::DefinitionView;
use crate::blockchain::state::{core_definitions, lemma_height_apart, AccountView, State, StateError};
use crate::blockchain::transaction::{tx_views, Transaction, TxView};
use crate::clock::now_secs;
use crate::text::push_str;

verus! {

/// The state holds these accounts and these asset definitions.
pub open spec fn at(s: State, accounts: Map<Seq<char>, AccountView>, defs: Seq<DefinitionView>) -> bool {
    s.view() == accounts && s.definitions() == defs
}

/// `states` is a run of the transactions: each goes through from the state
/// before it and leads to the state after it.
pub open spec fn run_ok(states: Seq<State>, txs: Seq<TxView>) -> bool {
    &&& states.len() == txs.len() + 1
    &&& forall|i: int| 0 <= i < txs.len() ==> step_succeeds(#[trigger] states[i], txs[i]) && step_ok(states[i], states[i + 1], txs[i])
}

/// From the accounts and assets `(a0, d0)` the transactions all go
/// through, one after another, and end at `(a1, d1)`.
pub open spec fn runs(
    a0: Map<Seq<char>, AccountView>,
    d0: Seq<DefinitionView>,
    txs: Seq<TxView>,
    a1: Map<Seq<char>, AccountView>,
    d1: Seq<DefinitionView>,
) -> bool {
    exists|states: Seq<State>| #[trigger] run_ok(states, txs) && at(states[0], a0, d0) && at(states.last(), a1, d1)
}

/// From the accounts and assets `(a0, d0)` some transaction does not go
/// through after the ones before it did.
pub open spec fn fails(a0: Map<Seq<char>, AccountView>, d0: Seq<DefinitionView>, txs: Seq<TxView>) -> bool {
    exists|states: Seq<State>, k: int|
        0 <= k < txs.len() && #[trigger] run_ok(states, txs.take(k)) && at(states[0], a0, d0) && !step_succeeds(states[k], txs[k])
}

/// The message a failed block execution is refused with.
pub open spec fn execution_failure_text(e: StateError) -> Seq<char> {
    "Block transaction execution failed: "@ + match e {
        StateError::AccountNotFound => "AccountNotFound"@,
        StateError::AssetNotFound => "AssetNotFound"@,
        StateError::AssetAlreadyExists => "AssetAlreadyExists"@,
        StateError::InsufficientBalance => "InsufficientBalance"@,
        StateError::Overflow => "Overflow"@,
    }
}

fn execution_failure(e: StateError) -> (r: String)
    ensures
        r@ == execution_failure_text(e),
{
    let mut r = "Block transaction execution failed: ".to_string();
    let name = match e {
        StateError::AccountNotFound => "AccountNotFound",
        StateError::AssetNotFound => "AssetNotFound",
        StateError::AssetAlreadyExists => "AssetAlreadyExists",
        StateError::InsufficientBalance => "InsufficientBalance",
        StateError::Overflow => "Overflow",
    };
    push_str(&mut r, name);
    r
}

pub struct Blockchain {
    pub blocks: Vec<Block>,
    pub state: State,
}

impl Blockchain {
    pub open spec fn wf(&self) -> bool {
        self.state.wf()
    }

    pub open spec fn chain(&self) -> Seq<BlockView> {
        block_views(self.blocks@)
    }

    /// A new chain: the genesis block, and the state its mints lead to, at
    /// height zero.
    pub fn new() -> (r: Self)
        ensures
            r.wf(),
            r.chain() == seq![genesis_block()],
            r.state.height == 0,
            runs(Map::empty(), core_definitions(), genesis_transactions(), r.state.view(), r.state.definitions()),
    {
        let genesis = Genesis::block();
        let mut state = State::new();
        let ghost start = state;
        assert(start.view() == Map::<Seq<char>, AccountView>::empty());
        let ghost txs = tx_views(genesis.transactions@);
        let ghost mut states: Seq<State> = seq![state];
        let mut i: usize = 0;
        while i < genesis.transactions.len()
            invariant
                0 <= i <= genesis.transactions@.len(),
                genesis.transactions@.len() == 4,
                txs == tx_views(genesis.transactions@),
                txs == genesis_transactions(),
                state.wf(),
                state.definitions() == start.definitions(),
                state.height == 0,
                start.definitions()[0].0 == "PEP"@,
                start.definitions().len() == 4,
                forall|a: Seq<char>, s: Seq<char>| #[trigger] state.balance_of(a, s) <= 1_000_000_000 * i,
                states.len() == i + 1,
                at(states[0], Map::empty(), core_definitions()),
                states.last() == state,
                run_ok(states, txs.take(i as int)),
            decreases genesis.transactions@.len() - i,
        {
            let ghost before = state;
            let tx = &genesis.transactions[i];
            assert(tx@ == txs[i as int]);
            assert(state.knows_asset(tx.asset@)) by {
                assert(state.definitions()[0].0 == tx.asset@);
            }
            assert(tx.amount <= 1_000_000_000);
            assert(state.balance_of(tx.to@, tx.asset@) <= 1_000_000_000 * i);
            match Executor::execute(&mut state, tx) {
                Ok(()) => {},
                Err(_) => {
                    assert(false);
                },
            }
            proof {
                assert forall|a: Seq<char>, s: Seq<char>| #[trigger] state.balance_of(a, s) <= 1_000_000_000 * (i + 1) by {
                    assert(before.balance_of(a, s) <= 1_000_000_000 * i);
                }
                let ghost prev = states;
                states = states.push(state);
                assert(txs.take(i + 1).take(i as int) =~= txs.take(i as int));
                assert forall|j: int| 0 <= j < i + 1 implies step_succeeds(#[trigger] states[j], txs.take(i + 1)[j])
                    && step_ok(states[j], states[j + 1], txs.take(i + 1)[j]) by {
                    if j < i {
                        assert(prev[j] == states[j] && prev[j + 1] == states[j + 1]);
                        assert(txs.take(i as int)[j] == txs.take(i + 1)[j]);
                    }
                }
            }
            i += 1;
        }
        assert(txs.take(4) =~= txs);
        let ghost ran = state;
        state.height = 0;
        proof {
            lemma_height_apart(ran, state);
            assert(run_ok(states, txs));
            assert(at(states[0], Map::empty(), core_definitions()));
            assert(at(states.last(), state.view(), state.definitions()));
        }
        let mut blocks: Vec<Block> = Vec::new();
        blocks.push(genesis);
        let r = Blockchain { blocks, state };
        assert(r.chain() =~= seq![genesis_block()]);
        r
    }

    /// A chain over a given state: the stored blocks when there are some
    /// (`stored`, as the chain store loaded them), else the genesis block.
    pub fn from_state(state: State, stored: Option<Vec<Block>>) -> (r: Self)
        ensures
            r.state == state,
            stored matches Some(b) ==> r.chain() == block_views(b@),
            stored is None ==> r.chain() == seq![genesis_block()],
    {
        let blocks = match stored {
            Some(b) => b,
            None => {
                let mut b: Vec<Block> = Vec::new();
                b.push(Genesis::block());
                assert(block_views(b@) =~= seq![genesis_block()]);
                b
            },
        };
        Blockchain { blocks, state }
    }

    /// The height of the tip: one less than the number of blocks (zero when
    /// there is none).
    pub fn height(&self) -> (r: u64)
        ensures
            r == if self.blocks@.len() == 0 { 0 } else { self.blocks@.len() - 1 },
    {
        self.blocks.len().saturating_sub(1) as u64
    }

    pub fn tip(&self) -> (r: Option<&Block>)
        ensures
            self.blocks@.len() == 0 ==> r is None,
            self.blocks@.len() > 0 ==> (r matches Some(b) && b@ == self.chain().last()),
    {
        if self.blocks.len() == 0 {
            None
        } else {
            Some(&self.blocks[self.blocks.len() - 1])
        }
    }

    /// Executes the transactions in turn on a copy of the state.
    fn run_all(state: &State, txs: &Vec<Transaction>) -> (r: Result<State, StateError>)
        requires
            state.wf(),
            forall|i: int| 0 <= i < txs@.len() ==> executable(#[trigger] txs@[i].transaction_type),
        ensures
            r matches Ok(c) ==> c.wf() && c.height == state.height
                && runs(state.view(), state.definitions(), tx_views(txs@), c.view(), c.definitions()),
            r is Err ==> fails(state.view(), state.definitions(), tx_views(txs@)),
    {
        let mut candidate = state.clone();
        let ghost tv = tx_views(txs@);
        let ghost mut states: Seq<State> = seq![candidate];
        let mut i: usize = 0;
        while i < txs.len()
            invariant
                0 <= i <= txs@.len(),
                tv == tx_views(txs@),
                forall|j: int| 0 <= j < txs@.len() ==> executable(#[trigger] txs@[j].transaction_type),
                candidate.wf(),
                candidate.height == state.height,
                states.len() == i + 1,
                at(states[0], state.view(), state.definitions()),
                states.last() == candidate,
                run_ok(states, tv.take(i as int)),
            decreases txs@.len() - i,
        {
            let ghost before = candidate;
            assert(txs@[i as int]@ == tv[i as int]);
            match Executor::execute(&mut candidate, &txs[i]) {
                Ok(()) => {},
                Err(e) => {
                    proof {
                        assert(!step_succeeds(states[i as int], tv[i as int]));
                        assert(fails(state.view(), state.definitions(), tv));
                    }
                    return Err(e);
                },
            }
            proof {
                let ghost prev = states;
                states = states.push(candidate);
                assert(tv.take(i + 1).take(i as int) =~= tv.take(i as int));
                assert forall|j: int| 0 <= j < i + 1 implies step_succeeds(#[trigger] states[j], tv.take(i + 1)[j])
                    && step_ok(states[j], states[j + 1], tv.take(i + 1)[j]) by {
                    if j < i {
                        assert(prev[j] == states[j] && prev[j + 1] == states[j + 1]);
                        assert(tv.take(i as int)[j] == tv.take(i + 1)[j]);
                    }
                }
            }
            i += 1;
        }
        proof {
            assert(tv.take(txs@.len() as int) =~= tv);
            assert(run_ok(states, tv));
        }
        Ok(candidate)
    }

    /// Executes one transaction in a block of its own.
    pub fn execute_transaction(&mut self, tx: Transaction) -> (r: Result<(), StateError>)
        requires
            old(self).wf(),
            executable(tx.transaction_type),
            old(self).blocks@.len() >= 1,
            schedule_defined(old(self).chain()),
        ensures
            final(self).wf(),
            r is Err ==> final(self).state == old(self).state && final(self).blocks@ == old(self).blocks@
                && fails(old(self).state.view(), old(self).state.definitions(), seq![tx@]),
            r is Ok ==> {
                &&& runs(old(self).state.view(), old(self).state.definitions(), seq![tx@], final(self).state.view(),
                    final(self).state.definitions())
                &&& final(self).state.height == if old(self).state.height == u64::MAX { u64::MAX } else { (old(self).state.height + 1) as u64 }
                &&& final(self).chain().len() == old(self).chain().len() + 1
                &&& final(self).chain().drop_last() == old(self).chain()
                &&& mined_on(old(self).chain(), seq![tx@], final(self).chain().last())
            },
    {
        let ghost t = tx@;
        let mut txs: Vec<Transaction> = Vec::new();
        txs.push(tx);
        assert(tx_views(txs@) =~= seq![t]);
        self.execute_transactions(txs)
    }

    /// Executes the transactions against a copy of the state. When all go
    /// through, the copy, one block higher, becomes the state and a block
    /// of them is mined on the tip; when one fails, nothing changes. No
    /// transaction, nothing done.
    pub fn execute_transactions(&mut self, txs: Vec<Transaction>) -> (r: Result<(), StateError>)
        requires
            old(self).wf(),
            forall|i: int| 0 <= i < txs@.len() ==> executable(#[trigger] txs@[i].transaction_type),
            txs@.len() > 0 ==> old(self).blocks@.len() >= 1 && schedule_defined(old(self).chain()),
        ensures
            final(self).wf(),
            txs@.len() == 0 ==> r is Ok && final(self).state == old(self).state && final(self).blocks@ == old(self).blocks@,
            r is Err ==> final(self).state == old(self).state && final(self).blocks@ == old(self).blocks@
                && fails(old(self).state.view(), old(self).state.definitions(), tx_views(txs@)),
            r is Ok ==> !fails(old(self).state.view(), old(self).state.definitions(), tx_views(txs@)),
            r is Ok && txs@.len() > 0 ==> {
                &&& runs(old(self).state.view(), old(self).state.definitions(), tx_views(txs@), final(self).state.view(),
                    final(self).state.definitions())
                &&& final(self).state.height == if old(self).state.height == u64::MAX { u64::MAX } else { (old(self).state.height + 1) as u64 }
                &&& final(self).chain().len() == old(self).chain().len() + 1
                &&& final(self).chain().drop_last() == old(self).chain()
                &&& mined_on(old(self).chain(), tx_views(txs@), final(self).chain().last())
            },
    {
        if txs.len() == 0 {
            return Ok(());
        }
        let mut candidate = match Blockchain::run_all(&self.state, &txs) {
            Ok(c) => c,
            Err(e) => return Err(e),
        };
        let ghost ran = candidate;
        candidate.height = candidate.height.saturating_add(1);
        proof {
            lemma_height_apart(ran, candidate);
        }
        self.state = candidate;
        let ghost views = tx_views(txs@);
        self.create_block(txs);
        proof {
            lemma_runs_excludes_fails(old(self).state.view(), old(self).state.definitions(), views,
                self.state.view(), self.state.definitions());
        }
        Ok(())
    }

    /// Mines a block of the (already executed) transactions on the tip and
    /// appends it.
    pub fn create_block(&mut self, transactions: Vec<Transaction>)
        requires
            old(self).blocks@.len() >= 1,
            schedule_defined(old(self).chain()),
        ensures
            final(self).state == old(self).state,
            final(self).chain().len() == old(self).chain().len() + 1,
            final(self).chain().drop_last() == old(self).chain(),
            mined_on(old(self).chain(), tx_views(transactions@), final(self).chain().last()),
    {
        let n = self.blocks.len();
        let ghost c = self.chain();
        assert(c.last() == self.blocks@[n - 1]@);
        let previous_hash = self.blocks[n - 1].hash();
        let bits = Difficulty::next_bits(self.blocks.as_slice());
        let timestamp = now_secs();
        let mut block = Block::new(previous_hash, timestamp, bits, transactions);
        let pow = PoW::new(bits);
        pow.mine(&mut block);
        self.commit_block(block);
        assert(self.chain().drop_last() =~= c);
    }

    /// Appends a block to the chain.
    pub fn commit_block(&mut self, block: Block)
        ensures
            final(self).state == old(self).state,
            final(self).chain() == old(self).chain().push(block@),
    {
        let ghost b = block@;
        self.blocks.push(block);
        assert(self.chain() =~= old(self).chain().push(b));
    }

    /// The checks a block from a peer must pass before its transactions run.
    fn check_extends(&self, block: &Block) -> (r: Result<(), String>)
        ensures
            r is Ok <==> extends(self.chain(), block@),
            self.blocks@.len() == 0 ==> (r matches Err(m) && m@ == "Blockchain has no genesis block."@),
            self.blocks@.len() > 0 && block@.0.1 != header_hash(self.chain().last().0)
                ==> (r matches Err(m) && m@ == "Invalid previous block hash."@),
            self.blocks@.len() > 0 && block@.0.1 == header_hash(self.chain().last().0)
                && !meets(header_hash(block@.0), block@.0.4) ==> (r matches Err(m) && m@ == "Invalid proof of work."@),
    {
        let n = self.blocks.len();
        if n == 0 {
            return Err("Blockchain has no genesis block.".to_string());
        }
        assert(self.chain().last() == self.blocks@[n - 1]@);
        if !block.header.previous_hash.same_as(&self.blocks[n - 1].hash()) {
            return Err("Invalid previous block hash.".to_string());
        }
        let calculated_hash = block.calculate_hash();
        let actual_hash = block.hash();
        if !actual_hash.same_as(&calculated_hash) {
            return Err("Invalid block hash.".to_string());
        }
        let pow = PoW::new(block.header.bits);
        if !pow.verify_hash(&actual_hash) {
            return Err("Invalid proof of work.".to_string());
        }
        Ok(())
    }

    /// Accepts a block from a peer: it must extend the tip, meet its own
    /// proof of work, and all its transactions must go through against a
    /// copy of the state; only then do the state (one block higher) and the
    /// chain change.
    pub fn validate_and_add_block(&mut self, block: Block) -> (r: Result<(), String>)
        requires
            old(self).wf(),
            forall|i: int| 0 <= i < block.transactions@.len() ==> executable(#[trigger] block.transactions@[i].transaction_type),
        ensures
            final(self).wf(),
            r is Err ==> final(self).state == old(self).state && final(self).blocks@ == old(self).blocks@,
            old(self).blocks@.len() == 0 ==> (r matches Err(m) && m@ == "Blockchain has no genesis block."@),
            old(self).blocks@.len() > 0 && block@.0.1 != header_hash(old(self).chain().last().0)
                ==> (r matches Err(m) && m@ == "Invalid previous block hash."@),
            old(self).blocks@.len() > 0 && block@.0.1 == header_hash(old(self).chain().last().0)
                && !meets(header_hash(block@.0), block@.0.4) ==> (r matches Err(m) && m@ == "Invalid proof of work."@),
            extends(old(self).chain(), block@) && r is Err ==> (r matches Err(m) && (exists|e: StateError| m@ == execution_failure_text(e))
                && fails(old(self).state.view(), old(self).state.definitions(), block@.1)),
            r is Ok ==> {
                &&& extends(old(self).chain(), block@)
                &&& runs(old(self).state.view(), old(self).state.definitions(), block@.1, final(self).state.view(),
                    final(self).state.definitions())
                &&& final(self).state.height == if old(self).state.height == u64::MAX { u64::MAX } else { (old(self).state.height + 1) as u64 }
                &&& final(self).chain() == old(self).chain().push(block@)
            },
            r is Ok && chain_valid(old(self).chain()) ==> chain_valid(final(self).chain()),
            r is Ok <==> extends(old(self).chain(), block@)
                && !fails(old(self).state.view(), old(self).state.definitions(), block@.1),
    {
        match self.check_extends(&block) {
            Ok(()) => {},
            Err(m) => return Err(m),
        }
        let ghost c = self.chain();
        let ghost b = block@;
        let mut candidate = match Blockchain::run_all(&self.state, &block.transactions) {
            Ok(c) => c,
            Err(e) => return Err(execution_failure(e)),
        };
        let ghost ran = candidate;
        candidate.height = candidate.height.saturating_add(1);
        proof {
            lemma_height_apart(ran, candidate);
        }
        self.state = candidate;
        self.commit_block(block);
        proof {
            if chain_valid(c) {
                lemma_extend_valid(c, b);
            }
            lemma_runs_excludes_fails(old(self).state.view(), old(self).state.definitions(), b.1,
                self.state.view(), self.state.definitions());
        }
        Ok(())
    }

    /// Appends a block without any check.
    pub fn add_block(&mut self, block: Block)
        ensures
            final(self).state == old(self).state,
            final(self).chain() == old(self).chain().push(block@),
    {
        self.commit_block(block);
    }

    /// Whether the chain is not empty and each block after the first names
    /// the hash of the one before it and meets its own proof of work.
    pub fn is_valid(&self) -> (r: bool)
        ensures
            r == chain_valid(self.chain()),
    {
        if self.blocks.len() == 0 {
            return false;
        }
        let ghost c = self.chain();
        let mut i: usize = 1;
        while i < self.blocks.len()
            invariant
                1 <= i <= self.blocks@.len(),
                c == self.chain(),
                forall|j: int| 1 <= j < i ==> linked(#[trigger] c[j - 1], c[j]),
            decreases self.blocks@.len() - i,
        {
            let previous = &self.blocks[i - 1];
            let current = &self.blocks[i];
            assert(c[i - 1] == previous@ && c[i as int] == current@);
            if !current.header.previous_hash.same_as(&previous.hash()) {
                return false;
            }
            if !current.hash().same_as(&current.calculate_hash()) {
                return false;
            }
            let pow = PoW::new(current.header.bits);
            if !pow.verify_hash(&current.hash()) {
                return false;
            }
            i += 1;
        }
        true
    }
}

/// `b` follows `a`: it names `a`'s header hash, and its own header hash
/// meets its bits.
pub open spec fn linked(a: BlockView, b: BlockView) -> bool {
    b.0.1 == header_hash(a.0) && meets(header_hash(b.0), b.0.4)
}

/// A valid chain: not empty, each block after the first following the one
/// before it.
pub open spec fn chain_valid(c: Seq<BlockView>) -> bool {
    c.len() > 0 && forall|j: int| 1 <= j < c.len() ==> linked(#[trigger] c[j - 1], c[j])
}

/// The block can go on top of the chain: the chain has a tip, the block
/// names its hash and meets its own proof of work.
pub open spec fn extends(c: Seq<BlockView>, b: BlockView) -> bool {
    c.len() > 0 && linked(c.last(), b)
}

/// `b` is a block of `txs` mined on top of `c`: version one, naming the
/// tip's hash, committing to the transactions, with the scheduled bits, and
/// the first nonce that meets them (when some nonce does).
pub open spec fn mined_on(c: Seq<BlockView>, txs: Seq<TxView>, b: BlockView) -> bool {
    &&& b.1 == txs
    &&& b.0.0 == 1
    &&& b.0.1 == header_hash(c.last().0)
    &&& consistent(b)
    &&& b.0.4 == next_bits_spec(c)
    &&& (meets(header_hash(b.0), b.0.4) && forall|n: u64| n < b.0.5 ==> !#[trigger] meets(
        header_hash((b.0.0, b.0.1, b.0.2, b.0.3, b.0.4, n)), b.0.4))
        || (forall|n: u64| !#[trigger] meets(header_hash((b.0.0, b.0.1, b.0.2, b.0.3, b.0.4, n)), b.0.4))
}

/// A block that extends a valid chain leaves it valid.
pub proof fn lemma_extend_valid(c: Seq<BlockView>, b: BlockView)
    requires
        chain_valid(c),
        extends(c, b),
    ensures
        chain_valid(c.push(b)),
{
    let d = c.push(b);
    assert forall|j: int| 1 <= j < d.len() implies linked(#[trigger] d[j - 1], d[j]) by {
        if j < c.len() {
            assert(d[j - 1] == c[j - 1] && d[j] == c[j]);
        } else {
            assert(d[j - 1] == c.last());
        }
    }
}

/// Two states agree on everything a transaction reads and writes: the asset
/// definitions, which accounts exist, and every balance.
pub open spec fn observed_alike(s1: State, s2: State) -> bool {
    &&& s1.definitions() == s2.definitions()
    &&& forall|a: Seq<char>| #[trigger] s1.view().contains_key(a) == s2.view().contains_key(a)
    &&& forall|a: Seq<char>, x: Seq<char>| #[trigger] s1.balance_of(a, x) == s2.balance_of(a, x)
}

/// A transaction goes through from both or from neither of two alike
/// states, and where it goes through it leaves them alike.
proof fn lemma_step_alike(s1: State, s2: State, n1: State, n2: State, t: TxView)
    requires
        observed_alike(s1, s2),
    ensures
        step_succeeds(s1, t) == step_succeeds(s2, t),
        step_ok(s1, n1, t) && step_ok(s2, n2, t) ==> observed_alike(n1, n2),
{
    assert(s1.knows_asset(t.3) == s2.knows_asset(t.3));
    if step_ok(s1, n1, t) && step_ok(s2, n2, t) {
        assert forall|a: Seq<char>, x: Seq<char>| #[trigger] n1.balance_of(a, x) == n2.balance_of(a, x) by {
            assert(s1.balance_of(a, x) == s2.balance_of(a, x));
            assert(s1.balance_of(t.1, x) == s2.balance_of(t.1, x));
            assert(s1.balance_of(t.2, x) == s2.balance_of(t.2, x));
        }
        assert forall|a: Seq<char>| #[trigger] n1.view().contains_key(a) == n2.view().contains_key(a) by {
            assert(s1.view().contains_key(a) == s2.view().contains_key(a));
        }
    }
}

/// Two runs of the same transactions from alike states stay alike.
proof fn lemma_runs_alike(st1: Seq<State>, st2: Seq<State>, txs: Seq<TxView>, k: int)
    requires
        0 <= k < st1.len(),
        k < st2.len(),
        k <= txs.len(),
        forall|i: int| 0 <= i < k ==> #[trigger] step_ok(st1[i], st1[i + 1], txs[i]),
        forall|i: int| 0 <= i < k ==> #[trigger] step_ok(st2[i], st2[i + 1], txs[i]),
        observed_alike(st1[0], st2[0]),
    ensures
        observed_alike(st1[k], st2[k]),
    decreases k,
{
    if k > 0 {
        lemma_runs_alike(st1, st2, txs, k - 1);
        assert(step_ok(st1[k - 1], st1[k - 1 + 1], txs[k - 1]));
        assert(step_ok(st2[k - 1], st2[k - 1 + 1], txs[k - 1]));
        lemma_step_alike(st1[k - 1], st2[k - 1], st1[k], st2[k], txs[k - 1]);
    }
}

/// From one state a list of transactions either all go through or one of
/// them fails, never both.
pub proof fn lemma_runs_excludes_fails(
    a0: Map<Seq<char>, AccountView>,
    d0: Seq<DefinitionView>,
    txs: Seq<TxView>,
    a1: Map<Seq<char>, AccountView>,
    d1: Seq<DefinitionView>,
)
    requires
        runs(a0, d0, txs, a1, d1),
    ensures
        !fails(a0, d0, txs),
{
    let st1 = choose|states: Seq<State>| #[trigger] run_ok(states, txs) && at(states[0], a0, d0) && at(states.last(), a1, d1);
    if fails(a0, d0, txs) {
        let (st2, k) = choose|states: Seq<State>, k: int|
            0 <= k < txs.len() && #[trigger] run_ok(states, txs.take(k)) && at(states[0], a0, d0) && !step_succeeds(states[k], txs[k]);
        assert forall|i: int| 0 <= i < k implies #[trigger] step_ok(st2[i], st2[i + 1], txs[i]) by {
            assert(txs.take(k)[i] == txs[i]);
            assert(step_succeeds(st2[i], txs.take(k)[i]) && step_ok(st2[i], st2[i + 1], txs.take(k)[i]));
        }
        assert forall|i: int| 0 <= i < k implies #[trigger] step_ok(st1[i], st1[i + 1], txs[i]) by {
            assert(step_succeeds(st1[i], txs[i]) && step_ok(st1[i], st1[i + 1], txs[i]));
        }
        lemma_runs_alike(st1, st2, txs, k);
        assert(step_succeeds(st1[k], txs[k]));
        lemma_step_alike(st1[k], st2[k], st1[k], st2[k], txs[k]);
    }
}

} // verus!