//! A node: the chain and the transactions waiting for a block. Transactions
//! are checked before they wait; blocks from peers go through the chain's
//! own validation.
use vstd::prelude::*;
use crate::blockchain::admission::{verdict, Verifier};
use crate::blockchain::block::Block;
use crate::blockchain::blockchain::{chain_valid, extends, fails, mined_on, runs, Blockchain};
use crate::blockchain::consensus::difficulty::schedule_defined;
use crate::blockchain::executor::executable;
use crate::blockchain::block_header::header_hash;
use crate::text::hex_encode_spec;
use crate::blockchain::mempool::Mempool;
use crate::blockchain::state::{listed, lists_nonzero, StateError};
use crate::blockchain::transaction::{Transaction, TxView};
use crate::wallet::Address;

verus! {

/// Transactions per block: a block is mined as soon as one waits.
pub const BLOCK_SIZE: usize = 1;

pub struct Node {
    blockchain: Blockchain,
    mempool: Mempool,
}

impl Node {
    pub closed spec fn chain_of(&self) -> Blockchain {
        self.blockchain
    }

    pub closed spec fn waiting(&self) -> Seq<TxView> {
        self.mempool@
    }

    /// The chain's state is well formed and every waiting transaction is one
    /// the executor applies.
    pub closed spec fn wf(&self) -> bool {
        &&& self.blockchain.wf()
        &&& forall|i: int| 0 <= i < self.mempool@.len() ==> executable((#[trigger] self.mempool@[i]).0)
    }

    /// A node over a chain (as loaded), with nothing waiting.
    pub fn new(blockchain: Blockchain) -> (r: Self)
        requires
            blockchain.wf(),
        ensures
            r.wf(),
            r.chain_of() == blockchain,
            r.waiting() == Seq::<TxView>::empty(),
    {
        Node { blockchain, mempool: Mempool::new() }
    }

    pub fn blockchain(&self) -> (r: &Blockchain)
        ensures
            *r == self.chain_of(),
    {
        &self.blockchain
    }

    pub fn blockchain_mut(&mut self) -> (r: &mut Blockchain)
        ensures
            *r == old(self).chain_of(),
            final(self).chain_of() == *final(r),
            final(self).waiting() == old(self).waiting(),
    {
        &mut self.blockchain
    }

    /// The tip's height: one less than the number of blocks.
    pub fn height(&self) -> (r: usize)
        ensures
            r == if self.chain_of().blocks@.len() == 0 { 0 } else { self.chain_of().blocks@.len() - 1 },
    {
        self.blockchain.blocks.len().saturating_sub(1)
    }

    /// The tip's hash as hex text, or "0" without a block.
    pub fn tip_hash(&self) -> (r: String)
        ensures
            self.chain_of().blocks@.len() == 0 ==> r@ == "0"@,
            self.chain_of().blocks@.len() > 0 ==> r@ == hex_encode_spec(header_hash(self.chain_of().chain().last().0)),
    {
        let n = self.blockchain.blocks.len();
        if n == 0 {
            return "0".to_string();
        }
        assert(self.chain_of().chain().last() == self.blockchain.blocks@[n - 1]@);
        self.blockchain.blocks[n - 1].hash().to_hex()
    }

    /// An address's non-zero balances (ordered by asset symbol), nonce and
    /// stake; nothing and zeros without an account.
    pub fn get_balance(&self, address: &Address) -> (r: (Vec<(String, u64)>, u64, u64))
        requires
            self.wf(),
        ensures
            !self.chain_of().state.view().contains_key(address@) ==> r.0@.len() == 0 && r.1 == 0 && r.2 == 0,
            self.chain_of().state.view().contains_key(address@) ==> {
                &&& lists_nonzero(self.chain_of().state.view()[address@].0, listed(r.0@))
                &&& r.1 == self.chain_of().state.view()[address@].1
                &&& r.2 == self.chain_of().state.view()[address@].2
            },
    {
        match self.blockchain.state.get_account(address) {
            Some(account) => (account.sorted_balances(), account.nonce, account.stake),
            None => (Vec::new(), 0, 0),
        }
    }

    /// Takes a transaction from a wallet or a peer. One that fails the
    /// admission checks (given the address of its key, `derived`, and
    /// whether its signature verifies) is dropped and the answer is `Ok`;
    /// one that passes waits, and a block is mined once `BLOCK_SIZE` wait.
    pub fn on_transaction(&mut self, tx: Transaction, derived: &Address, signature_valid: bool) -> (r: Result<(), StateError>)
        requires
            old(self).wf(),
            executable(tx.transaction_type),
            old(self).chain_of().blocks@.len() >= 1,
            schedule_defined(old(self).chain_of().chain()),
        ensures
            final(self).wf(),
            verdict(old(self).chain_of().state, tx@, derived@, signature_valid) is Err ==> r is Ok
                && final(self).chain_of() == old(self).chain_of() && final(self).waiting() == old(self).waiting(),
            verdict(old(self).chain_of().state, tx@, derived@, signature_valid) is Ok ==> {
                &&& final(self).waiting() == Seq::<TxView>::empty()
                &&& mined_pending(old(self).chain_of(), old(self).waiting().push(tx@), final(self).chain_of(), r)
            },
    {
        match Verifier::verify(&self.blockchain.state, &tx, derived, signature_valid) {
            Ok(()) => {},
            Err(_) => return Ok(()),
        }
        self.mempool.add_transaction(tx);
        if self.mempool.len() >= BLOCK_SIZE {
            return self.mine_pending();
        }
        Ok(())
    }

    /// Takes a block from a peer through the chain's validation.
    pub fn accept_block(&mut self, block: Block) -> (r: Result<(), String>)
        requires
            old(self).wf(),
            forall|i: int| 0 <= i < block.transactions@.len() ==> executable(#[trigger] block.transactions@[i].transaction_type),
        ensures
            final(self).wf(),
            final(self).waiting() == old(self).waiting(),
            r is Err ==> final(self).chain_of().state == old(self).chain_of().state
                && final(self).chain_of().blocks@ == old(self).chain_of().blocks@,
            r is Ok ==> {
                &&& extends(old(self).chain_of().chain(), block@)
                &&& runs(old(self).chain_of().state.view(), old(self).chain_of().state.definitions(), block@.1,
                    final(self).chain_of().state.view(), final(self).chain_of().state.definitions())
                &&& final(self).chain_of().chain() == old(self).chain_of().chain().push(block@)
            },
            r is Ok && chain_valid(old(self).chain_of().chain()) ==> chain_valid(final(self).chain_of().chain()),
    {
        self.blockchain.validate_and_add_block(block)
    }

    /// Executes everything waiting as one block; the waiting list is emptied
    /// whether or not it goes through.
    pub fn mine_pending(&mut self) -> (r: Result<(), StateError>)
        requires
            old(self).wf(),
            old(self).waiting().len() > 0 ==> old(self).chain_of().blocks@.len() >= 1
                && schedule_defined(old(self).chain_of().chain()),
        ensures
            final(self).wf(),
            final(self).waiting() == Seq::<TxView>::empty(),
            mined_pending(old(self).chain_of(), old(self).waiting(), final(self).chain_of(), r),
    {
        if self.mempool.len() == 0 {
            return Ok(());
        }
        let txs = self.mempool.take_all();
        assert forall|i: int| 0 <= i < txs@.len() implies executable(#[trigger] txs@[i].transaction_type) by {
            assert(crate::blockchain::transaction::tx_views(txs@)[i] == txs@[i]@);
        }
        self.blockchain.execute_transactions(txs)
    }

    pub fn mempool_len(&self) -> (r: usize)
        ensures
            r == self.waiting().len(),
    {
        self.mempool.len()
    }
}

/// What mining the waiting transactions `txs` did to the chain: nothing when
/// there were none or one failed (the answer then being the failure),
/// else a block of them on the tip and the state they lead to.
pub open spec fn mined_pending(before: Blockchain, txs: Seq<TxView>, after: Blockchain, r: Result<(), StateError>) -> bool {
    &&& txs.len() == 0 ==> r is Ok && after == before
    &&& r is Err ==> after.state == before.state && after.blocks@ == before.blocks@
        && fails(before.state.view(), before.state.definitions(), txs)
    &&& r is Ok && txs.len() > 0 ==> {
        &&& runs(before.state.view(), before.state.definitions(), txs, after.state.view(), after.state.definitions())
        &&& after.state.height == if before.state.height == u64::MAX { u64::MAX } else { (before.state.height + 1) as u64 }
        &&& after.chain().len() == before.chain().len() + 1
        &&& after.chain().drop_last() == before.chain()
        &&& mined_on(before.chain(), txs, after.chain().last())
    }
}

} // verus!
