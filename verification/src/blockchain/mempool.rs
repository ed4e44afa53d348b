//! Transactions waiting for a block.
use vstd::prelude::*;
use crate::blockchain::transaction::{tx_views, Transaction, TxView};

verus! {

pub struct Mempool {
    transactions: Vec<Transaction>,
}

impl View for Mempool {
    type V = Seq<TxView>;

    closed spec fn view(&self) -> Seq<TxView> {
        tx_views(self.transactions@)
    }
}

impl Mempool {
    pub fn new() -> (r: Self)
        ensures
            r@ == Seq::<TxView>::empty(),
    {
        let r = Mempool { transactions: Vec::new() };
        assert(r@ =~= Seq::<TxView>::empty());
        r
    }

    /// Queues a transaction after the others.
    pub fn add_transaction(&mut self, tx: Transaction)
        ensures
            final(self)@ == old(self)@.push(tx@),
    {
        let ghost t = tx@;
        self.transactions.push(tx);
        assert(tx_views(self.transactions@) =~= tx_views(old(self).transactions@).push(t));
    }

    pub fn len(&self) -> (r: usize)
        ensures
            r == self@.len(),
    {
        self.transactions.len()
    }

    pub fn is_empty(&self) -> (r: bool)
        ensures
            r == (self@.len() == 0),
    {
        self.transactions.len() == 0
    }

    /// Hands out every queued transaction, in order, and empties the pool.
    pub fn take_all(&mut self) -> (r: Vec<Transaction>)
        ensures
            tx_views(r@) == old(self)@,
            final(self)@ == Seq::<TxView>::empty(),
    {
        let mut out: Vec<Transaction> = Vec::new();
        std::mem::swap(&mut out, &mut self.transactions);
        assert(tx_views(self.transactions@) =~= Seq::<TxView>::empty());
        out
    }
}

} // verus!
