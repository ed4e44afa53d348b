//! The first block of the chain.
use vstd::prelude::*;
use crate::blockchain::asset::{AssetId, PEP};
use crate::blockchain::block::{Block, BlockView};
use crate::blockchain::merkle::merkle_root;
use crate::blockchain::hash::{zero_bytes, Hash256};
use crate::blockchain::transaction::{Transaction, TransactionType, TxView};
use crate::wallet::{Address, PublicKey};

verus! {

/// A genesis mint of PEP to an address.
pub open spec fn genesis_mint(to: Seq<char>, amount: u64) -> TxView {
    (TransactionType::Mint, "GENESIS"@, to, "PEP"@, amount, 0u64, Seq::new(33, |i: int| 0u8), None::<Seq<u8>>)
}

/// The genesis transactions.
pub open spec fn genesis_transactions() -> Seq<TxView> {
    seq![
        genesis_mint("pep42foundation"@, 1_000_000_000),
        genesis_mint("pep42treasury"@, 1_000_000_000),
        genesis_mint("pep42validator"@, 1_000_000_000),
        genesis_mint("pep42faucet"@, 1_000_000),
    ]
}

/// The genesis block.
pub open spec fn genesis_block() -> BlockView {
    ((1u32, zero_bytes(), merkle_root(genesis_transactions()), 0u64, 18u32, 0u64), genesis_transactions())
}

pub struct Genesis;

impl Genesis {
    /// The genesis block: four PEP mints (foundation, treasury and validator
    /// a billion each, faucet a million), zero previous hash, timestamp zero,
    /// difficulty bits 18.
    pub fn block() -> (r: Block)
        ensures
            r@ == genesis_block(),
    {
        let mut transactions: Vec<Transaction> = Vec::new();
        transactions.push(Genesis::mint("pep42foundation", 1_000_000_000));
        transactions.push(Genesis::mint("pep42treasury", 1_000_000_000));
        transactions.push(Genesis::mint("pep42validator", 1_000_000_000));
        transactions.push(Genesis::mint("pep42faucet", 1_000_000));
        let r = Block::new(Hash256::zero(), 0, 18, transactions);
        assert(r@.1 =~= genesis_transactions());
        r
    }

    fn mint(address: &str, amount: u64) -> (r: Transaction)
        ensures
            r@ == genesis_mint(address@, amount),
    {
        let r = Transaction {
            asset: AssetId::new(PEP),
            transaction_type: TransactionType::Mint,
            from: Address::new("GENESIS".to_string()),
            to: Address::new(address.to_string()),
            amount,
            nonce: 0,
            public_key: PublicKey::new([0u8; 33]),
            signature: None,
        };
        assert(r.public_key@ =~= Seq::new(33, |i: int| 0u8));
        proof {
            crate::blockchain::asset::lemma_core_upper("PEP"@);
        }
        r
    }
}

} // verus!
