use pep_core::blockchain::block::Block;
use pep_core::blockchain::block_header::BlockHeader;
use pep_core::blockchain::blockchain::Blockchain;
use pep_core::blockchain::consensus::difficulty::Difficulty;
use pep_core::blockchain::consensus::pow::PoW;
use pep_core::blockchain::genesis::Genesis;
use pep_core::blockchain::hash::Hash256;
use pep_core::blockchain::mempool::Mempool;
use pep_core::blockchain::merkle::MerkleTree;
use pep_core::blockchain::state::StateError;
use pep_core::blockchain::transaction::{Transaction, TransactionType};
use pep_core::blockchain::asset::AssetId;
use pep_core::blockchain::storage::chain_store::ChainStore;
use pep_core::blockchain::storage::metadata_store::{Metadata, MetadataStore};
use pep_core::wallet::{Address, PublicKey, Signature};

fn sample_tx(to: &str, amount: u64) -> Transaction {
    let mut t = Transaction::new_asset(
        Address::new("alice".to_string()),
        Address::new(to.to_string()),
        AssetId::new("USDP"),
        amount,
        7,
        PublicKey::new([3u8; 33]),
        TransactionType::Transfer,
    );
    t.set_signature(Signature::new(vec![0xab, 0xcd]));
    t
}

#[test]
fn transaction_text_round_trip() {
    let t = sample_tx("bob", 42);
    let text = t.serialize();
    assert!(text.starts_with("0|alice|bob|USDP|42|7|"));
    assert!(text.ends_with("|abcd"));
    let back = Transaction::deserialize(&text).unwrap();
    assert_eq!(back.serialize(), text);
    assert_eq!(back.amount, 42);
    assert!(back.is_signed());
}

#[test]
fn legacy_transaction_text_is_pep() {
    let key = PublicKey::new([3u8; 33]).to_hex();
    let text = format!("1|GENESIS|bob|5|0|{}|", key);
    let t = Transaction::deserialize(&text).unwrap();
    assert_eq!(t.asset.as_str(), "PEP");
    assert_eq!(t.transaction_type, TransactionType::Mint);
    assert!(!t.is_signed());
    assert!(Transaction::deserialize("1|a|b|5").is_none());
}

#[test]
fn header_text_round_trip() {
    let h = BlockHeader::new(Hash256::zero(), Hash256::new([9u8; 32]), 1234, 18);
    let text = h.serialize();
    let back = BlockHeader::deserialize(&text).unwrap();
    assert_eq!(back.serialize(), text);
    assert_eq!(back.timestamp, 1234);
    assert_eq!(back.calculate_hash(), h.calculate_hash());
    assert!(BlockHeader::deserialize("1#2#3").is_err());
}

#[test]
fn block_text_round_trip_and_integrity() {
    let block = Block::new(Hash256::zero(), 5, 18, vec![sample_tx("bob", 1), sample_tx("carol", 2)]);
    assert!(block.verify_integrity().is_ok());
    let text = block.serialize();
    let back = Block::deserialize(&text).unwrap();
    assert_eq!(back.serialize(), text);
    assert_eq!(back.transactions.len(), 2);
    let mut forged = block.clone();
    forged.header.merkle_root = Hash256::zero();
    assert_eq!(forged.verify_integrity(), Err("Invalid Merkle root.".to_string()));
    assert!(Block::deserialize(&forged.serialize()).is_err());
    assert!(Block::deserialize("no separator").is_err());
}

#[test]
fn empty_block_round_trip() {
    let block = Block::new(Hash256::zero(), 0, 18, Vec::new());
    assert!(block.header.merkle_root.is_zero());
    let back = Block::deserialize(&block.serialize()).unwrap();
    assert_eq!(back.transactions.len(), 0);
}

#[test]
fn add_transaction_recomputes_root() {
    let mut block = Block::new(Hash256::zero(), 0, 18, Vec::new());
    block.add_transaction(sample_tx("bob", 1));
    assert!(block.verify_integrity().is_ok());
    assert!(MerkleTree::verify(&block.transactions, &block.header.merkle_root));
}

#[test]
fn merkle_proofs_verify() {
    let txs = vec![sample_tx("a", 1), sample_tx("b", 2), sample_tx("c", 3)];
    let root = MerkleTree::root(&txs);
    for i in 0..txs.len() {
        let proof = MerkleTree::inclusion_proof(&txs, i).unwrap();
        assert!(MerkleTree::verify_proof(txs[i].hash(), &proof, i, root));
    }
    assert!(MerkleTree::inclusion_proof(&txs, 3).is_none());
    let proof = MerkleTree::inclusion_proof(&txs, 0).unwrap();
    assert!(!MerkleTree::verify_proof(txs[1].hash(), &proof, 0, root));
}

#[test]
fn genesis_chain_balances() {
    let chain = Blockchain::new();
    assert_eq!(chain.height(), 0);
    assert!(chain.is_valid());
    let pep = AssetId::new("PEP");
    assert_eq!(chain.state.balance(&Address::new("pep42foundation".to_string()), &pep), 1_000_000_000);
    assert_eq!(chain.state.balance(&Address::new("pep42faucet".to_string()), &pep), 1_000_000);
    assert_eq!(chain.tip().unwrap().header.bits, 18);
    assert_eq!(Genesis::block().serialize(), chain.blocks[0].serialize());
}

#[test]
fn failed_batch_leaves_chain_unchanged() {
    let mut chain = Blockchain::new();
    let before = chain.state.balance(&Address::new("pep42treasury".to_string()), &AssetId::new("PEP"));
    let txs = vec![
        Transaction::new(
            Address::new("pep42treasury".to_string()),
            Address::new("zed".to_string()),
            10,
            0,
            PublicKey::new([0u8; 33]),
            TransactionType::Transfer,
        ),
        Transaction::new(
            Address::new("ghost".to_string()),
            Address::new("zed".to_string()),
            1,
            0,
            PublicKey::new([0u8; 33]),
            TransactionType::Transfer,
        ),
    ];
    assert_eq!(chain.execute_transactions(txs), Err(StateError::AccountNotFound));
    assert_eq!(chain.blocks.len(), 1);
    assert_eq!(chain.state.balance(&Address::new("pep42treasury".to_string()), &AssetId::new("PEP")), before);
    assert_eq!(chain.state.balance(&Address::new("zed".to_string()), &AssetId::new("PEP")), 0);
    assert_eq!(chain.execute_transactions(Vec::new()), Ok(()));
}

#[test]
fn block_with_wrong_parent_is_refused() {
    let mut chain = Blockchain::new();
    let block = Block::new(Hash256::zero(), 1, 0, Vec::new());
    assert_eq!(chain.validate_and_add_block(block), Err("Invalid previous block hash.".to_string()));
    let tip = chain.tip().unwrap().hash();
    let mut block = Block::new(tip, 1, 255, Vec::new());
    block.set_nonce(0);
    assert_eq!(chain.validate_and_add_block(block), Err("Invalid proof of work.".to_string()));
    assert_eq!(chain.blocks.len(), 1);
}

#[test]
fn easy_block_is_accepted() {
    let mut chain = Blockchain::new();
    let tip = chain.tip().unwrap().hash();
    let block = Block::new(tip, 1, 0, Vec::new());
    assert!(chain.validate_and_add_block(block).is_ok());
    assert_eq!(chain.height(), 1);
    assert_eq!(chain.state.height, 1);
    assert!(chain.is_valid());
}

#[test]
fn mining_finds_first_nonce() {
    let mut block = Block::new(Hash256::zero(), 0, 4, Vec::new());
    let pow = PoW::new(4);
    assert!(pow.mine(&mut block));
    assert!(pow.verify_block(&block));
    let found = block.nonce();
    for n in 0..found {
        let mut b = block.clone();
        b.set_nonce(n);
        assert!(!pow.verify_block(&b));
    }
}

#[test]
fn difficulty_schedule() {
    assert_eq!(Difficulty::genesis_bits(), 18);
    assert_eq!(Difficulty::next_bits(&[]), 18);
    let one = vec![Genesis::block()];
    assert_eq!(Difficulty::next_bits(&one), 18);
    assert_eq!(Difficulty::current(&one), 18);
    assert_eq!(Difficulty::current(&[]), 18);
    let mut two = one.clone();
    two.push(Block::new(Hash256::zero(), 10, 20, Vec::new()));
    assert_eq!(Difficulty::next_bits(&two), 20);
    assert!(Difficulty::verify_hash(Hash256::zero(), 255));
    assert!(!Difficulty::verify_hash(Hash256::new([255u8; 32]), 1));
    assert!(Difficulty::verify_hash(Hash256::new([255u8; 32]), 0));
    assert_eq!(Difficulty::target(256), [0u64; 4]);
}

#[test]
fn mempool_hands_out_in_order() {
    let mut pool = Mempool::new();
    assert!(pool.is_empty());
    pool.add_transaction(sample_tx("a", 1));
    pool.add_transaction(sample_tx("b", 2));
    assert_eq!(pool.len(), 2);
    let all = pool.take_all();
    assert_eq!(all.len(), 2);
    assert_eq!(all[1].amount, 2);
    assert!(pool.is_empty());
}

#[test]
fn chain_file_round_trip() {
    let blocks = vec![Genesis::block(), Block::new(Hash256::zero(), 3, 18, vec![sample_tx("bob", 1)])];
    let text = ChainStore::text(&blocks);
    assert_eq!(text.lines().count(), 2);
    let back = ChainStore::parse(&text).unwrap();
    assert_eq!(back.len(), 2);
    assert_eq!(back[1].serialize(), blocks[1].serialize());
    let crlf = text.replace('\n', "\r\n");
    assert_eq!(ChainStore::parse(&crlf).unwrap().len(), 2);
    assert!(ChainStore::parse("garbage\n").is_none());
    assert_eq!(ChainStore::parse("\n  \n").unwrap().len(), 0);
}

#[test]
fn metadata_file_round_trip() {
    let chain = Blockchain::new();
    let m = Metadata::of_chain(&chain.blocks).unwrap();
    assert_eq!(m.best_height, 0);
    assert_eq!(m.best_hash, m.genesis_hash);
    assert_eq!(m.difficulty, 18);
    let text = MetadataStore::text(&m);
    let back = MetadataStore::parse(&text).unwrap();
    assert_eq!(back.best_hash, m.best_hash);
    assert_eq!(back.chain_id, 1);
    assert!(MetadataStore::parse("1\n1\n0\n").is_none());
    assert!(Metadata::of_chain(&[]).is_none());
}

#[test]
fn extending_block_with_failing_transaction_is_refused() {
    let mut chain = Blockchain::new();
    let tip = chain.tip().unwrap().hash();
    let failing = Transaction::new(
        Address::new("ghost".to_string()),
        Address::new("zed".to_string()),
        1,
        0,
        PublicKey::new([0u8; 33]),
        TransactionType::Transfer,
    );
    let block = Block::new(tip, 1, 0, vec![failing]);
    assert_eq!(
        chain.validate_and_add_block(block),
        Err("Block transaction execution failed: AccountNotFound".to_string())
    );
    assert_eq!(chain.blocks.len(), 1);
    assert_eq!(chain.state.height, 0);

    let tip = chain.tip().unwrap().hash();
    let paying = Transaction::new(
        Address::new("pep42treasury".to_string()),
        Address::new("zed".to_string()),
        10,
        0,
        PublicKey::new([0u8; 33]),
        TransactionType::Transfer,
    );
    let block = Block::new(tip, 1, 0, vec![paying]);
    assert!(chain.validate_and_add_block(block).is_ok());
    assert_eq!(chain.blocks.len(), 2);
    assert_eq!(chain.state.balance(&Address::new("zed".to_string()), &AssetId::new("PEP")), 10);
}
