use pep_core::blockchain::admission::{Verifier, VerifyError};
use pep_core::blockchain::asset::{AssetId, AssetType};
use pep_core::blockchain::blockchain::Blockchain;
use pep_core::blockchain::network::message::Message;
use pep_core::blockchain::network::protocol::{
    balance_response, blocks_batch, get_blocks_request, parse_asset, parse_balance_response, parse_blocks_batch, parse_bool,
    parse_get_blocks, parse_status, register_response, status_text, validate_hello, HelloError,
};
use pep_core::blockchain::node::Node;
use pep_core::blockchain::state::State;
use pep_core::blockchain::transaction::{Transaction, TransactionType};
use pep_core::wallet::{Address, PublicKey, Signature};

#[test]
fn message_bytes_round_trip() {
    for b in 0u8..=255 {
        match Message::from_byte(b) {
            Some(m) => assert_eq!(m.to_bytes()[0], b),
            None => assert!(b == 0 || b > 22),
        }
    }
    assert_eq!(Message::Ping.to_bytes(), [1]);
    assert_eq!(Message::NewTransaction.to_bytes(), [22]);
}

#[test]
fn frames_carry_big_endian_length() {
    let frame = Message::Status.frame(b"abc").unwrap();
    assert_eq!(frame, vec![12, 0, 0, 0, 3, b'a', b'b', b'c']);
    assert_eq!(Message::declared_length([0, 0, 1, 0]), Some(256));
    assert_eq!(Message::declared_length([4, 0, 0, 0]), Some(64 * 1024 * 1024));
    assert_eq!(Message::declared_length([4, 0, 0, 1]), None);
}

#[test]
fn hello_payload_and_check() {
    let payload = Message::hello_payload("mainnet", 1, 1, 123, "abcdef");
    assert_eq!(payload, b"mainnet|1|1|123|abcdef".to_vec());
    assert_eq!(Message::hello_ack_payload("mainnet", 1, 1, 123, "abcdef"), payload);
    assert_eq!(validate_hello(" mainnet|1|1|123|abcdef\n"), Ok(()));
    assert_eq!(validate_hello("mainnet|1|1|123"), Err(HelloError::Malformed));
    assert_eq!(validate_hello("mainnet|x|1|1|t"), Err(HelloError::InvalidProtocol));
    assert_eq!(validate_hello("mainnet|1|x|1|t"), Err(HelloError::InvalidChainId));
    assert_eq!(validate_hello("mainnet|1|1|x|t"), Err(HelloError::InvalidHeight));
    assert_eq!(validate_hello("testnet|1|1|1|t"), Err(HelloError::NetworkMismatch("testnet".to_string())));
    assert_eq!(validate_hello("mainnet|2|1|1|t"), Err(HelloError::ProtocolMismatch(2)));
    assert_eq!(validate_hello("mainnet|1|9|1|t"), Err(HelloError::ChainIdMismatch(9)));
    assert_eq!(validate_hello("mainnet|1|1|1|"), Err(HelloError::EmptyTip));
}

#[test]
fn status_and_block_requests() {
    assert_eq!(status_text(5, "ff"), "5|ff");
    assert_eq!(parse_status(" 5|ff \n"), Ok((5, "ff".to_string())));
    assert!(parse_status("5").is_err());
    assert!(parse_status("x|ff").is_err());
    assert_eq!(get_blocks_request(3, 1000), "3|128");
    assert_eq!(parse_get_blocks("3|1000"), Some((3, 128)));
    assert_eq!(parse_get_blocks("3|7"), Some((3, 7)));
    assert_eq!(parse_get_blocks("3"), None);
}

#[test]
fn block_batches_round_trip() {
    let chain = Blockchain::new();
    let text = blocks_batch(&chain.blocks, 0, 10);
    let blocks = parse_blocks_batch(&text).unwrap();
    assert_eq!(blocks.len(), 1);
    assert_eq!(blocks[0].serialize(), chain.blocks[0].serialize());
    assert_eq!(blocks_batch(&chain.blocks, 5, 10), "");
    assert_eq!(parse_blocks_batch("").unwrap().len(), 0);
    assert!(parse_blocks_batch("not a block").is_err());
}

#[test]
fn balance_response_round_trip() {
    let balances = vec![("BTCP".to_string(), 1), ("PEP".to_string(), 1000)];
    let text = balance_response(&balances, 3, 0);
    assert_eq!(text, "BTCP=1;PEP=1000|3|0");
    assert_eq!(parse_balance_response(&text), Some((balances, 3, 0)));
    assert_eq!(balance_response(&[], 0, 0), "|0|0");
    assert_eq!(parse_balance_response("|0|0"), Some((Vec::new(), 0, 0)));
    assert_eq!(parse_balance_response(" PEP = 5 ; ;USDT=2|1|2 "), Some((vec![("PEP".to_string(), 5), ("USDT".to_string(), 2)], 1, 2)));
    assert_eq!(parse_balance_response("PEP|1|2"), None);
    assert_eq!(parse_balance_response("PEP=x|1|2"), None);
    assert_eq!(parse_balance_response("|1"), None);
}

#[test]
fn asset_requests() {
    assert_eq!(parse_bool(" YES ", "TRS"), Ok(true));
    assert_eq!(parse_bool("0", "TRS"), Ok(false));
    assert_eq!(parse_bool("maybe", "GAS"), Err("Invalid GAS value: maybe".to_string()));
    let d = parse_asset("gold|Native|8|1000||true|no|").unwrap();
    assert_eq!(d.id.as_str(), "GOLD");
    assert_eq!(d.asset_type, AssetType::Native);
    assert_eq!(d.supply, 1000);
    assert!(d.deploy_address.is_none());
    assert!(d.transferable);
    assert!(!d.gas_eligible);
    assert!(d.peg.is_none());
    let p = parse_asset("wbtc|pegged|8|0|0xabc|1|0|btc").unwrap();
    assert_eq!(p.peg, Some("BTC"));
    assert_eq!(p.deploy_address, Some("0xabc".to_string()));
    assert_eq!(parse_asset("a|b").err(), Some("Invalid asset payload: expected 8 fields, got 2".to_string()));
    assert_eq!(parse_asset(" |native|8|0||1|1|").err(), Some("Asset ID cannot be empty.".to_string()));
    assert_eq!(parse_asset("x|coin|8|0||1|1|").err(), Some("Unknown asset type: coin".to_string()));
    assert_eq!(parse_asset("x|ccq|999|0||1|1|").err(), Some("Invalid decimals.".to_string()));
    assert_eq!(parse_asset("x|ccq|8|-1||1|1|").err(), Some("Invalid supply.".to_string()));
    assert_eq!(parse_asset("x|ccq|8|0||1|1|doge").err(), Some("Unsupported PEG: DOGE".to_string()));
    assert_eq!(register_response(&Ok(AssetId::new("gold"))), "OK|GOLD");
    assert_eq!(register_response(&Err("nope".to_string())), "ERROR|nope");
}

fn signed(from: &str, to: &str, amount: u64, nonce: u64, kind: TransactionType) -> Transaction {
    let mut t = Transaction::new(
        Address::new(from.to_string()),
        Address::new(to.to_string()),
        amount,
        nonce,
        PublicKey::new([2u8; 33]),
        kind,
    );
    t.set_signature(Signature::new(vec![1]));
    t
}

#[test]
fn admission_checks_in_order() {
    let mut state = State::new();
    state.credit(&Address::new("alice".to_string()), &AssetId::new("PEP"), 10).unwrap();
    let alice = Address::new("alice".to_string());
    let unsigned = Transaction::new(alice.clone(), alice.clone(), 1, 0, PublicKey::new([2u8; 33]), TransactionType::Transfer);
    assert_eq!(Verifier::verify(&state, &unsigned, &alice, true), Err(VerifyError::MissingSignature));
    let t = signed("alice", "bob", 5, 0, TransactionType::Transfer);
    assert_eq!(Verifier::verify(&state, &t, &Address::new("mallory".to_string()), true), Err(VerifyError::InvalidAddress));
    assert_eq!(Verifier::verify(&state, &t, &alice, false), Err(VerifyError::InvalidSignature));
    assert_eq!(Verifier::verify(&state, &t, &alice, true), Ok(()));
    let stale = signed("alice", "bob", 5, 3, TransactionType::Transfer);
    assert_eq!(Verifier::verify(&state, &stale, &alice, true), Err(VerifyError::InvalidNonce));
    let big = signed("alice", "bob", 50, 0, TransactionType::Burn);
    assert_eq!(Verifier::verify(&state, &big, &alice, true), Err(VerifyError::InsufficientBalance));
    let bob = Address::new("bob".to_string());
    let none = signed("bob", "alice", 1, 0, TransactionType::Transfer);
    assert_eq!(Verifier::verify(&state, &none, &bob, true), Err(VerifyError::InsufficientBalance));
    let mint = signed("bob", "bob", 1_000, 9, TransactionType::Mint);
    assert_eq!(Verifier::verify(&state, &mint, &bob, true), Ok(()));
}

#[test]
fn node_reports_balances_and_drops_bad_transactions() {
    let mut node = Node::new(Blockchain::new());
    assert_eq!(node.height(), 0);
    assert_eq!(node.tip_hash(), node.blockchain().blocks[0].hash().to_hex());
    let (balances, nonce, stake) = node.get_balance(&Address::new("pep42validator".to_string()));
    assert_eq!(balances, vec![("PEP".to_string(), 1_000_000_000)]);
    assert_eq!((nonce, stake), (0, 0));
    let (none, _, _) = node.get_balance(&Address::new("nobody".to_string()));
    assert!(none.is_empty());
    let t = signed("nobody", "bob", 5, 0, TransactionType::Transfer);
    assert_eq!(node.on_transaction(t, &Address::new("nobody".to_string()), true), Ok(()));
    assert_eq!(node.mempool_len(), 0);
    assert_eq!(node.height(), 0);
    assert_eq!(node.mine_pending(), Ok(()));
}
