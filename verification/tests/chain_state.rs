use pep_core::blockchain::asset::{AssetId, AssetRegistry, AssetType};
use pep_core::blockchain::executor::Executor;
use pep_core::blockchain::state::{State, StateError};
use pep_core::blockchain::transaction::{Transaction, TransactionType};
use pep_core::wallet::{Address, PublicKey};

fn addr(s: &str) -> Address {
    Address::new(s.to_string())
}

fn pep() -> AssetId {
    AssetId::new("PEP")
}

#[test]
fn new_state_knows_core_assets() {
    let state = State::new();
    assert_eq!(state.height, 0);
    assert!(state.has_asset(&AssetId::new("pep")));
    assert!(state.has_asset(&AssetId::new("BTCP")));
    assert!(state.has_asset(&AssetId::new("ETHP")));
    assert!(state.has_asset(&AssetId::new("USDP")));
    assert!(!state.has_asset(&AssetId::new("DOGE")));
    assert_eq!(state.assets().len(), 4);
}

#[test]
fn credit_opens_account_and_adds() {
    let mut state = State::new();
    state.credit(&addr("alice"), &pep(), 500).unwrap();
    state.credit(&addr("alice"), &pep(), 250).unwrap();
    assert_eq!(state.balance(&addr("alice"), &pep()), 750);
    assert!(state.get_account(&addr("alice")).is_some());
}

#[test]
fn credit_unknown_asset_is_refused() {
    let mut state = State::new();
    assert_eq!(state.credit(&addr("alice"), &AssetId::new("DOGE"), 1), Err(StateError::AssetNotFound));
    assert!(state.get_account(&addr("alice")).is_none());
}

#[test]
fn credit_overflow_is_refused() {
    let mut state = State::new();
    state.credit(&addr("alice"), &pep(), u64::MAX).unwrap();
    assert_eq!(state.credit(&addr("alice"), &pep(), 1), Err(StateError::Overflow));
    assert_eq!(state.balance(&addr("alice"), &pep()), u64::MAX);
}

#[test]
fn debit_errors_in_order() {
    let mut state = State::new();
    assert_eq!(state.debit(&addr("bob"), &AssetId::new("DOGE"), 1), Err(StateError::AssetNotFound));
    assert_eq!(state.debit(&addr("bob"), &pep(), 1), Err(StateError::AccountNotFound));
    state.credit(&addr("bob"), &pep(), 10).unwrap();
    assert_eq!(state.debit(&addr("bob"), &pep(), 11), Err(StateError::InsufficientBalance));
    assert_eq!(state.balance(&addr("bob"), &pep()), 10);
}

#[test]
fn credit_then_debit_restores_balance() {
    let mut state = State::new();
    state.credit(&addr("carol"), &pep(), 40).unwrap();
    state.credit(&addr("carol"), &pep(), 60).unwrap();
    state.debit(&addr("carol"), &pep(), 60).unwrap();
    assert_eq!(state.balance(&addr("carol"), &pep()), 40);
    state.debit(&addr("carol"), &pep(), 40).unwrap();
    assert_eq!(state.balance(&addr("carol"), &pep()), 0);
    let account = state.get_account(&addr("carol")).unwrap();
    assert_eq!(account.sorted_balances().len(), 0);
}

#[test]
fn nonce_saturates() {
    let mut state = State::new();
    state.increase_nonce(&addr("nobody"));
    assert!(state.get_account(&addr("nobody")).is_none());
    state.credit(&addr("dave"), &pep(), 1).unwrap();
    state.increase_nonce(&addr("dave"));
    state.increase_nonce(&addr("dave"));
    assert_eq!(state.get_account(&addr("dave")).unwrap().nonce, 2);
}

#[test]
fn register_custom_asset_once() {
    let mut state = State::new();
    let gold = AssetRegistry::create_native(AssetId::new("GOLD"), 1000, None);
    state.register_asset(gold.clone()).unwrap();
    assert!(state.has_asset(&AssetId::new("GOLD")));
    assert_eq!(state.register_asset(gold), Err(StateError::AssetAlreadyExists));
    let core = AssetRegistry::create_native(AssetId::new("PEP"), 1, None);
    assert_eq!(state.register_asset(core), Err(StateError::AssetAlreadyExists));
    assert_eq!(state.get_asset(&AssetId::new("GOLD")).unwrap().asset_type, AssetType::Native);
}

fn tx(kind: TransactionType, from: &str, to: &str, amount: u64) -> Transaction {
    Transaction::new_asset(addr(from), addr(to), pep(), amount, 0, PublicKey::new([2u8; 33]), kind)
}

#[test]
fn transfer_moves_value_and_bumps_nonce() {
    let mut state = State::new();
    Executor::execute(&mut state, &tx(TransactionType::Mint, "GENESIS", "alice", 100)).unwrap();
    Executor::execute(&mut state, &tx(TransactionType::Transfer, "alice", "bob", 30)).unwrap();
    assert_eq!(state.balance(&addr("alice"), &pep()), 70);
    assert_eq!(state.balance(&addr("bob"), &pep()), 30);
    assert_eq!(state.get_account(&addr("alice")).unwrap().nonce, 1);
    assert_eq!(state.get_account(&addr("bob")).unwrap().nonce, 0);
}

#[test]
fn transfer_without_funds_fails() {
    let mut state = State::new();
    assert_eq!(
        Executor::execute(&mut state, &tx(TransactionType::Transfer, "alice", "bob", 1)),
        Err(StateError::AccountNotFound)
    );
    Executor::execute(&mut state, &tx(TransactionType::Mint, "GENESIS", "alice", 5)).unwrap();
    assert_eq!(
        Executor::execute(&mut state, &tx(TransactionType::Transfer, "alice", "bob", 6)),
        Err(StateError::InsufficientBalance)
    );
    assert_eq!(state.balance(&addr("alice"), &pep()), 5);
}

#[test]
fn transfer_to_self_keeps_balance() {
    let mut state = State::new();
    Executor::execute(&mut state, &tx(TransactionType::Mint, "GENESIS", "erin", 9)).unwrap();
    Executor::execute(&mut state, &tx(TransactionType::Transfer, "erin", "erin", 9)).unwrap();
    assert_eq!(state.balance(&addr("erin"), &pep()), 9);
    assert_eq!(state.get_account(&addr("erin")).unwrap().nonce, 1);
}

#[test]
fn sorted_balances_are_ordered_and_nonzero() {
    let mut state = State::new();
    state.credit(&addr("f"), &AssetId::new("USDP"), 3).unwrap();
    state.credit(&addr("f"), &AssetId::new("BTCP"), 1).unwrap();
    state.credit(&addr("f"), &AssetId::new("PEP"), 2).unwrap();
    state.credit(&addr("f"), &AssetId::new("ETHP"), 0).unwrap();
    let list = state.get_account(&addr("f")).unwrap().sorted_balances();
    assert_eq!(list, vec![("BTCP".to_string(), 1), ("PEP".to_string(), 2), ("USDP".to_string(), 3)]);
}
