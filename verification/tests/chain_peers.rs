use pep_core::blockchain::asset::AssetId;
use pep_core::blockchain::network::peer::{PeerAddress, PeerManager};
use pep_core::blockchain::network::protocol::{discovery_address, discovery_reply, parse_peer_list, peers_text};
use pep_core::blockchain::state::State;
use pep_core::wallet::Address;

fn at(text: &str, port: u16) -> PeerAddress {
    PeerAddress::new(text, port, false)
}

fn texts(peers: &[PeerAddress]) -> Vec<String> {
    peers.iter().map(|p| p.text.clone()).collect()
}

#[test]
fn add_keeps_one_entry_per_address() {
    let mut manager = PeerManager::new();
    assert!(manager.is_empty());
    assert!(manager.add(at("10.0.0.2:6000", 6000)));
    assert!(!manager.add(at("10.0.0.2:6000", 6000)));
    assert!(manager.add(at("10.0.0.1:6000", 6000)));
    assert_eq!(manager.len(), 2);
    assert!(manager.contains(&at("10.0.0.1:6000", 6000)));
}

#[test]
fn unconnectable_addresses_are_refused() {
    let mut manager = PeerManager::new();
    assert!(!manager.add(PeerAddress::new("0.0.0.0:6000", 6000, true)));
    assert!(!manager.add(at("10.0.0.1:0", 0)));
    assert_eq!(manager.len(), 0);
}

#[test]
fn add_many_counts_new_addresses() {
    let mut manager = PeerManager::new();
    let added = manager.add_many(vec![
        at("10.0.0.1:6000", 6000),
        at("10.0.0.1:6000", 6000),
        PeerAddress::new("0.0.0.0:6000", 6000, true),
        at("10.0.0.3:6000", 6000),
    ]);
    assert_eq!(added, 2);
    assert_eq!(manager.len(), 2);
}

#[test]
fn all_lists_addresses_in_text_order() {
    let mut manager = PeerManager::new();
    manager.add(at("10.0.0.9:6000", 6000));
    manager.add(at("10.0.0.10:6000", 6000));
    manager.add(at("10.0.0.1:6000", 6000));
    assert_eq!(texts(&manager.all()), vec!["10.0.0.10:6000", "10.0.0.1:6000", "10.0.0.9:6000"]);
}

#[test]
fn candidates_skip_failing_peers_and_prefer_fewer_failures() {
    let mut manager = PeerManager::new();
    let a = at("10.0.0.1:6000", 6000);
    let b = at("10.0.0.2:6000", 6000);
    let c = at("10.0.0.3:6000", 6000);
    manager.add(a.clone());
    manager.add(b.clone());
    manager.add(c.clone());
    manager.mark_failure(a.clone());
    for _ in 0..3 {
        manager.mark_failure(b.clone());
    }
    assert_eq!(manager.failure_count(&a), 1);
    assert_eq!(manager.failure_count(&b), 3);
    assert_eq!(texts(&manager.candidates()), vec!["10.0.0.3:6000", "10.0.0.1:6000"]);
    manager.mark_success(b.clone());
    assert_eq!(manager.failure_count(&b), 0);
    assert_eq!(texts(&manager.candidates()), vec!["10.0.0.2:6000", "10.0.0.3:6000", "10.0.0.1:6000"]);
}

#[test]
fn mark_failure_adds_unknown_peer() {
    let mut manager = PeerManager::new();
    manager.mark_failure(at("10.0.0.7:6000", 6000));
    assert!(manager.contains(&at("10.0.0.7:6000", 6000)));
    assert_eq!(manager.failure_count(&at("10.0.0.7:6000", 6000)), 1);
}

#[test]
fn remove_forgets_failures_and_reset_clears_counts() {
    let mut manager = PeerManager::new();
    let a = at("10.0.0.1:6000", 6000);
    manager.mark_failure(a.clone());
    assert!(manager.remove(&a));
    assert!(!manager.remove(&a));
    assert_eq!(manager.failure_count(&a), 0);
    manager.mark_failure(a.clone());
    manager.reset_failures();
    assert_eq!(manager.failure_count(&a), 0);
    assert_eq!(manager.len(), 1);
    manager.clear();
    assert!(manager.is_empty());
}

#[test]
fn peer_list_text_round_trip() {
    let peers = vec![at("10.0.0.1:6000", 6000), at("10.0.0.2:6001", 6001)];
    let text = peers_text(&peers);
    assert_eq!(text, "10.0.0.1:6000,10.0.0.2:6001");
    assert_eq!(parse_peer_list(&text), vec!["10.0.0.1:6000", "10.0.0.2:6001"]);
    assert_eq!(parse_peer_list(" a , ,b,"), vec!["a", "b"]);
    assert!(parse_peer_list("").is_empty());
}

#[test]
fn discovery_reply_is_read_back() {
    let reply = discovery_reply("192.168.1.5:6000");
    assert_eq!(reply, "PEP_NODE|192.168.1.5:6000");
    assert_eq!(discovery_address(&reply), Some("192.168.1.5:6000".to_string()));
    assert_eq!(discovery_address("  PEP_NODE| 10.0.0.1:6000 \n"), Some("10.0.0.1:6000".to_string()));
    assert_eq!(discovery_address("PEP_NODE|   "), None);
    assert_eq!(discovery_address("HELLO|10.0.0.1:6000"), None);
}

#[test]
fn account_changed_in_place() {
    let mut state = State::new();
    let alice = Address::new("alice".to_string());
    let pep = AssetId::new("PEP");
    assert!(state.get_account_mut(&alice).is_none());
    state.credit(&alice, &pep, 100).unwrap();
    {
        let account = state.get_account_mut(&alice).unwrap();
        account.set_balance(&pep, 40);
    }
    assert_eq!(state.balance(&alice, &pep), 40);
}
