use pep_core::pepdex::order_store::{JournaledOrderStore, MemoryOrderStore, OrderJournal, OrderStoreBackend, OrderStore, OrderStoreError, StoredChildOrder, StoredExternalOrder, StoredOrder};

use pep_core::pepdex::market::MarketId;
use pep_core::pepdex::order::{OrderId, ParentOrder};
use pep_core::pepdex::order_journal::{escape, replay_line, unescape};
use pep_core::pepdex::order_manager::OrderLifecycle;
use pep_core::pepdex::venue::{VenueId, VenueOrderSide, VenueOrderType};
use pep_core::pepdex::risk::OrderConstraints;

fn order() -> ParentOrder {
    ParentOrder::new(
        "ORDER-1",
        "alice",
        MarketId::new(
            "PEP",
            "USDT",
        ),
        VenueOrderSide::Buy,
        VenueOrderType::Limit,
        100,
        Some(600),
    )
    .with_constraints(
        OrderConstraints::new()
            .with_max_spend(
                60_000
            )
            .with_max_slippage_bps(
                100
            )
    )
}

fn stored() -> StoredOrder {
    StoredOrder {
        order: order(),

        lifecycle:
            OrderLifecycle::Executing,

        reservation_id:
            Some(
                "ORDER-1-RESERVE"
                    .to_string()
            ),

        child_orders:
            vec![
                StoredChildOrder {
                    child_order_id:
                        OrderId::new(
                            "CHILD-1"
                        ),

                    venue:
                        VenueId::Aster,

                    client_order_id:
                        "PEPDEX-CHILD-1"
                            .to_string(),

                    quantity:
                        100,

                    price:
                        Some(600),

                    status:
                        "Open".to_string(),
                }
            ],

        external_orders:
            vec![
                StoredExternalOrder {
                    child_order_id:
                        OrderId::new(
                            "CHILD-1"
                        ),

                    venue:
                        VenueId::Aster,

                    external_order_id:
                        "ASTER-123"
                            .to_string(),

                    filled_quantity:
                        40,

                    remaining_quantity:
                        60,

                    status:
                        "PartiallyFilled"
                            .to_string(),
                }
            ],

        last_error:
            None,

        created_at_ms:
            100,

        updated_at_ms:
            200,
    }
}

#[test]
fn memory_store_round_trip() {
    let mut store =
        OrderStore::memory();

    store
        .insert(stored())
        .unwrap();

    let loaded =
        store
            .get(
                &OrderId::new(
                    "ORDER-1"
                )
            )
            .unwrap()
            .unwrap();

    assert_eq!(
        loaded.order.id.as_str(),
        "ORDER-1"
    );

    assert_eq!(
        loaded.order.user,
        "alice"
    );

    assert_eq!(
        loaded.order.quantity,
        100
    );

    assert_eq!(
        loaded
            .external_orders
            .len(),
        1
    );

    assert_eq!(
        loaded
            .external_orders[0]
            .external_order_id,
        "ASTER-123"
    );
}

#[test]
fn pending_reconciliation_is_found() {
    let mut store =
        OrderStore::memory();

    store
        .insert(stored())
        .unwrap();

    let pending =
        store
            .pending_reconciliation()
            .unwrap();

    assert_eq!(
        pending.len(),
        1
    );

    assert!(
        pending[0]
            .is_reconcilable()
    );
}

#[test]
fn escaping_round_trip() {
    let value =
        "abc|def~ghi;jkl\\xyz\n123";

    let encoded =
        escape(value);

    let decoded =
        unescape(&encoded);

    assert_eq!(
        decoded,
        value
    );
}

#[test]
fn update_lifecycle_of_unknown_order_is_not_found() {
    let mut store = OrderStore::memory();
    let r = store.update_lifecycle(&OrderId::new("MISSING"), OrderLifecycle::Failed);
    assert!(matches!(r, Err(OrderStoreError::NotFound)));
    let r = store.set_error(&OrderId::new("MISSING"), "boom");
    assert!(matches!(r, Err(OrderStoreError::NotFound)));
}

#[test]
fn lifecycle_and_error_updates_are_kept() {
    let mut store = OrderStore::memory();
    store.insert(stored()).unwrap();
    let id = OrderId::new("ORDER-1");
    store.update_lifecycle(&id, OrderLifecycle::Settled).unwrap();
    store.set_error(&id, "venue timeout").unwrap();
    let loaded = store.get(&id).unwrap().unwrap();
    assert_eq!(loaded.lifecycle, OrderLifecycle::Settled);
    assert_eq!(loaded.last_error, Some("venue timeout".to_string()));
    assert_eq!(loaded.created_at_ms, 100);
    assert_eq!(store.all().unwrap().len(), 1);
    // A settled order is no longer waiting for reconciliation.
    assert_eq!(store.pending_reconciliation().unwrap().len(), 0);
}

#[test]
fn insert_replaces_and_remove_takes_out() {
    let mut store = OrderStore::memory();
    store.insert(stored()).unwrap();
    let mut second = stored();
    second.lifecycle = OrderLifecycle::Failed;
    store.insert(second).unwrap();
    assert_eq!(store.all().unwrap().len(), 1);
    let id = OrderId::new("ORDER-1");
    let removed = store.remove(&id).unwrap().unwrap();
    assert_eq!(removed.lifecycle, OrderLifecycle::Failed);
    assert!(store.get(&id).unwrap().is_none());
    assert!(store.remove(&id).unwrap().is_none());
}

struct LineJournal {
    lines: std::rc::Rc<std::cell::RefCell<Vec<String>>>,
    fail: bool,
}

impl OrderJournal for LineJournal {
    fn append(&mut self, line: &str) -> Result<(), OrderStoreError> {
        if self.fail {
            return Err(OrderStoreError::Io(std::io::Error::new(std::io::ErrorKind::Other, "disk full")));
        }
        self.lines.borrow_mut().push(line.to_string());
        Ok(())
    }
}

#[test]
fn journalled_store_replays_to_the_same_records() {
    let lines = std::rc::Rc::new(std::cell::RefCell::new(Vec::new()));
    let journal = LineJournal { lines: lines.clone(), fail: false };
    let mut store = JournaledOrderStore::new(journal, MemoryOrderStore::new());
    store.insert(stored()).unwrap();
    let mut second = stored();
    second.lifecycle = OrderLifecycle::Settled;
    store.update(second).unwrap();
    let all = store.all().unwrap();
    assert_eq!(all.len(), 1);
    assert_eq!(all[0].lifecycle, OrderLifecycle::Settled);
    assert_eq!(lines.borrow().len(), 2);

    let mut replayed = MemoryOrderStore::new();
    for line in lines.borrow().iter() {
        replay_line(&mut replayed, line).unwrap();
    }
    let again = replayed.find(&OrderId::new("ORDER-1")).unwrap();
    assert_eq!(again.lifecycle, OrderLifecycle::Settled);
    assert_eq!(again.external_orders[0].external_order_id, "ASTER-123");

    store.remove(&OrderId::new("ORDER-1")).unwrap();
    assert!(store.all().unwrap().is_empty());
    let mut replayed = MemoryOrderStore::new();
    for line in lines.borrow().iter() {
        replay_line(&mut replayed, line).unwrap();
    }
    assert!(replayed.find(&OrderId::new("ORDER-1")).is_none());
}

#[test]
fn failed_journal_write_changes_nothing() {
    let lines = std::rc::Rc::new(std::cell::RefCell::new(Vec::new()));
    let journal = LineJournal { lines, fail: true };
    let mut store = JournaledOrderStore::new(journal, MemoryOrderStore::new());
    assert!(matches!(store.insert(stored()), Err(OrderStoreError::Io(_))));
    assert!(store.all().unwrap().is_empty());
    assert!(store.get(&OrderId::new("ORDER-1")).unwrap().is_none());
}
