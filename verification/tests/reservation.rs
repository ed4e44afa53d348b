use pep_core::pepdex::reservation::{ReservationError, ReservationManager, ReservationStatus};
use pep_core::pepdex::balance::{BalanceError, BalanceLedger};

use pep_core::pepdex::market::MarketId;
use pep_core::pepdex::order::ParentOrder;
use pep_core::pepdex::venue::{
    VenueOrderSide,
    VenueOrderType,
};

fn order() -> ParentOrder {
    ParentOrder::new(
        "ORDER-1",
        "alice",
        MarketId::new(
            "PEP",
            "USDT",
        ),
        VenueOrderSide::Buy,
        VenueOrderType::Market,
        100,
        None,
    )
}

#[test]
fn reserve_moves_balance_to_locked() {
    let mut balances =
        BalanceLedger::new();

    balances
        .deposit(
            "alice",
            "USDT",
            1000,
        )
        .unwrap();

    let mut manager =
        ReservationManager::new(
            balances
        );

    let reservation =
        manager
            .reserve(
                &order(),
                "USDT",
                600,
            )
            .expect(
                "reservation failed"
            );

    let balance =
        manager.balances().get(
            "alice",
            "USDT",
        );

    assert_eq!(
        balance.available,
        400
    );

    assert_eq!(
        balance.locked,
        600
    );

    let stored =
        manager
            .get(&reservation)
            .unwrap();

    assert_eq!(
        stored.amount,
        600
    );

    assert_eq!(
        stored.remaining(),
        600
    );
}

#[test]
fn reservation_cannot_exceed_balance() {
    let mut balances =
        BalanceLedger::new();

    balances
        .deposit(
            "alice",
            "USDT",
            500,
        )
        .unwrap();

    let mut manager =
        ReservationManager::new(
            balances
        );

    let result =
        manager.reserve(
            &order(),
            "USDT",
            501,
        );

    assert!(matches!(
        result,
        Err(
            ReservationError::Balance(
                BalanceError
                    ::InsufficientAvailable { .. }
            )
        )
    ));
}

#[test]
fn consume_tracks_used_amount() {
    let mut balances =
        BalanceLedger::new();

    balances
        .deposit(
            "alice",
            "USDT",
            1000,
        )
        .unwrap();

    let mut manager =
        ReservationManager::new(
            balances
        );

    let id =
        manager
            .reserve(
                &order(),
                "USDT",
                600,
            )
            .unwrap();

    manager
        .consume(&id, 400)
        .unwrap();

    let reservation =
        manager.get(&id).unwrap();

    assert_eq!(
        reservation.consumed,
        400
    );

    assert_eq!(
        reservation.remaining(),
        200
    );

    assert_eq!(
        reservation.status,
        ReservationStatus
            ::PartiallyConsumed
    );
}

#[test]
fn release_returns_unused_locked_balance() {
    let mut balances =
        BalanceLedger::new();

    balances
        .deposit(
            "alice",
            "USDT",
            1000,
        )
        .unwrap();

    let mut manager =
        ReservationManager::new(
            balances
        );

    let id =
        manager
            .reserve(
                &order(),
                "USDT",
                600,
            )
            .unwrap();

    manager
        .consume(&id, 400)
        .unwrap();

    let released =
        manager
            .release(&id)
            .unwrap();

    assert_eq!(
        released,
        200
    );

    let balance =
        manager.balances().get(
            "alice",
            "USDT",
        );

    /*
     * Initial: 1000
     *
     * Reserve 600:
     * available = 400
     * locked    = 600
     *
     * Consume 400:
     * locked remains 600 because the actual
     * settlement accounting happens separately.
     *
     * Release remaining reservation:
     * unlock 200
     *
     * available = 600
     * locked    = 400
     */
    assert_eq!(
        balance.available,
        600
    );

    assert_eq!(
        balance.locked,
        400
    );
}

#[test]
fn cancel_unlocks_full_remaining_amount() {
    let mut balances =
        BalanceLedger::new();

    balances
        .deposit(
            "alice",
            "USDT",
            1000,
        )
        .unwrap();

    let mut manager =
        ReservationManager::new(
            balances
        );

    let id =
        manager
            .reserve(
                &order(),
                "USDT",
                500,
            )
            .unwrap();

    let released =
        manager
            .cancel(&id)
            .unwrap();

    assert_eq!(
        released,
        500
    );

    let balance =
        manager.balances().get(
            "alice",
            "USDT",
        );

    assert_eq!(
        balance.available,
        1000
    );

    assert_eq!(
        balance.locked,
        0
    );
}

#[test]
fn double_consume_is_rejected() {
    let mut balances =
        BalanceLedger::new();

    balances
        .deposit(
            "alice",
            "USDT",
            1000,
        )
        .unwrap();

    let mut manager =
        ReservationManager::new(
            balances
        );

    let id =
        manager
            .reserve(
                &order(),
                "USDT",
                500,
            )
            .unwrap();

    manager
        .consume(&id, 500)
        .unwrap();

    let result =
        manager.consume(&id, 1);

    assert!(matches!(
        result,
        Err(
            ReservationError
                ::AlreadyFinished
        )
    ));
}
