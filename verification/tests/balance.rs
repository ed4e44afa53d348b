use pep_core::pepdex::balance::{BalanceError, BalanceLedger};

use pep_core::pepdex::settlement::{
    SettlementResult,
    SettlementStatus,
};

#[test]
fn deposit_and_withdraw() {
    let mut ledger =
        BalanceLedger::new();

    ledger
        .deposit(
            "alice",
            "USDT",
            1000,
        )
        .expect("deposit failed");

    assert_eq!(
        ledger.available(
            "alice",
            "USDT"
        ),
        1000
    );

    ledger
        .withdraw(
            "alice",
            "USDT",
            300,
        )
        .expect("withdraw failed");

    assert_eq!(
        ledger.available(
            "alice",
            "USDT"
        ),
        700
    );
}

#[test]
fn cannot_withdraw_more_than_available() {
    let mut ledger =
        BalanceLedger::new();

    ledger
        .deposit(
            "alice",
            "USDT",
            100,
        )
        .unwrap();

    let result =
        ledger.withdraw(
            "alice",
            "USDT",
            101,
        );

    assert!(matches!(
        result,
        Err(
            BalanceError
                ::InsufficientAvailable { .. }
        )
    ));
}

#[test]
fn lock_and_unlock() {
    let mut ledger =
        BalanceLedger::new();

    ledger
        .deposit(
            "alice",
            "USDT",
            1000,
        )
        .unwrap();

    ledger
        .lock(
            "alice",
            "USDT",
            400,
        )
        .unwrap();

    let balance =
        ledger.get(
            "alice",
            "USDT"
        );

    assert_eq!(
        balance.available,
        600
    );

    assert_eq!(
        balance.locked,
        400
    );

    ledger
        .unlock(
            "alice",
            "USDT",
            200,
        )
        .unwrap();

    let balance =
        ledger.get(
            "alice",
            "USDT"
        );

    assert_eq!(
        balance.available,
        800
    );

    assert_eq!(
        balance.locked,
        200
    );
}

#[test]
fn buy_settlement_updates_two_assets() {
    let mut ledger =
        BalanceLedger::new();

    ledger
        .deposit(
            "alice",
            "USDT",
            100_000,
        )
        .unwrap();

    let settlement =
        SettlementResult {
            parent_order_id:
                pep_core::pepdex::order::OrderId
                    ::new("ORDER-1"),

            user:
                "alice".to_string(),

            asset:
                "PEP".to_string(),

            quote_asset:
                "USDT".to_string(),

            asset_delta:
                100,

            quote_delta:
                -60_220,

            execution_quantity:
                100,

            execution_cost:
                60_200,

            venue_fee:
                20,

            status:
                SettlementStatus::Settled,
        };

    ledger
        .apply_settlement(
            &settlement
        )
        .expect(
            "settlement failed"
        );

    assert_eq!(
        ledger.available(
            "alice",
            "PEP"
        ),
        100
    );

    assert_eq!(
        ledger.available(
            "alice",
            "USDT"
        ),
        39_780
    );
}

#[test]
fn failed_settlement_does_not_change_balance() {
    let mut ledger =
        BalanceLedger::new();

    ledger
        .deposit(
            "alice",
            "USDT",
            1000,
        )
        .unwrap();

    let settlement =
        SettlementResult {
            parent_order_id:
                pep_core::pepdex::order::OrderId
                    ::new("ORDER-2"),

            user:
                "alice".to_string(),

            asset:
                "PEP".to_string(),

            quote_asset:
                "USDT".to_string(),

            asset_delta:
                100,

            quote_delta:
                -500,

            execution_quantity:
                100,

            execution_cost:
                500,

            venue_fee:
                0,

            status:
                SettlementStatus::Failed,
        };

    let result =
        ledger.apply_settlement(
            &settlement
        );

    assert!(matches!(
        result,
        Err(
            BalanceError
                ::SettlementNotFinal
        )
    ));

    assert_eq!(
        ledger.available(
            "alice",
            "USDT"
        ),
        1000
    );

    assert_eq!(
        ledger.available(
            "alice",
            "PEP"
        ),
        0
    );
}
