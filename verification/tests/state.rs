use pep_core::pepdex::state::{PEPDEXState};


#[test]
fn creates_memory_state() {

    let mut state =
        PEPDEXState::memory();

    assert_eq!(
        state
            .orders
            .all()
            .unwrap()
            .len(),
        0
    );
}


#[test]
fn connects_wallet() {

    let mut state =
        PEPDEXState::memory();

    let address =
        "pep42testwallet";

    assert!(
        !state
            .accounts
            .is_connected(address)
    );

    state
        .accounts
        .connect(address);

    assert!(
        state
            .accounts
            .is_connected(address)
    );
}
