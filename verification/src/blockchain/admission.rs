//! Admission checks on a transaction before it enters the mempool.
use vstd::prelude::*;
use crate::blockchain::state::State;
use crate::blockchain::transaction::{Transaction, TransactionType, TxView};
use crate::wallet::Address;

verus! {

#[derive(Debug, Clone, Copy, PartialEq, Eq, Structural)]
pub enum VerifyError {
    MissingSignature,
    InvalidAddress,
    InvalidSignature,
    InvalidNonce,
    InsufficientBalance,
}

/// The checks on the sender's account for a transfer or a burn: it exists,
/// its nonce is the transaction's, and it holds the amount.
pub open spec fn account_check(s: State, t: TxView) -> Result<(), VerifyError> {
    if !s.view().contains_key(t.1) {
        Err(VerifyError::InsufficientBalance)
    } else if s.nonce_of(t.1) != t.5 {
        Err(VerifyError::InvalidNonce)
    } else if s.balance_of(t.1, t.3) < t.4 {
        Err(VerifyError::InsufficientBalance)
    } else {
        Ok(())
    }
}

/// What `verify` answers, given the address derived from the transaction's
/// public key and whether its signature verifies.
pub open spec fn verdict(s: State, t: TxView, derived: Seq<char>, signature_valid: bool) -> Result<(), VerifyError> {
    if t.7 is None {
        Err(VerifyError::MissingSignature)
    } else if derived != t.1 {
        Err(VerifyError::InvalidAddress)
    } else if !signature_valid {
        Err(VerifyError::InvalidSignature)
    } else {
        match t.0 {
            TransactionType::Transfer => account_check(s, t),
            TransactionType::Burn => account_check(s, t),
            _ => Ok(()),
        }
    }
}

pub struct Verifier;

impl Verifier {
    /// Checks, in order: there is a signature; `derived`, the address of the
    /// transaction's public key, is the sender; the signature verifies
    /// (`signature_valid`); and for a transfer or a burn, the sender's account
    /// exists with the transaction's nonce and holds the amount.
    pub fn verify(state: &State, tx: &Transaction, derived: &Address, signature_valid: bool) -> (r: Result<(), VerifyError>)
        requires
            state.wf(),
        ensures
            r == verdict(*state, tx@, derived@, signature_valid),
    {
        if tx.signature().is_none() {
            return Err(VerifyError::MissingSignature);
        }
        if !derived.same_as(&tx.from) {
            return Err(VerifyError::InvalidAddress);
        }
        if !signature_valid {
            return Err(VerifyError::InvalidSignature);
        }
        match tx.transaction_type {
            TransactionType::Transfer | TransactionType::Burn => {
                let account = match state.get_account(&tx.from) {
                    Some(account) => account,
                    None => return Err(VerifyError::InsufficientBalance),
                };
                if account.nonce != tx.nonce {
                    return Err(VerifyError::InvalidNonce);
                }
                if account.balance(&tx.asset) < tx.amount {
                    return Err(VerifyError::InsufficientBalance);
                }
                Ok(())
            },
            _ => Ok(()),
        }
    }
}

} // verus!
