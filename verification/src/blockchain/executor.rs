//! Applying one transaction to the chain state.
use vstd::prelude::*;
use crate::blockchain::state::{credited, same_balances, same_nonces, State, StateError};
use crate::blockchain::transaction::{Transaction, TransactionType, TxView};

verus! {

/// The transaction types the executor applies.
pub open spec fn executable(t: TransactionType) -> bool {
    t == TransactionType::Transfer || t == TransactionType::Mint
}

/// What a transfer that went through did: `amount` moved from one balance
/// to the other, the sender's nonce went up by one (saturating), and
/// nothing else changed.
pub open spec fn transferred(before: State, after: State, from: Seq<char>, to: Seq<char>, asset: Seq<char>, amount: u64) -> bool {
    &&& from != to ==> {
        &&& after.balance_of(from, asset) == before.balance_of(from, asset) - amount
        &&& after.balance_of(to, asset) == before.balance_of(to, asset) + amount
    }
    &&& from == to ==> after.balance_of(from, asset) == before.balance_of(from, asset)
    &&& forall|a: Seq<char>, s: Seq<char>| !((a == from || a == to) && s == asset)
        ==> #[trigger] after.balance_of(a, s) == before.balance_of(a, s)
    &&& after.nonce_of(from) == if before.nonce_of(from) == u64::MAX { u64::MAX } else { (before.nonce_of(from) + 1) as u64 }
    &&& forall|a: Seq<char>| a != from ==> #[trigger] after.nonce_of(a) == before.nonce_of(a)
}

/// When a transfer goes through: the asset is known, the sender has an
/// account holding at least `amount`, and the receiver's balance has room
/// for it.
pub open spec fn transfer_succeeds(s: State, from: Seq<char>, to: Seq<char>, asset: Seq<char>, amount: u64) -> bool {
    &&& s.knows_asset(asset)
    &&& s.view().contains_key(from)
    &&& s.balance_of(from, asset) >= amount
    &&& (from != to ==> s.balance_of(to, asset) + amount <= u64::MAX)
}

/// When a transaction goes through.
pub open spec fn step_succeeds(s: State, t: TxView) -> bool {
    if t.0 == TransactionType::Mint {
        s.knows_asset(t.3) && s.balance_of(t.2, t.3) + t.4 <= u64::MAX
    } else {
        transfer_succeeds(s, t.1, t.2, t.3, t.4)
    }
}

/// What a transaction that went through did: the mint or the transfer,
/// with the receiver's account opened if it was not there, and nothing else.
pub open spec fn step_ok(before: State, after: State, t: TxView) -> bool {
    &&& after.definitions() == before.definitions()
    &&& after.height == before.height
    &&& forall|a: Seq<char>| after.view().contains_key(a) <==> (before.view().contains_key(a) || a == t.2)
    &&& if t.0 == TransactionType::Mint {
        credited(before, after, t.2, t.3, t.4)
    } else {
        transferred(before, after, t.1, t.2, t.3, t.4)
    }
}

pub struct Executor;

impl Executor {
    /// Applies a transfer (debit the sender, credit the receiver, bump the
    /// sender's nonce) or a mint (credit the receiver).
    pub fn execute(state: &mut State, tx: &Transaction) -> (r: Result<(), StateError>)
        requires
            old(state).wf(),
            executable(tx.transaction_type),
        ensures
            final(state).wf(),
            final(state).height == old(state).height,
            final(state).definitions() == old(state).definitions(),
            final(state).registry() == old(state).registry(),
            tx.transaction_type == TransactionType::Mint ==> {
                &&& !old(state).knows_asset(tx.asset@) ==> r == Err::<(), StateError>(StateError::AssetNotFound)
                &&& old(state).knows_asset(tx.asset@) && old(state).balance_of(tx.to@, tx.asset@) + tx.amount > u64::MAX
                    ==> r == Err::<(), StateError>(StateError::Overflow)
                &&& r is Err ==> same_balances(*old(state), *final(state)) && same_nonces(*old(state), *final(state))
                &&& r is Ok <==> (old(state).knows_asset(tx.asset@)
                    && old(state).balance_of(tx.to@, tx.asset@) + tx.amount <= u64::MAX)
                &&& r is Ok ==> credited(*old(state), *final(state), tx.to@, tx.asset@, tx.amount)
            },
            r is Ok ==> forall|a: Seq<char>| final(state).view().contains_key(a) <==> (old(state).view().contains_key(a) || a == tx.to@),
            r is Ok <==> step_succeeds(*old(state), tx@),
            r is Ok ==> step_ok(*old(state), *final(state), tx@),
            tx.transaction_type == TransactionType::Transfer ==> {
                &&& !old(state).knows_asset(tx.asset@) ==> r == Err::<(), StateError>(StateError::AssetNotFound)
                    && final(state).view() == old(state).view()
                &&& old(state).knows_asset(tx.asset@) && !old(state).view().contains_key(tx.from@)
                    ==> r == Err::<(), StateError>(StateError::AccountNotFound) && final(state).view() == old(state).view()
                &&& old(state).knows_asset(tx.asset@) && old(state).view().contains_key(tx.from@)
                    && old(state).balance_of(tx.from@, tx.asset@) < tx.amount
                    ==> r == Err::<(), StateError>(StateError::InsufficientBalance) && final(state).view() == old(state).view()
                &&& old(state).knows_asset(tx.asset@) && old(state).view().contains_key(tx.from@)
                    && old(state).balance_of(tx.from@, tx.asset@) >= tx.amount
                    && tx.from@ != tx.to@ && old(state).balance_of(tx.to@, tx.asset@) + tx.amount > u64::MAX
                    ==> r == Err::<(), StateError>(StateError::Overflow)
                &&& r is Ok <==> transfer_succeeds(*old(state), tx.from@, tx.to@, tx.asset@, tx.amount)
                &&& r is Ok ==> transferred(*old(state), *final(state), tx.from@, tx.to@, tx.asset@, tx.amount)
            },
    {
        match tx.transaction_type {
            TransactionType::Transfer => {
                let ghost s0 = *state;
                match state.debit(&tx.from, &tx.asset, tx.amount) {
                    Ok(()) => {},
                    Err(e) => return Err(e),
                }
                let ghost s1 = *state;
                match state.credit(&tx.to, &tx.asset, tx.amount) {
                    Ok(()) => {},
                    Err(e) => {
                        proof {
                            if tx.from@ == tx.to@ {
                                assert(s1.balance_of(tx.to@, tx.asset@) + tx.amount == s0.balance_of(tx.from@, tx.asset@));
                            } else {
                                assert(s1.balance_of(tx.to@, tx.asset@) == s0.balance_of(tx.to@, tx.asset@));
                            }
                        }
                        return Err(e);
                    },
                }
                let ghost s2 = *state;
                state.increase_nonce(&tx.from);
                proof {
                    assert(s1.view().contains_key(tx.from@));
                    assert(s2.view().contains_key(tx.from@));
                    assert(s2.nonce_of(tx.from@) == s0.nonce_of(tx.from@));
                    if tx.from@ != tx.to@ {
                        assert(s1.balance_of(tx.to@, tx.asset@) == s0.balance_of(tx.to@, tx.asset@));
                        assert(s2.balance_of(tx.from@, tx.asset@) == s1.balance_of(tx.from@, tx.asset@));
                    }
                    assert forall|a: Seq<char>, s: Seq<char>| !((a == tx.from@ || a == tx.to@) && s == tx.asset@)
                        implies #[trigger] state.balance_of(a, s) == s0.balance_of(a, s) by {
                        assert(s2.balance_of(a, s) == s1.balance_of(a, s));
                        assert(s1.balance_of(a, s) == s0.balance_of(a, s));
                    }
                    assert forall|a: Seq<char>| state.view().contains_key(a) <==> (s0.view().contains_key(a) || a == tx.to@) by {
                        assert(s1.view().contains_key(a) <==> s0.view().contains_key(a));
                        assert(s2.view().contains_key(a) <==> (s1.view().contains_key(a) || a == tx.to@));
                    }
                    assert forall|a: Seq<char>| a != tx.from@ implies #[trigger] state.nonce_of(a) == s0.nonce_of(a) by {
                        assert(s2.nonce_of(a) == s1.nonce_of(a));
                        assert(s1.nonce_of(a) == s0.nonce_of(a));
                    }
                }
                Ok(())
            },
            TransactionType::Mint => {
                state.credit(&tx.to, &tx.asset, tx.amount)
            },
            _ => {
                assert(false);
                Ok(())
            },
        }
    }
}

/// A transfer that goes through moves value and creates none: the sum of
/// the two balances involved is the same before and after, and every other
/// balance is untouched.
pub proof fn lemma_transfer_conserves(before: State, after: State, from: Seq<char>, to: Seq<char>, asset: Seq<char>, amount: u64)
    requires
        transferred(before, after, from, to, asset, amount),
    ensures
        after.balance_of(from, asset) + after.balance_of(to, asset) == before.balance_of(from, asset) + before.balance_of(to, asset),
        forall|a: Seq<char>| a != from && a != to ==> #[trigger] after.balance_of(a, asset) == before.balance_of(a, asset),
{
    assert forall|a: Seq<char>| a != from && a != to implies #[trigger] after.balance_of(a, asset) == before.balance_of(a, asset) by {
        assert(!((a == from || a == to) && asset == asset));
    }
}

} // verus!
