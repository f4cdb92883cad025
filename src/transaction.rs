//! Identifiers and the transactions of the input stream.

use vstd::prelude::*;

use crate::amount::Amount;

verus! {

/// Identifies a client; never reused for another client.
#[derive(Clone, Copy, Debug, PartialEq, Eq, Hash, Structural)]
pub struct ClientId(pub u16);

/// Identifies a deposit or a withdrawal; never assigned twice.
#[derive(Clone, Copy, Debug, PartialEq, Eq, Hash, Structural)]
pub struct TransactionId(pub u32);

/// Where a deposit stands in its dispute lifecycle:
/// `NotDisputed -> Disputed -> {Resolved, Chargebacked}`, the last two final.
#[derive(Clone, Copy, Debug, PartialEq, Eq, Structural)]
pub enum DisputeStatus {
    NotDisputed,
    Disputed,
    Resolved,
    Chargebacked,
}

/// One event of the input stream.
#[derive(Clone, Copy, Debug, PartialEq, Eq, Structural)]
pub enum Transaction {
    Deposit(Deposit),
    Withdraw(Withdraw),
    Dispute(Dispute),
    Resolve(Resolve),
    Chargeback(Chargeback),
}

/// Funds credited to a client. Its status is the one part that changes once
/// it is recorded.
#[derive(Clone, Copy, Debug, PartialEq, Eq, Structural)]
pub struct Deposit {
    pub transaction_id: TransactionId,
    pub client_id: ClientId,
    pub amount: Amount,
    pub dispute_status: DisputeStatus,
}

/// Funds debited from a client. A withdrawal cannot be disputed.
#[derive(Clone, Copy, Debug, PartialEq, Eq, Structural)]
pub struct Withdraw {
    pub transaction_id: TransactionId,
    pub client_id: ClientId,
    pub amount: Amount,
}

/// Opens a dispute on an earlier deposit of the same client.
#[derive(Clone, Copy, Debug, PartialEq, Eq, Structural)]
pub struct Dispute {
    pub client_id: ClientId,
    pub target_transaction_id: TransactionId,
}

/// Settles a dispute by returning the held funds to the available ones.
#[derive(Clone, Copy, Debug, PartialEq, Eq, Structural)]
pub struct Resolve {
    pub client_id: ClientId,
    pub target_transaction_id: TransactionId,
}

/// Settles a dispute by reversing the deposit and locking the client.
#[derive(Clone, Copy, Debug, PartialEq, Eq, Structural)]
pub struct Chargeback {
    pub client_id: ClientId,
    pub target_transaction_id: TransactionId,
}

impl Transaction {
    /// Its amount, if it carries one, is a valid decimal.
    pub open spec fn wf(self) -> bool {
        match self {
            Transaction::Deposit(d) => d.amount.wf(),
            Transaction::Withdraw(w) => w.amount.wf(),
            _ => true,
        }
    }
}

} // verus!
