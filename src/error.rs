//! The errors that refuse a transaction.

use vstd::prelude::*;

verus! {

/// Why a transaction was refused. A refused transaction leaves the ledger as it was.
#[derive(Clone, Copy, Debug, PartialEq, Eq, Structural)]
pub enum Error {
    /// A deposit of less than 0.0001.
    DepositBelowMinimum,
    /// A deposit of more than 50000.
    DepositAboveMaximum,
    /// A withdrawal of less than 0.0001.
    WithdrawBelowMinimum,
    /// A withdrawal of more than 50000.
    WithdrawAboveMaximum,
    /// The client's available funds do not cover the amount.
    InsufficientFunds,
    /// No deposit has ever created this client.
    UnknownClient,
    /// The client has no recorded transaction with the target id.
    UnknownTransaction,
    /// The dispute targets a withdrawal.
    DisputeOfNonDeposit,
    /// The resolve targets a withdrawal.
    ResolveOfNonDeposit,
    /// The chargeback targets a withdrawal.
    ChargebackOfNonDeposit,
    /// The disputed deposit is not in the `NotDisputed` state.
    AlreadyDisputed,
    /// The resolved deposit is not in the `Disputed` state.
    AlreadyResolvedOrNotDisputed,
    /// The charged-back deposit is not in the `Disputed` state.
    NotUnderDispute,
    /// The client is locked and the engine's policy freezes locked clients.
    ClientLocked,
}


/// `r` reports the outcome of a step from `before`: on success the state
/// became the step's result, on failure it stayed as it was and the step's
/// error came back.
pub open spec fn outcome<S>(r: Result<(), Error>, before: S, after: S, step: Result<S, Error>) -> bool {
    match step {
        Ok(s) => r is Ok && after == s,
        Err(e) => r == Err::<(), Error>(e) && after == before,
    }
}

} // verus!
