//! A ledger of client balances driven by a stream of deposits, withdrawals
//! and the dispute lifecycle of deposits, with exact fixed-point amounts.

pub mod amount;
pub mod client;
pub mod engine;
pub mod error;
pub mod laws;
pub mod transaction;

pub use amount::Amount;
pub use client::Client;
pub use engine::{ClientReport, LockPolicy, PaymentsEngine};
pub use error::Error;
pub use transaction::{
    Chargeback, ClientId, Deposit, Dispute, DisputeStatus, Resolve, Transaction, TransactionId,
    Withdraw,
};
