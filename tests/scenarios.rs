use payments_engine::{
    Amount, Chargeback, ClientId, Deposit, Dispute, DisputeStatus, Error, LockPolicy,
    PaymentsEngine, Resolve, Transaction, TransactionId, Withdraw,
};

fn ledger(units: i128) -> Amount {
    Amount::new(units, 4)
}

fn dep(tx: u32, client: u16, mantissa: i128, scale: u32) -> Transaction {
    Transaction::Deposit(Deposit {
        transaction_id: TransactionId(tx),
        client_id: ClientId(client),
        amount: Amount::new(mantissa, scale),
        dispute_status: DisputeStatus::NotDisputed,
    })
}

fn wd(tx: u32, client: u16, mantissa: i128, scale: u32) -> Transaction {
    Transaction::Withdraw(Withdraw {
        transaction_id: TransactionId(tx),
        client_id: ClientId(client),
        amount: Amount::new(mantissa, scale),
    })
}

fn dis(client: u16, target: u32) -> Transaction {
    Transaction::Dispute(Dispute {
        client_id: ClientId(client),
        target_transaction_id: TransactionId(target),
    })
}

fn res(client: u16, target: u32) -> Transaction {
    Transaction::Resolve(Resolve {
        client_id: ClientId(client),
        target_transaction_id: TransactionId(target),
    })
}

fn cb(client: u16, target: u32) -> Transaction {
    Transaction::Chargeback(Chargeback {
        client_id: ClientId(client),
        target_transaction_id: TransactionId(target),
    })
}

fn balances(e: &PaymentsEngine, client: u16) -> (Amount, Amount, bool) {
    let c = e.get_client(ClientId(client)).expect("client exists");
    (c.available, c.held, c.locked)
}

#[test]
fn scenario_deposit_dispute_resolve() {
    let mut e = PaymentsEngine::new();
    assert_eq!(e.recv_tx(dep(1, 1, 10000, 2)), Ok(()));
    assert_eq!(e.recv_tx(dis(1, 1)), Ok(()));
    assert_eq!(e.recv_tx(res(1, 1)), Ok(()));
    assert_eq!(balances(&e, 1), (ledger(1_000_000), ledger(0), false));
}

#[test]
fn scenario_deposit_dispute_chargeback() {
    let mut e = PaymentsEngine::new();
    assert_eq!(e.recv_tx(dep(1, 1, 10000, 2)), Ok(()));
    assert_eq!(e.recv_tx(dis(1, 1)), Ok(()));
    assert_eq!(e.recv_tx(cb(1, 1)), Ok(()));
    assert_eq!(balances(&e, 1), (ledger(0), ledger(0), true));
}

#[test]
fn scenario_withdraw_more_than_available() {
    let mut e = PaymentsEngine::new();
    assert_eq!(e.recv_tx(dep(1, 2, 50000, 4)), Ok(()));
    assert_eq!(e.recv_tx(wd(2, 2, 100000, 4)), Err(Error::InsufficientFunds));
    assert_eq!(balances(&e, 2), (ledger(50000), ledger(0), false));
    assert_eq!(e.get_client(ClientId(2)).unwrap().transaction(TransactionId(2)), None);
}

#[test]
fn deposits_add_up_exactly() {
    let mut e = PaymentsEngine::new();
    assert_eq!(e.recv_tx(dep(1, 7, 15, 1)), Ok(()));
    assert_eq!(e.recv_tx(dep(2, 7, 225, 2)), Ok(()));
    assert_eq!(e.recv_tx(dep(3, 7, 1, 5)), Err(Error::DepositBelowMinimum));
    assert_eq!(e.recv_tx(dep(4, 7, 3, 0)), Ok(()));
    assert_eq!(e.recv_tx(dep(5, 7, 123456, 6)), Ok(()));
    assert_eq!(balances(&e, 7), (ledger(67500 + 1235), ledger(0), false));
}

#[test]
fn rounding_is_half_to_even() {
    let mut e = PaymentsEngine::new();
    assert_eq!(e.recv_tx(dep(1, 1, 100005, 5)), Ok(()));
    assert_eq!(balances(&e, 1).0, ledger(10000));
    assert_eq!(e.recv_tx(dep(2, 2, 100015, 5)), Ok(()));
    assert_eq!(balances(&e, 2).0, ledger(10002));
    assert_eq!(e.recv_tx(dep(3, 3, 1000051, 6)), Ok(()));
    assert_eq!(balances(&e, 3).0, ledger(10001));
    assert_eq!(e.recv_tx(dep(4, 4, 12, 1)), Ok(()));
    assert_eq!(balances(&e, 4).0, ledger(12000));
}

#[test]
fn validation_bounds() {
    assert_eq!(Amount::check_and_round_deposit(Amount::new(1, 4)), Ok(ledger(1)));
    assert_eq!(Amount::check_and_round_deposit(Amount::new(9, 5)), Err(Error::DepositBelowMinimum));
    assert_eq!(Amount::check_and_round_deposit(Amount::new(0, 0)), Err(Error::DepositBelowMinimum));
    assert_eq!(Amount::check_and_round_deposit(Amount::new(-5, 0)), Err(Error::DepositBelowMinimum));
    assert_eq!(Amount::check_and_round_deposit(Amount::new(50000, 0)), Ok(ledger(500_000_000)));
    assert_eq!(
        Amount::check_and_round_deposit(Amount::new(500000001, 4)),
        Err(Error::DepositAboveMaximum)
    );
    assert_eq!(
        Amount::check_and_round_withdraw(Amount::new(9, 5)),
        Err(Error::WithdrawBelowMinimum)
    );
    assert_eq!(
        Amount::check_and_round_withdraw(Amount::new(50001, 0)),
        Err(Error::WithdrawAboveMaximum)
    );
    assert_eq!(Amount::check_and_round_withdraw(Amount::new(25, 1)), Ok(ledger(25000)));
}

#[test]
fn checked_arithmetic() {
    assert_eq!(ledger(15).checked_add(ledger(27)), ledger(42));
    assert_eq!(ledger(15).checked_subtract(ledger(27)), ledger(-12));
}

#[test]
fn unknown_client_and_transaction() {
    let mut e = PaymentsEngine::new();
    assert_eq!(e.recv_tx(wd(1, 9, 1, 0)), Err(Error::UnknownClient));
    assert_eq!(e.recv_tx(dis(9, 1)), Err(Error::UnknownClient));
    assert_eq!(e.recv_tx(dep(1, 9, 1, 0)), Ok(()));
    assert_eq!(e.recv_tx(dis(9, 2)), Err(Error::UnknownTransaction));
    assert_eq!(e.recv_tx(res(9, 2)), Err(Error::UnknownTransaction));
    assert_eq!(e.recv_tx(cb(9, 2)), Err(Error::UnknownTransaction));
    assert_eq!(e.recv_tx(dis(8, 1)), Err(Error::UnknownClient));
}

#[test]
fn withdrawal_cannot_be_disputed() {
    let mut e = PaymentsEngine::new();
    assert_eq!(e.recv_tx(dep(1, 1, 10, 0)), Ok(()));
    assert_eq!(e.recv_tx(wd(2, 1, 4, 0)), Ok(()));
    assert_eq!(e.recv_tx(dis(1, 2)), Err(Error::DisputeOfNonDeposit));
    assert_eq!(e.recv_tx(res(1, 2)), Err(Error::ResolveOfNonDeposit));
    assert_eq!(e.recv_tx(cb(1, 2)), Err(Error::ChargebackOfNonDeposit));
    assert_eq!(balances(&e, 1), (ledger(60000), ledger(0), false));
}

#[test]
fn dispute_lifecycle_errors() {
    let mut e = PaymentsEngine::new();
    assert_eq!(e.recv_tx(dep(1, 1, 10, 0)), Ok(()));
    assert_eq!(e.recv_tx(res(1, 1)), Err(Error::AlreadyResolvedOrNotDisputed));
    assert_eq!(e.recv_tx(cb(1, 1)), Err(Error::NotUnderDispute));
    assert_eq!(e.recv_tx(dis(1, 1)), Ok(()));
    assert_eq!(e.recv_tx(dis(1, 1)), Err(Error::AlreadyDisputed));
    assert_eq!(balances(&e, 1), (ledger(0), ledger(100000), false));
    assert_eq!(e.recv_tx(res(1, 1)), Ok(()));
    assert_eq!(e.recv_tx(res(1, 1)), Err(Error::AlreadyResolvedOrNotDisputed));
    assert_eq!(e.recv_tx(cb(1, 1)), Err(Error::NotUnderDispute));
    assert_eq!(e.recv_tx(dis(1, 1)), Err(Error::AlreadyDisputed));
    assert_eq!(balances(&e, 1), (ledger(100000), ledger(0), false));
}

#[test]
fn charged_back_deposit_is_final() {
    let mut e = PaymentsEngine::new();
    assert_eq!(e.recv_tx(dep(1, 1, 10, 0)), Ok(()));
    assert_eq!(e.recv_tx(dep(2, 1, 5, 0)), Ok(()));
    assert_eq!(e.recv_tx(dis(1, 1)), Ok(()));
    assert_eq!(e.recv_tx(cb(1, 1)), Ok(()));
    assert_eq!(e.recv_tx(cb(1, 1)), Err(Error::NotUnderDispute));
    assert_eq!(e.recv_tx(res(1, 1)), Err(Error::AlreadyResolvedOrNotDisputed));
    assert_eq!(e.recv_tx(dis(1, 1)), Err(Error::AlreadyDisputed));
    assert_eq!(balances(&e, 1), (ledger(50000), ledger(0), true));
}

#[test]
fn dispute_needs_available_funds() {
    let mut e = PaymentsEngine::new();
    assert_eq!(e.recv_tx(dep(1, 1, 10, 0)), Ok(()));
    assert_eq!(e.recv_tx(wd(2, 1, 10, 0)), Ok(()));
    assert_eq!(e.recv_tx(dis(1, 1)), Err(Error::InsufficientFunds));
    assert_eq!(balances(&e, 1), (ledger(0), ledger(0), false));
}

#[test]
fn lock_policies() {
    let mut advisory = PaymentsEngine::new();
    let mut frozen = PaymentsEngine::with_lock_policy(LockPolicy::Frozen);
    assert_eq!(frozen.lock_policy(), LockPolicy::Frozen);
    for e in [&mut advisory, &mut frozen] {
        assert_eq!(e.recv_tx(dep(1, 1, 10, 0)), Ok(()));
        assert_eq!(e.recv_tx(dep(2, 1, 10, 0)), Ok(()));
        assert_eq!(e.recv_tx(dis(1, 1)), Ok(()));
        assert_eq!(e.recv_tx(cb(1, 1)), Ok(()));
    }
    assert_eq!(advisory.recv_tx(dep(3, 1, 1, 0)), Ok(()));
    assert_eq!(advisory.recv_tx(wd(4, 1, 2, 0)), Ok(()));
    assert_eq!(balances(&advisory, 1), (ledger(90000), ledger(0), true));
    assert_eq!(frozen.recv_tx(dep(3, 1, 1, 0)), Err(Error::ClientLocked));
    assert_eq!(frozen.recv_tx(wd(4, 1, 2, 0)), Err(Error::ClientLocked));
    assert_eq!(frozen.recv_tx(dis(1, 2)), Err(Error::ClientLocked));
    assert_eq!(balances(&frozen, 1), (ledger(100000), ledger(0), true));
}

#[test]
fn snapshot_in_client_order() {
    let mut e = PaymentsEngine::new();
    assert_eq!(e.recv_tx(dep(1, 3, 3, 0)), Ok(()));
    assert_eq!(e.recv_tx(dep(2, 1, 1, 0)), Ok(()));
    assert_eq!(e.recv_tx(dep(3, 65535, 2, 0)), Ok(()));
    assert_eq!(e.recv_tx(dep(4, 3, 4, 0)), Ok(()));
    assert_eq!(e.recv_tx(dis(3, 4)), Ok(()));
    let r = e.snapshot();
    let ids: Vec<u16> = r.iter().map(|x| x.client.0).collect();
    assert_eq!(ids, vec![1, 3, 65535]);
    assert_eq!(r[1].available, ledger(30000));
    assert_eq!(r[1].held, ledger(40000));
    assert_eq!(r[1].total, ledger(70000));
    assert!(!r[1].locked);
    assert!(PaymentsEngine::new().snapshot().is_empty());
}

#[test]
fn fits_for_ordinary_deposits() {
    let mut e = PaymentsEngine::new();
    let t = dep(1, 1, 50000, 0);
    assert!(e.fits(&t));
    assert_eq!(e.recv_tx(t), Ok(()));
    assert!(e.fits(&dep(2, 1, 50000, 0)));
    let c = e.get_client(ClientId(1)).unwrap();
    assert_eq!(c.total(), ledger(500_000_000));
}
