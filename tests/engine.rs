use payments_engine::{
    Amount, Chargeback, ClientId, Deposit, Dispute, DisputeStatus,
    PaymentsEngine, Resolve, Transaction, TransactionId, Withdraw,
};

fn ledger(units: i128) -> Amount {
    Amount::new(units, 4)
}

fn deposit(tx: u32, client: u16, amount: Amount) -> Deposit {
    Deposit {
        transaction_id: TransactionId(tx),
        client_id: ClientId(client),
        amount,
        dispute_status: DisputeStatus::NotDisputed,
    }
}

fn withdraw(tx: u32, client: u16, amount: Amount) -> Withdraw {
    Withdraw { transaction_id: TransactionId(tx), client_id: ClientId(client), amount }
}

fn dispute(client: u16, target: u32) -> Transaction {
    Transaction::Dispute(Dispute {
        client_id: ClientId(client),
        target_transaction_id: TransactionId(target),
    })
}

fn resolve(client: u16, target: u32) -> Transaction {
    Transaction::Resolve(Resolve {
        client_id: ClientId(client),
        target_transaction_id: TransactionId(target),
    })
}

fn chargeback(client: u16, target: u32) -> Transaction {
    Transaction::Chargeback(Chargeback {
        client_id: ClientId(client),
        target_transaction_id: TransactionId(target),
    })
}

fn with_status(d: Deposit, amount: Amount, status: DisputeStatus) -> Transaction {
    Transaction::Deposit(Deposit { amount, dispute_status: status, ..d })
}

fn deposit_to_new_client(amount: Amount, expected: Amount) {
    let mut payments_engine = PaymentsEngine::new();
    let d = deposit(1, 1, amount);
    payments_engine.recv_tx(Transaction::Deposit(d)).expect("deposit amount error");
    let client = payments_engine.get_client(ClientId(1)).expect("client id doesn't exist...");
    assert_eq!(client.client_id, ClientId(1));
    assert_eq!(client.available, expected);
    assert_eq!(client.held, Amount::zero());
    assert!(!client.locked);
    assert_eq!(
        client.transaction(TransactionId(1)),
        Some(with_status(d, expected, DisputeStatus::NotDisputed))
    );
}

#[test]
fn deposit_to_non_existing_client_id_one_hundred() {
    deposit_to_new_client(Amount::new(100, 0), ledger(1_000_000));
}

#[test]
fn deposit_to_non_existing_client_id_minimum() {
    deposit_to_new_client(Amount::new(1, 4), ledger(1));
}

#[test]
fn deposit_to_non_existing_client_id_maximum() {
    deposit_to_new_client(Amount::new(50000, 0), ledger(500_000_000));
}

#[test]
fn deposit_to_existing_client_id() {
    let mut payments_engine = PaymentsEngine::new();
    let first = deposit(1, 1, Amount::new(100, 0));
    let second = deposit(2, 1, Amount::new(100, 0));
    payments_engine.recv_tx(Transaction::Deposit(first)).expect("deposit amount error");
    payments_engine.recv_tx(Transaction::Deposit(second)).expect("deposit amount error");
    let client = payments_engine.get_client(ClientId(1)).expect("client id doesn't exist");
    assert_eq!(client.available, ledger(1_000_000).checked_add(ledger(1_000_000)));
    assert_eq!(client.held, Amount::zero());
    assert!(!client.locked);
    assert_eq!(
        client.transaction(TransactionId(1)),
        Some(with_status(first, ledger(1_000_000), DisputeStatus::NotDisputed))
    );
    assert_eq!(
        client.transaction(TransactionId(2)),
        Some(with_status(second, ledger(1_000_000), DisputeStatus::NotDisputed))
    );
}

#[test]
fn withdraw_from_client_id() {
    let mut payments_engine = PaymentsEngine::new();
    let d = deposit(1, 1, Amount::new(100, 0));
    let w = withdraw(2, 1, Amount::new(100, 0));
    payments_engine.recv_tx(Transaction::Deposit(d)).expect("deposit amount error");
    payments_engine.recv_tx(Transaction::Withdraw(w)).expect("withdraw amount error");
    let client = payments_engine.get_client(ClientId(1)).expect("client id doesn't exist...");
    assert_eq!(client.available, ledger(1_000_000).checked_subtract(ledger(1_000_000)));
    assert_eq!(client.held, Amount::zero());
    assert!(!client.locked);
    assert_eq!(
        client.transaction(TransactionId(2)),
        Some(Transaction::Withdraw(Withdraw { amount: ledger(1_000_000), ..w }))
    );
}

#[test]
#[should_panic]
fn withdraw_insufficient_amount_from_client_id() {
    let mut payments_engine = PaymentsEngine::new();
    let d = deposit(1, 1, Amount::new(1, 0));
    payments_engine.recv_tx(Transaction::Deposit(d)).expect("deposit amount error");
    let w = withdraw(2, 1, Amount::new(100, 0));
    payments_engine.recv_tx(Transaction::Withdraw(w)).expect("withdraw amount error");
}

#[test]
fn dispute_a_deposit() {
    let mut payments_engine = PaymentsEngine::new();
    let d = deposit(1, 1, Amount::new(100, 0));
    payments_engine.recv_tx(Transaction::Deposit(d)).expect("deposit amount error");
    payments_engine.recv_tx(dispute(1, 1)).expect("dispute error");
    let client = payments_engine.get_client(ClientId(1)).expect("client id doesn't exist...");
    assert_eq!(client.available, Amount::zero());
    assert_eq!(client.held, ledger(1_000_000));
    assert!(!client.locked);
    assert_eq!(
        client.transaction(TransactionId(1)),
        Some(with_status(d, ledger(1_000_000), DisputeStatus::Disputed))
    );
}

#[test]
#[should_panic]
fn dispute_a_non_deposit() {
    let mut payments_engine = PaymentsEngine::new();
    let d = deposit(1, 1, Amount::new(100, 0));
    let w = withdraw(2, 1, Amount::new(100, 0));
    payments_engine.recv_tx(Transaction::Deposit(d)).expect("deposit amount error");
    payments_engine.recv_tx(Transaction::Withdraw(w)).expect("withdraw amount error");
    payments_engine.recv_tx(dispute(1, 2)).expect("dispute error");
}

#[test]
fn resolve_a_dispute() {
    let mut payments_engine = PaymentsEngine::new();
    let d = deposit(1, 1, Amount::new(100, 0));
    payments_engine.recv_tx(Transaction::Deposit(d)).expect("deposit amount error");
    payments_engine.recv_tx(dispute(1, 1)).expect("dispute error");
    payments_engine.recv_tx(resolve(1, 1)).expect("resolve error");
    let client = payments_engine.get_client(ClientId(1)).expect("client id doesn't exist...");
    assert_eq!(client.available, ledger(1_000_000));
    assert_eq!(client.held, Amount::zero());
    assert!(!client.locked);
    assert_eq!(
        client.transaction(TransactionId(1)),
        Some(with_status(d, ledger(1_000_000), DisputeStatus::Resolved))
    );
}

#[test]
fn chargeback_a_dispute() {
    let mut payments_engine = PaymentsEngine::new();
    let d = deposit(1, 1, Amount::new(100, 0));
    payments_engine.recv_tx(Transaction::Deposit(d)).expect("deposit amount error");
    payments_engine.recv_tx(dispute(1, 1)).expect("dispute error");
    payments_engine.recv_tx(chargeback(1, 1)).expect("chargeback error");
    let client = payments_engine.get_client(ClientId(1)).expect("client id doesn't exist...");
    assert_eq!(client.available, Amount::zero());
    assert_eq!(client.held, Amount::zero());
    assert!(client.locked);
    assert_eq!(
        client.transaction(TransactionId(1)),
        Some(with_status(d, ledger(1_000_000), DisputeStatus::Chargebacked))
    );
}
