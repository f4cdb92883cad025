//! A client's balances and recorded transactions, and the per-client steps
//! of the ledger's state machine.

use std::collections::HashMap;
use vstd::prelude::*;

use crate::amount::{Amount, LEDGER_SCALE, MAX_LEDGER_UNITS, MAX_MANTISSA};
use crate::error::{outcome, Error};
use crate::transaction::{ClientId, Deposit, DisputeStatus, Transaction, TransactionId, Withdraw};

verus! {

broadcast use vstd::std_specs::hash::group_hash_axioms;

/// Number of transaction ids.
pub const TRANSACTION_ID_COUNT: u64 = 0x1_0000_0000;

/// A client as the ledger sees it. Amounts are in units of 0.0001.
pub ghost struct ClientState {
    pub available: int,
    pub held: int,
    pub locked: bool,
    /// The recorded deposits and withdrawals, by transaction id.
    pub entries: Map<u32, Transaction>,
}

impl ClientState {
    /// `available + held`.
    pub open spec fn total(self) -> int {
        self.available + self.held
    }
}

/// What the deposit with id `k` contributes to the held funds: its amount
/// while it is disputed, else nothing.
pub open spec fn held_part(e: Map<u32, Transaction>, k: u32) -> int {
    if e.contains_key(k) {
        match e[k] {
            Transaction::Deposit(d) => if d.dispute_status == DisputeStatus::Disputed {
                d.amount.mantissa as int
            } else {
                0
            },
            _ => 0,
        }
    } else {
        0
    }
}

/// The amounts of the disputed deposits with an id below `n`.
pub open spec fn disputed_below(e: Map<u32, Transaction>, n: nat) -> int
    decreases n,
{
    if n == 0 {
        0
    } else {
        disputed_below(e, (n - 1) as nat) + held_part(e, (n - 1) as u32)
    }
}

/// The amounts of all disputed deposits.
pub open spec fn disputed_sum(e: Map<u32, Transaction>) -> int {
    disputed_below(e, TRANSACTION_ID_COUNT as nat)
}

/// A recorded entry: a deposit or a withdrawal of the client, under its own
/// id, with an amount of the ledger between 0.0001 and 50000.
pub open spec fn entry_wf(t: Transaction, k: u32, client: ClientId) -> bool {
    match t {
        Transaction::Deposit(d) => {
            &&& d.transaction_id.0 == k
            &&& d.client_id == client
            &&& d.amount.scale == LEDGER_SCALE
            &&& 1 <= d.amount.mantissa <= MAX_LEDGER_UNITS
        },
        Transaction::Withdraw(w) => {
            &&& w.transaction_id.0 == k
            &&& w.client_id == client
            &&& w.amount.scale == LEDGER_SCALE
            &&& 1 <= w.amount.mantissa <= MAX_LEDGER_UNITS
        },
        _ => false,
    }
}

/// The invariant of a client: balances that are never negative, a total
/// within the decimal range, held funds that cover every open dispute, and
/// entries of its own.
pub open spec fn state_wf(c: ClientState, client: ClientId) -> bool {
    &&& 0 <= c.available
    &&& 0 <= c.held
    &&& c.available + c.held <= MAX_MANTISSA
    &&& disputed_sum(c.entries) <= c.held
    &&& forall|k: u32| #[trigger] c.entries.contains_key(k) ==> entry_wf(c.entries[k], k, client)
}

/// The entry that an accepted deposit leaves: its ledger amount, not disputed.
pub open spec fn deposit_entry(d: Deposit, amount: Amount) -> Transaction {
    Transaction::Deposit(
        Deposit {
            transaction_id: d.transaction_id,
            client_id: d.client_id,
            amount,
            dispute_status: DisputeStatus::NotDisputed,
        },
    )
}

/// The entry that an accepted withdrawal leaves: its ledger amount.
pub open spec fn withdraw_entry(w: Withdraw, amount: Amount) -> Transaction {
    Transaction::Withdraw(
        Withdraw { transaction_id: w.transaction_id, client_id: w.client_id, amount },
    )
}

/// The client that a first deposit creates.
pub open spec fn opened(d: Deposit, amount: Amount) -> ClientState {
    ClientState {
        available: amount.mantissa as int,
        held: 0,
        locked: false,
        entries: Map::empty().insert(d.transaction_id.0, deposit_entry(d, amount)),
    }
}

/// A deposit of `amount` (validated) to an existing client.
pub open spec fn credited(c: ClientState, d: Deposit, amount: Amount) -> ClientState {
    ClientState {
        available: c.available + amount.mantissa,
        entries: c.entries.insert(d.transaction_id.0, deposit_entry(d, amount)),
        ..c
    }
}

/// A withdrawal of `amount` (validated): refused when it exceeds the available funds.
pub open spec fn debited(c: ClientState, w: Withdraw, amount: Amount) -> Result<
    ClientState,
    Error,
> {
    if c.available < amount.mantissa {
        Err(Error::InsufficientFunds)
    } else {
        Ok(
            ClientState {
                available: c.available - amount.mantissa,
                entries: c.entries.insert(w.transaction_id.0, withdraw_entry(w, amount)),
                ..c
            },
        )
    }
}

/// `d` with a new dispute status.
pub open spec fn with_status(d: Deposit, status: DisputeStatus) -> Transaction {
    Transaction::Deposit(Deposit { dispute_status: status, ..d })
}

/// A dispute of entry `target`: only a deposit that was never disputed, whose
/// amount the available funds still cover, moves from available to held.
pub open spec fn disputed(c: ClientState, target: u32) -> Result<ClientState, Error> {
    if !c.entries.contains_key(target) {
        Err(Error::UnknownTransaction)
    } else {
        match c.entries[target] {
            Transaction::Deposit(d) => if d.dispute_status != DisputeStatus::NotDisputed {
                Err(Error::AlreadyDisputed)
            } else if c.available < d.amount.mantissa {
                Err(Error::InsufficientFunds)
            } else {
                Ok(
                    ClientState {
                        available: c.available - d.amount.mantissa,
                        held: c.held + d.amount.mantissa,
                        entries: c.entries.insert(
                            target,
                            with_status(d, DisputeStatus::Disputed),
                        ),
                        ..c
                    },
                )
            },
            _ => Err(Error::DisputeOfNonDeposit),
        }
    }
}

/// A resolve of entry `target`: only a disputed deposit goes back from held
/// to available.
pub open spec fn resolved(c: ClientState, target: u32) -> Result<ClientState, Error> {
    if !c.entries.contains_key(target) {
        Err(Error::UnknownTransaction)
    } else {
        match c.entries[target] {
            Transaction::Deposit(d) => if d.dispute_status != DisputeStatus::Disputed {
                Err(Error::AlreadyResolvedOrNotDisputed)
            } else {
                Ok(
                    ClientState {
                        available: c.available + d.amount.mantissa,
                        held: c.held - d.amount.mantissa,
                        entries: c.entries.insert(
                            target,
                            with_status(d, DisputeStatus::Resolved),
                        ),
                        ..c
                    },
                )
            },
            _ => Err(Error::ResolveOfNonDeposit),
        }
    }
}

/// A chargeback of entry `target`: only a disputed deposit leaves the held
/// funds, and the client is locked.
pub open spec fn charged_back(c: ClientState, target: u32) -> Result<ClientState, Error> {
    if !c.entries.contains_key(target) {
        Err(Error::UnknownTransaction)
    } else {
        match c.entries[target] {
            Transaction::Deposit(d) => if d.dispute_status != DisputeStatus::Disputed {
                Err(Error::NotUnderDispute)
            } else {
                Ok(
                    ClientState {
                        held: c.held - d.amount.mantissa,
                        locked: true,
                        entries: c.entries.insert(
                            target,
                            with_status(d, DisputeStatus::Chargebacked),
                        ),
                        ..c
                    },
                )
            },
            _ => Err(Error::ChargebackOfNonDeposit),
        }
    }
}

/// Replacing entry `k` changes the sum of disputed amounts below `n` by the
/// change of its own part, when `k < n`.
pub proof fn lemma_disputed_below_insert(e: Map<u32, Transaction>, k: u32, v: Transaction, n: nat)
    requires
        n <= TRANSACTION_ID_COUNT as nat,
    ensures
        disputed_below(e.insert(k, v), n) == disputed_below(e, n) + if (k as nat) < n {
            held_part(e.insert(k, v), k) - held_part(e, k)
        } else {
            0
        },
    decreases n,
{
    if n > 0 {
        lemma_disputed_below_insert(e, k, v, (n - 1) as nat);
        let j = (n - 1) as u32;
        if j != k {
            assert(e.insert(k, v).contains_key(j) == e.contains_key(j));
            if e.contains_key(j) {
                assert(e.insert(k, v)[j] == e[j]);
            }
        }
    }
}

/// With no negative part, the sum of disputed amounts is not negative.
pub proof fn lemma_disputed_below_nonneg(e: Map<u32, Transaction>, n: nat)
    requires
        forall|k: u32| #[trigger] held_part(e, k) >= 0,
    ensures
        disputed_below(e, n) >= 0,
    decreases n,
{
    if n > 0 {
        lemma_disputed_below_nonneg(e, (n - 1) as nat);
        assert(held_part(e, (n - 1) as u32) >= 0);
    }
}


/// Below any `n`, an empty map has no disputed amount.
pub proof fn lemma_disputed_below_empty(n: nat)
    ensures
        disputed_below(Map::<u32, Transaction>::empty(), n) == 0,
    decreases n,
{
    if n > 0 {
        lemma_disputed_below_empty((n - 1) as nat);
    }
}

/// The parts of a client's entries are never negative.
proof fn lemma_held_parts_nonneg(c: ClientState, client: ClientId)
    requires
        state_wf(c, client),
    ensures
        forall|k: u32| #[trigger] held_part(c.entries, k) >= 0,
{
    assert forall|k: u32| #[trigger] held_part(c.entries, k) >= 0 by {
        if c.entries.contains_key(k) {
            assert(entry_wf(c.entries[k], k, client));
        }
    }
}

/// Replacing entry `k` of a client changes the disputed sum by the change of
/// its part, and the new sum is not negative when no part is.
proof fn lemma_replace_entry(c: ClientState, client: ClientId, k: u32, v: Transaction)
    requires
        state_wf(c, client),
        entry_wf(v, k, client),
    ensures
        disputed_sum(c.entries.insert(k, v)) == disputed_sum(c.entries) + held_part(
            c.entries.insert(k, v),
            k,
        ) - held_part(c.entries, k),
        disputed_sum(c.entries.insert(k, v)) >= 0,
        held_part(c.entries, k) >= 0,
        forall|j: u32| #[trigger]
            c.entries.insert(k, v).contains_key(j) ==> entry_wf(c.entries.insert(k, v)[j], j, client),
{
    lemma_disputed_below_insert(c.entries, k, v, TRANSACTION_ID_COUNT as nat);
    lemma_held_parts_nonneg(c, client);
    let e = c.entries.insert(k, v);
    assert forall|j: u32| #[trigger] held_part(e, j) >= 0 by {
        if j != k && e.contains_key(j) {
            assert(entry_wf(c.entries[j], j, client));
        }
    }
    lemma_disputed_below_nonneg(e, TRANSACTION_ID_COUNT as nat);
    assert forall|j: u32| #[trigger] e.contains_key(j) implies entry_wf(e[j], j, client) by {
        if j != k {
            assert(c.entries.contains_key(j));
        }
    }
}

/// A client: its balances, its lock flag and the deposits and withdrawals
/// recorded for it, by transaction id.
#[derive(Debug)]
pub struct Client {
    pub client_id: ClientId,
    pub available: Amount,
    pub held: Amount,
    pub locked: bool,
    pub transaction_list: HashMap<u32, Transaction>,
}

impl View for Client {
    type V = ClientState;

    open spec fn view(&self) -> ClientState {
        ClientState {
            available: self.available.mantissa as int,
            held: self.held.mantissa as int,
            locked: self.locked,
            entries: self.entries(),
        }
    }
}

impl Client {
    /// The recorded deposits and withdrawals, by transaction id.
    pub open spec fn entries(&self) -> Map<u32, Transaction> {
        self.transaction_list@
    }

    /// Balances at the ledger's scale, and the invariant of `state_wf`.
    pub open spec fn wf(&self) -> bool {
        &&& self.available.scale == LEDGER_SCALE
        &&& self.held.scale == LEDGER_SCALE
        &&& state_wf(self@, self.client_id)
    }

    /// The client that its first deposit creates, given the deposit's
    /// validated amount.
    pub(crate) fn new_with_deposit(deposit: Deposit, amount: Amount) -> (r: Client)
        requires
            amount.scale == LEDGER_SCALE,
            1 <= amount.mantissa <= MAX_LEDGER_UNITS,
        ensures
            r.wf(),
            r.client_id == deposit.client_id,
            r@ == opened(deposit, amount),
    {
        let entry = Transaction::Deposit(
            Deposit {
                transaction_id: deposit.transaction_id,
                client_id: deposit.client_id,
                amount,
                dispute_status: DisputeStatus::NotDisputed,
            },
        );
        let mut transaction_list = HashMap::new();
        transaction_list.insert(deposit.transaction_id.0, entry);
        let r = Client {
            client_id: deposit.client_id,
            available: amount,
            held: Amount::zero(),
            locked: false,
            transaction_list,
        };
        proof {
            let k = deposit.transaction_id.0;
            lemma_disputed_below_empty(TRANSACTION_ID_COUNT as nat);
            lemma_disputed_below_insert(Map::empty(), k, entry, TRANSACTION_ID_COUNT as nat);
            assert(r@.entries =~= Map::empty().insert(k, entry));
            assert forall|j: u32| #[trigger] r@.entries.contains_key(j) implies entry_wf(
                r@.entries[j],
                j,
                r.client_id,
            ) by {
                assert(j == k);
            }
        }
        r
    }

    /// The recorded transaction with id `id`.
    pub fn transaction(&self, id: TransactionId) -> (r: Option<Transaction>)
        ensures
            r == (if self@.entries.contains_key(id.0) {
                Some(self@.entries[id.0])
            } else {
                None
            }),
    {
        match self.transaction_list.get(&id.0) {
            Some(t) => Some(*t),
            None => None,
        }
    }

    /// `available + held`.
    pub fn total(&self) -> (r: Amount)
        requires
            self.wf(),
        ensures
            r.mantissa == self@.total(),
            r.scale == LEDGER_SCALE,
    {
        self.available.checked_add(self.held)
    }

    /// Credits a validated deposit.
    pub(crate) fn deposit(&mut self, d: Deposit, amount: Amount)
        requires
            old(self).wf(),
            d.client_id == old(self).client_id,
            amount.scale == LEDGER_SCALE,
            1 <= amount.mantissa <= MAX_LEDGER_UNITS,
            old(self)@.total() + amount.mantissa <= MAX_MANTISSA,
        ensures
            final(self).wf(),
            final(self).client_id == old(self).client_id,
            final(self)@ == credited(old(self)@, d, amount),
    {
        let entry = Transaction::Deposit(
            Deposit {
                transaction_id: d.transaction_id,
                client_id: d.client_id,
                amount,
                dispute_status: DisputeStatus::NotDisputed,
            },
        );
        proof {
            lemma_replace_entry(self@, self.client_id, d.transaction_id.0, entry);
        }
        self.available = self.available.checked_add(amount);
        self.transaction_list.insert(d.transaction_id.0, entry);
    }

    /// Debits a validated withdrawal, unless it exceeds the available funds.
    pub(crate) fn withdraw(&mut self, w: Withdraw, amount: Amount) -> (r: Result<(), Error>)
        requires
            old(self).wf(),
            w.client_id == old(self).client_id,
            amount.scale == LEDGER_SCALE,
            1 <= amount.mantissa <= MAX_LEDGER_UNITS,
        ensures
            final(self).wf(),
            final(self).client_id == old(self).client_id,
            outcome(r, old(self)@, final(self)@, debited(old(self)@, w, amount)),
    {
        if self.available.mantissa < amount.mantissa {
            return Err(Error::InsufficientFunds);
        }
        let entry = Transaction::Withdraw(
            Withdraw { transaction_id: w.transaction_id, client_id: w.client_id, amount },
        );
        proof {
            lemma_replace_entry(self@, self.client_id, w.transaction_id.0, entry);
        }
        self.available = self.available.checked_subtract(amount);
        self.transaction_list.insert(w.transaction_id.0, entry);
        Ok(())
    }

    /// Opens a dispute on a recorded deposit.
    pub(crate) fn dispute(&mut self, target: TransactionId) -> (r: Result<(), Error>)
        requires
            old(self).wf(),
        ensures
            final(self).wf(),
            final(self).client_id == old(self).client_id,
            outcome(r, old(self)@, final(self)@, disputed(old(self)@, target.0)),
    {
        let d = match self.transaction_list.get(&target.0) {
            None => return Err(Error::UnknownTransaction),
            Some(Transaction::Deposit(d)) => *d,
            Some(_) => return Err(Error::DisputeOfNonDeposit),
        };
        match d.dispute_status {
            DisputeStatus::NotDisputed => {},
            _ => return Err(Error::AlreadyDisputed),
        }
        if self.available.mantissa < d.amount.mantissa {
            return Err(Error::InsufficientFunds);
        }
        let entry = Transaction::Deposit(Deposit { dispute_status: DisputeStatus::Disputed, ..d });
        proof {
            assert(entry_wf(self@.entries[target.0], target.0, self.client_id));
            lemma_replace_entry(self@, self.client_id, target.0, entry);
        }
        self.available = self.available.checked_subtract(d.amount);
        self.held = self.held.checked_add(d.amount);
        self.transaction_list.insert(target.0, entry);
        Ok(())
    }

    /// Settles a dispute by returning the deposit's amount to the available funds.
    pub(crate) fn resolve(&mut self, target: TransactionId) -> (r: Result<(), Error>)
        requires
            old(self).wf(),
        ensures
            final(self).wf(),
            final(self).client_id == old(self).client_id,
            outcome(r, old(self)@, final(self)@, resolved(old(self)@, target.0)),
    {
        let d = match self.transaction_list.get(&target.0) {
            None => return Err(Error::UnknownTransaction),
            Some(Transaction::Deposit(d)) => *d,
            Some(_) => return Err(Error::ResolveOfNonDeposit),
        };
        match d.dispute_status {
            DisputeStatus::Disputed => {},
            _ => return Err(Error::AlreadyResolvedOrNotDisputed),
        }
        let entry = Transaction::Deposit(Deposit { dispute_status: DisputeStatus::Resolved, ..d });
        proof {
            assert(entry_wf(self@.entries[target.0], target.0, self.client_id));
            lemma_replace_entry(self@, self.client_id, target.0, entry);
        }
        self.available = self.available.checked_add(d.amount);
        self.held = self.held.checked_subtract(d.amount);
        self.transaction_list.insert(target.0, entry);
        Ok(())
    }

    /// Settles a dispute by reversing the deposit out of the held funds, and
    /// locks the client.
    pub(crate) fn chargeback(&mut self, target: TransactionId) -> (r: Result<(), Error>)
        requires
            old(self).wf(),
        ensures
            final(self).wf(),
            final(self).client_id == old(self).client_id,
            outcome(r, old(self)@, final(self)@, charged_back(old(self)@, target.0)),
    {
        let d = match self.transaction_list.get(&target.0) {
            None => return Err(Error::UnknownTransaction),
            Some(Transaction::Deposit(d)) => *d,
            Some(_) => return Err(Error::ChargebackOfNonDeposit),
        };
        match d.dispute_status {
            DisputeStatus::Disputed => {},
            _ => return Err(Error::NotUnderDispute),
        }
        let entry = Transaction::Deposit(
            Deposit { dispute_status: DisputeStatus::Chargebacked, ..d },
        );
        proof {
            assert(entry_wf(self@.entries[target.0], target.0, self.client_id));
            lemma_replace_entry(self@, self.client_id, target.0, entry);
        }
        self.held = self.held.checked_subtract(d.amount);
        self.locked = true;
        self.transaction_list.insert(target.0, entry);
        Ok(())
    }
}

} // verus!
