//! The ledger: every client by id, and `recv_tx`, which applies one
//! transaction at a time.

use std::collections::HashMap;
use vstd::prelude::*;

use crate::amount::{
    lemma_ledger_amount_in_bounds, validate_deposit, validate_withdrawal, Amount, MAX_MANTISSA,
};
use crate::client::{
    charged_back, credited, debited, disputed, opened, resolved, Client, ClientState,
};
use crate::error::{outcome, Error};
use crate::amount::{LEDGER_SCALE, MAX_LEDGER_UNITS};
use crate::transaction::{ClientId, Deposit, Transaction, TransactionId, Withdraw};

verus! {

broadcast use vstd::std_specs::hash::group_hash_axioms;

/// What the lock that a chargeback sets means for the client's later transactions.
#[derive(Clone, Copy, Debug, PartialEq, Eq, Structural)]
pub enum LockPolicy {
    /// The lock is reported and nothing more: a locked client takes
    /// transactions as before.
    Advisory,
    /// A locked client refuses every further transaction with `ClientLocked`.
    Frozen,
}

/// Whether the policy has client `c` refuse transactions.
pub open spec fn refuses(c: ClientState, policy: LockPolicy) -> bool {
    policy == LockPolicy::Frozen && c.locked
}

/// A step of an existing client: refused for an unknown or a frozen client,
/// else the client's own step `r`.
pub open spec fn on_client(
    clients: Map<u16, ClientState>,
    policy: LockPolicy,
    id: u16,
    r: Result<ClientState, Error>,
) -> Result<Map<u16, ClientState>, Error> {
    if !clients.contains_key(id) {
        Err(Error::UnknownClient)
    } else if refuses(clients[id], policy) {
        Err(Error::ClientLocked)
    } else {
        match r {
            Ok(c) => Ok(clients.insert(id, c)),
            Err(e) => Err(e),
        }
    }
}

/// A deposit of `a` (validated): it creates its client when there is none.
pub open spec fn deposited(
    clients: Map<u16, ClientState>,
    policy: LockPolicy,
    d: Deposit,
    a: Amount,
) -> Result<Map<u16, ClientState>, Error> {
    let id = d.client_id.0;
    if !clients.contains_key(id) {
        Ok(clients.insert(id, opened(d, a)))
    } else if refuses(clients[id], policy) {
        Err(Error::ClientLocked)
    } else {
        Ok(clients.insert(id, credited(clients[id], d, a)))
    }
}

/// What applying `tx` to the clients gives: their new state, or the error
/// that refuses it.
pub open spec fn step(clients: Map<u16, ClientState>, policy: LockPolicy, tx: Transaction) -> Result<
    Map<u16, ClientState>,
    Error,
> {
    match tx {
        Transaction::Deposit(d) => match validate_deposit(d.amount) {
            Err(e) => Err(e),
            Ok(a) => deposited(clients, policy, d, a),
        },
        Transaction::Withdraw(w) => match validate_withdrawal(w.amount) {
            Err(e) => Err(e),
            Ok(a) => on_client(clients, policy, w.client_id.0, debited(clients[w.client_id.0], w, a)),
        },
        Transaction::Dispute(x) => on_client(
            clients,
            policy,
            x.client_id.0,
            disputed(clients[x.client_id.0], x.target_transaction_id.0),
        ),
        Transaction::Resolve(x) => on_client(
            clients,
            policy,
            x.client_id.0,
            resolved(clients[x.client_id.0], x.target_transaction_id.0),
        ),
        Transaction::Chargeback(x) => on_client(
            clients,
            policy,
            x.client_id.0,
            charged_back(clients[x.client_id.0], x.target_transaction_id.0),
        ),
    }
}

/// The clients after `tx`: the step's result, or the clients unchanged when
/// it is refused.
pub open spec fn after(clients: Map<u16, ClientState>, policy: LockPolicy, tx: Transaction) -> Map<
    u16,
    ClientState,
> {
    match step(clients, policy, tx) {
        Ok(m) => m,
        Err(_) => clients,
    }
}

/// The clients after the transactions `txs`, applied in order, each refused
/// one skipped.
pub open spec fn run(clients: Map<u16, ClientState>, policy: LockPolicy, txs: Seq<Transaction>) -> Map<
    u16,
    ClientState,
>
    decreases txs.len(),
{
    if txs.len() == 0 {
        clients
    } else {
        after(run(clients, policy, txs.drop_last()), policy, txs.last())
    }
}

/// Applying `tx` keeps every total within the decimal range. Only a deposit
/// can raise a total.
pub open spec fn fits(clients: Map<u16, ClientState>, tx: Transaction) -> bool {
    match tx {
        Transaction::Deposit(d) => match validate_deposit(d.amount) {
            Ok(a) => clients.contains_key(d.client_id.0) ==> clients[d.client_id.0].total()
                + a.mantissa <= MAX_MANTISSA,
            Err(_) => true,
        },
        _ => true,
    }
}

/// A step on one existing client, its amount already validated.
enum ClientOp {
    Withdraw(Withdraw, Amount),
    Dispute(TransactionId),
    Resolve(TransactionId),
    Chargeback(TransactionId),
}

impl ClientOp {
    spec fn wf(self, id: u16) -> bool {
        match self {
            ClientOp::Withdraw(w, a) => w.client_id.0 == id && a.scale == LEDGER_SCALE && 1
                <= a.mantissa <= MAX_LEDGER_UNITS,
            _ => true,
        }
    }

    spec fn apply(self, c: ClientState) -> Result<ClientState, Error> {
        match self {
            ClientOp::Withdraw(w, a) => debited(c, w, a),
            ClientOp::Dispute(t) => disputed(c, t.0),
            ClientOp::Resolve(t) => resolved(c, t.0),
            ClientOp::Chargeback(t) => charged_back(c, t.0),
        }
    }
}

/// The clients' states, by id.
pub open spec fn states(m: Map<u16, Client>) -> Map<u16, ClientState> {
    m.map_values(|c: Client| c@)
}

proof fn lemma_states_insert(m: Map<u16, Client>, k: u16, c: Client)
    ensures
        states(m.insert(k, c)) == states(m).insert(k, c@),
{
    assert(states(m.insert(k, c)) =~= states(m).insert(k, c@));
}

proof fn lemma_states_remove(m: Map<u16, Client>, k: u16)
    ensures
        states(m.remove(k)) == states(m).remove(k),
{
    assert(states(m.remove(k)) =~= states(m).remove(k));
}

/// One line of the final report on a client.
#[derive(Clone, Copy, Debug, PartialEq, Eq, Structural)]
pub struct ClientReport {
    pub client: ClientId,
    pub available: Amount,
    pub held: Amount,
    pub total: Amount,
    pub locked: bool,
}

/// The report on client `id` in state `c`, amounts at the ledger's scale.
pub open spec fn report_of(id: u16, c: ClientState) -> ClientReport {
    ClientReport {
        client: ClientId(id),
        available: Amount { mantissa: c.available as i128, scale: LEDGER_SCALE },
        held: Amount { mantissa: c.held as i128, scale: LEDGER_SCALE },
        total: Amount { mantissa: c.total() as i128, scale: LEDGER_SCALE },
        locked: c.locked,
    }
}

/// The ledger: every client created so far, by id, and the lock policy.
#[derive(Debug)]
pub struct PaymentsEngine {
    client_list: HashMap<u16, Client>,
    lock_policy: LockPolicy,
}

impl View for PaymentsEngine {
    type V = Map<u16, ClientState>;

    closed spec fn view(&self) -> Map<u16, ClientState> {
        states(self.client_list@)
    }
}

impl PaymentsEngine {
    /// The lock policy.
    pub closed spec fn policy(&self) -> LockPolicy {
        self.lock_policy
    }

    /// The lock policy.
    pub fn lock_policy(&self) -> (r: LockPolicy)
        ensures
            r == self.policy(),
    {
        self.lock_policy
    }

    /// Every client keeps its invariant and sits under its own id.
    pub closed spec fn wf(&self) -> bool {
        forall|k: u16| #[trigger]
            self.client_list@.contains_key(k) ==> self.client_list@[k].wf()
                && self.client_list@[k].client_id.0 == k
    }

    /// An engine with no client, under the given lock policy.
    pub fn with_lock_policy(lock_policy: LockPolicy) -> (r: PaymentsEngine)
        ensures
            r.wf(),
            r@ == Map::<u16, ClientState>::empty(),
            r.policy() == lock_policy,
    {
        let r = PaymentsEngine { client_list: HashMap::new(), lock_policy };
        proof {
            assert(r@ =~= Map::<u16, ClientState>::empty());
        }
        r
    }

    /// An engine with no client, where a lock is advisory.
    pub fn new() -> (r: PaymentsEngine)
        ensures
            r.wf(),
            r@ == Map::<u16, ClientState>::empty(),
            r.policy() == LockPolicy::Advisory,
    {
        Self::with_lock_policy(LockPolicy::Advisory)
    }

    /// Runs `op` on client `id`, refusing an unknown or a frozen client.
    fn on_client(&mut self, id: u16, op: ClientOp) -> (r: Result<(), Error>)
        requires
            old(self).wf(),
            op.wf(id),
        ensures
            final(self).wf(),
            final(self).lock_policy == old(self).lock_policy,
            outcome(
                r,
                old(self)@,
                final(self)@,
                on_client(old(self)@, old(self).lock_policy, id, op.apply(old(self)@[id])),
            ),
    {
        let ghost before = self.client_list@;
        proof {
            lemma_states_remove(before, id);
        }
        let mut client = match self.client_list.remove(&id) {
            Some(c) => c,
            None => {
                assert(self.client_list@ =~= before);
                return Err(Error::UnknownClient);
            },
        };
        let frozen = match self.lock_policy {
            LockPolicy::Frozen => client.locked,
            LockPolicy::Advisory => false,
        };
        let r = if frozen {
            Err(Error::ClientLocked)
        } else {
            match op {
                ClientOp::Withdraw(w, amount) => client.withdraw(w, amount),
                ClientOp::Dispute(t) => client.dispute(t),
                ClientOp::Resolve(t) => client.resolve(t),
                ClientOp::Chargeback(t) => client.chargeback(t),
            }
        };
        proof {
            lemma_states_insert(before.remove(id), id, client);
            assert(before.remove(id).insert(id, client) =~= before.insert(id, client));
            lemma_states_insert(before, id, client);
            if r is Err {
                assert(states(before).insert(id, client@) =~= states(before));
            }
        }
        self.client_list.insert(id, client);
        r
    }

    /// Credits a validated deposit, creating its client when there is none.
    fn deposit(&mut self, d: Deposit, amount: Amount) -> (r: Result<(), Error>)
        requires
            old(self).wf(),
            amount.scale == LEDGER_SCALE,
            1 <= amount.mantissa <= MAX_LEDGER_UNITS,
            old(self)@.contains_key(d.client_id.0) ==> old(self)@[d.client_id.0].total()
                + amount.mantissa <= MAX_MANTISSA,
        ensures
            final(self).wf(),
            final(self).lock_policy == old(self).lock_policy,
            outcome(r, old(self)@, final(self)@, deposited(old(self)@, old(self).lock_policy, d, amount)),
    {
        let id = d.client_id.0;
        let ghost before = self.client_list@;
        proof {
            lemma_states_remove(before, id);
        }
        match self.client_list.remove(&id) {
            None => {
                let client = Client::new_with_deposit(d, amount);
                proof {
                    assert(self.client_list@ =~= before);
                    lemma_states_insert(before, id, client);
                }
                self.client_list.insert(id, client);
                Ok(())
            },
            Some(mut client) => {
                let frozen = match self.lock_policy {
                    LockPolicy::Frozen => client.locked,
                    LockPolicy::Advisory => false,
                };
                if !frozen {
                    client.deposit(d, amount);
                }
                proof {
                    assert(before.remove(id).insert(id, client) =~= before.insert(id, client));
                    lemma_states_insert(before, id, client);
                    if frozen {
                        assert(states(before).insert(id, client@) =~= states(before));
                    }
                }
                self.client_list.insert(id, client);
                if frozen {
                    Err(Error::ClientLocked)
                } else {
                    Ok(())
                }
            },
        }
    }

    /// Applies one transaction: validates its amount, then runs the ledger's
    /// state machine on its client. A refused transaction changes nothing.
    /// Totals are kept within the decimal range by `fits`; an overflow would
    /// be a broken invariant, not a refusal.
    pub fn recv_tx(&mut self, transaction: Transaction) -> (r: Result<(), Error>)
        requires
            old(self).wf(),
            transaction.wf(),
            fits(old(self)@, transaction),
        ensures
            final(self).wf(),
            final(self).policy() == old(self).policy(),
            outcome(r, old(self)@, final(self)@, step(old(self)@, old(self).policy(), transaction)),
            final(self)@ == after(old(self)@, old(self).policy(), transaction),
    {
        match transaction {
            Transaction::Deposit(deposit) => {
                let amount = match Amount::check_and_round_deposit(deposit.amount) {
                    Ok(a) => a,
                    Err(e) => return Err(e),
                };
                proof {
                    lemma_ledger_amount_in_bounds(deposit.amount);
                }
                self.deposit(deposit, amount)
            },
            Transaction::Withdraw(withdraw) => {
                let amount = match Amount::check_and_round_withdraw(withdraw.amount) {
                    Ok(a) => a,
                    Err(e) => return Err(e),
                };
                proof {
                    lemma_ledger_amount_in_bounds(withdraw.amount);
                }
                self.on_client(withdraw.client_id.0, ClientOp::Withdraw(withdraw, amount))
            },
            Transaction::Dispute(x) => self.on_client(
                x.client_id.0,
                ClientOp::Dispute(x.target_transaction_id),
            ),
            Transaction::Resolve(x) => self.on_client(
                x.client_id.0,
                ClientOp::Resolve(x.target_transaction_id),
            ),
            Transaction::Chargeback(x) => self.on_client(
                x.client_id.0,
                ClientOp::Chargeback(x.target_transaction_id),
            ),
        }
    }

    /// Whether applying `transaction` keeps every total within the decimal
    /// range, as `recv_tx` requires.
    pub fn fits(&self, transaction: &Transaction) -> (r: bool)
        requires
            self.wf(),
            transaction.wf(),
        ensures
            r == fits(self@, *transaction),
    {
        match transaction {
            Transaction::Deposit(d) => match Amount::check_and_round_deposit(d.amount) {
                Ok(a) => {
                    proof {
                        lemma_ledger_amount_in_bounds(d.amount);
                    }
                    match self.client_list.get(&d.client_id.0) {
                        Some(c) => {
                            assert(c.wf());
                            c.available.mantissa + c.held.mantissa + a.mantissa <= MAX_MANTISSA
                        },
                        None => true,
                    }
                },
                Err(_) => true,
            },
            _ => true,
        }
    }

    /// The client with id `id`, if a deposit has created it.
    pub fn get_client(&self, id: ClientId) -> (r: Option<&Client>)
        requires
            self.wf(),
        ensures
            match r {
                Some(c) => self@.contains_key(id.0) && c@ == self@[id.0] && c.client_id == id
                    && c.wf(),
                None => !self@.contains_key(id.0),
            },
    {
        self.client_list.get(&id.0)
    }

    /// The report on every client, in ascending order of id.
    pub fn snapshot(&self) -> (r: Vec<ClientReport>)
        requires
            self.wf(),
        ensures
            forall|i: int, j: int|
                0 <= i < j < r.len() ==> (#[trigger] r@[i]).client.0 < (#[trigger] r@[j]).client.0,
            forall|i: int|
                0 <= i < r.len() ==> self@.contains_key((#[trigger] r@[i]).client.0) && r@[i]
                    == report_of(r@[i].client.0, self@[r@[i].client.0]),
            forall|k: u16|
                #[trigger] self@.contains_key(k) ==> exists|i: int|
                    0 <= i < r.len() && (#[trigger] r@[i]).client.0 == k,
    {
        let mut r: Vec<ClientReport> = Vec::new();
        let mut next: u32 = 0;
        while next <= 0xFFFF
            invariant
                self.wf(),
                next <= 0x1_0000,
                forall|i: int, j: int|
                    0 <= i < j < r.len() ==> (#[trigger] r@[i]).client.0 < (#[trigger] r@[j]).client.0,
                forall|i: int|
                    0 <= i < r.len() ==> (#[trigger] r@[i]).client.0 < next && self@.contains_key(
                        r@[i].client.0,
                    ) && r@[i] == report_of(r@[i].client.0, self@[r@[i].client.0]),
                forall|k: u16|
                    #[trigger] self@.contains_key(k) && k < next ==> exists|i: int|
                        0 <= i < r.len() && (#[trigger] r@[i]).client.0 == k,
            decreases 0x1_0000 - next,
        {
            let id = next as u16;
            match self.client_list.get(&id) {
                Some(c) => {
                    assert(c.wf());
                    let report = ClientReport {
                        client: c.client_id,
                        available: c.available,
                        held: c.held,
                        total: c.total(),
                        locked: c.locked,
                    };
                    let ghost old_r = r@;
                    r.push(report);
                    assert forall|k: u16|
                        #[trigger] self@.contains_key(k) && k < next + 1 implies exists|i: int|
                            0 <= i < r.len() && (#[trigger] r@[i]).client.0 == k by {
                        if k < next {
                            let i = choose|i: int| 0 <= i < old_r.len() && (#[trigger] old_r[i]).client.0 == k;
                            assert(r@[i] == old_r[i]);
                        } else {
                            assert(r@[r.len() - 1].client.0 == k);
                        }
                    }
                },
                None => {},
            }
            next = next + 1;
        }
        r
    }
}

} // verus!
