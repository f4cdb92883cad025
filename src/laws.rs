//! Properties of the ledger that hold for every input, proved over `step`.

use vstd::prelude::*;

use crate::amount::validate_deposit;
use crate::amount::validate_withdrawal;
use crate::client::ClientState;
use crate::engine::{after, refuses, run, step, LockPolicy};
use crate::error::Error;
use crate::transaction::{Chargeback, Dispute, DisputeStatus, Resolve, Transaction, Withdraw};

verus! {

/// The sum of the ledger amounts of the deposits in `txs` that pass validation.
pub open spec fn accepted_deposit_sum(txs: Seq<Transaction>) -> int
    decreases txs.len(),
{
    if txs.len() == 0 {
        0
    } else {
        accepted_deposit_sum(txs.drop_last()) + match txs.last() {
            Transaction::Deposit(d) => match validate_deposit(d.amount) {
                Ok(a) => a.mantissa as int,
                Err(_) => 0,
            },
            _ => 0,
        }
    }
}

/// Deposits to a new client leave it with exactly the sum of the accepted
/// deposits, each rounded once, available; nothing held and no lock. Until a
/// deposit is accepted the client does not exist.
pub proof fn law_deposits_add_up(
    clients: Map<u16, ClientState>,
    policy: LockPolicy,
    id: u16,
    txs: Seq<Transaction>,
)
    requires
        !clients.contains_key(id),
        forall|i: int|
            0 <= i < txs.len() ==> (#[trigger] txs[i]) is Deposit && txs[i]->Deposit_0.client_id.0
                == id,
    ensures
        run(clients, policy, txs).contains_key(id) ==> {
            let c = run(clients, policy, txs)[id];
            &&& c.available == accepted_deposit_sum(txs)
            &&& c.held == 0
            &&& !c.locked
        },
        !run(clients, policy, txs).contains_key(id) ==> accepted_deposit_sum(txs) == 0,
    decreases txs.len(),
{
    if txs.len() > 0 {
        let prefix = txs.drop_last();
        assert forall|i: int| 0 <= i < prefix.len() implies (#[trigger] prefix[i]) is Deposit
            && prefix[i]->Deposit_0.client_id.0 == id by {
            assert(prefix[i] == txs[i]);
        }
        law_deposits_add_up(clients, policy, id, prefix);
        assert(txs[txs.len() - 1] == txs.last());
    }
}

/// A validated withdrawal of `a` from a client that takes transactions
/// succeeds exactly when `a` is at most the available funds; it then takes
/// exactly `a` from them, and otherwise fails with `InsufficientFunds` and
/// changes nothing.
pub proof fn law_withdraw_iff_covered(clients: Map<u16, ClientState>, policy: LockPolicy, w: Withdraw)
    requires
        clients.contains_key(w.client_id.0),
        !refuses(clients[w.client_id.0], policy),
        validate_withdrawal(w.amount) is Ok,
    ensures
        ({
            let a = validate_withdrawal(w.amount)->Ok_0.mantissa as int;
            let c = clients[w.client_id.0];
            let r = step(clients, policy, Transaction::Withdraw(w));
            let m = after(clients, policy, Transaction::Withdraw(w));
            &&& r is Ok <==> a <= c.available
            &&& r is Ok ==> m[w.client_id.0].available == c.available - a && m[w.client_id.0].held
                == c.held
            &&& r is Err ==> r == Err::<Map<u16, ClientState>, Error>(Error::InsufficientFunds)
                && m == clients
        }),
{
}

/// Disputing a deposit that was never disputed, and that the available
/// funds cover, moves exactly its amount from available to held and keeps
/// the total; disputing it again fails with `AlreadyDisputed` and changes
/// nothing.
pub proof fn law_dispute_moves_amount(clients: Map<u16, ClientState>, policy: LockPolicy, x: Dispute)
    requires
        clients.contains_key(x.client_id.0),
        !refuses(clients[x.client_id.0], policy),
        clients[x.client_id.0].entries.contains_key(x.target_transaction_id.0),
        clients[x.client_id.0].entries[x.target_transaction_id.0] is Deposit,
        clients[x.client_id.0].entries[x.target_transaction_id.0]->Deposit_0.dispute_status
            == DisputeStatus::NotDisputed,
        clients[x.client_id.0].entries[x.target_transaction_id.0]->Deposit_0.amount.mantissa
            <= clients[x.client_id.0].available,
    ensures
        ({
            let id = x.client_id.0;
            let c = clients[id];
            let d = c.entries[x.target_transaction_id.0]->Deposit_0;
            let m = after(clients, policy, Transaction::Dispute(x));
            &&& step(clients, policy, Transaction::Dispute(x)) is Ok
            &&& m[id].available == c.available - d.amount.mantissa
            &&& m[id].held == c.held + d.amount.mantissa
            &&& m[id].total() == c.total()
            &&& step(m, policy, Transaction::Dispute(x)) == Err::<Map<u16, ClientState>, Error>(
                Error::AlreadyDisputed,
            )
            &&& after(m, policy, Transaction::Dispute(x)) == m
        }),
{
    let id = x.client_id.0;
    let t = x.target_transaction_id.0;
    let m = after(clients, policy, Transaction::Dispute(x));
    assert(m[id].entries[t] is Deposit);
}

/// Resolving a disputed deposit moves exactly its amount from held back to
/// available, keeps the total and marks the deposit `Resolved`.
pub proof fn law_resolve_moves_back(clients: Map<u16, ClientState>, policy: LockPolicy, x: Resolve)
    requires
        clients.contains_key(x.client_id.0),
        !refuses(clients[x.client_id.0], policy),
        clients[x.client_id.0].entries.contains_key(x.target_transaction_id.0),
        clients[x.client_id.0].entries[x.target_transaction_id.0] is Deposit,
        clients[x.client_id.0].entries[x.target_transaction_id.0]->Deposit_0.dispute_status
            == DisputeStatus::Disputed,
    ensures
        ({
            let id = x.client_id.0;
            let t = x.target_transaction_id.0;
            let c = clients[id];
            let d = c.entries[t]->Deposit_0;
            let m = after(clients, policy, Transaction::Resolve(x));
            &&& step(clients, policy, Transaction::Resolve(x)) is Ok
            &&& m[id].available == c.available + d.amount.mantissa
            &&& m[id].held == c.held - d.amount.mantissa
            &&& m[id].total() == c.total()
            &&& m[id].locked == c.locked
            &&& m[id].entries[t] is Deposit
            &&& m[id].entries[t]->Deposit_0.dispute_status == DisputeStatus::Resolved
        }),
{
}

/// Resolving a deposit that is not under dispute fails and changes nothing.
pub proof fn law_resolve_refused(clients: Map<u16, ClientState>, policy: LockPolicy, x: Resolve)
    requires
        clients.contains_key(x.client_id.0),
        clients[x.client_id.0].entries.contains_key(x.target_transaction_id.0),
        clients[x.client_id.0].entries[x.target_transaction_id.0] is Deposit,
        clients[x.client_id.0].entries[x.target_transaction_id.0]->Deposit_0.dispute_status
            != DisputeStatus::Disputed,
    ensures
        step(clients, policy, Transaction::Resolve(x)) is Err,
        after(clients, policy, Transaction::Resolve(x)) == clients,
{
}

/// Charging back a disputed deposit takes exactly its amount from the held
/// funds only, locks the client and marks the deposit `Chargebacked`.
pub proof fn law_chargeback_reverses(
    clients: Map<u16, ClientState>,
    policy: LockPolicy,
    x: Chargeback,
)
    requires
        clients.contains_key(x.client_id.0),
        !refuses(clients[x.client_id.0], policy),
        clients[x.client_id.0].entries.contains_key(x.target_transaction_id.0),
        clients[x.client_id.0].entries[x.target_transaction_id.0] is Deposit,
        clients[x.client_id.0].entries[x.target_transaction_id.0]->Deposit_0.dispute_status
            == DisputeStatus::Disputed,
    ensures
        ({
            let id = x.client_id.0;
            let t = x.target_transaction_id.0;
            let c = clients[id];
            let d = c.entries[t]->Deposit_0;
            let m = after(clients, policy, Transaction::Chargeback(x));
            &&& step(clients, policy, Transaction::Chargeback(x)) is Ok
            &&& m[id].available == c.available
            &&& m[id].held == c.held - d.amount.mantissa
            &&& m[id].locked
            &&& m[id].entries[t] is Deposit
            &&& m[id].entries[t]->Deposit_0.dispute_status == DisputeStatus::Chargebacked
        }),
{
}

/// Charging back a deposit that is not under dispute fails and changes nothing.
pub proof fn law_chargeback_refused(
    clients: Map<u16, ClientState>,
    policy: LockPolicy,
    x: Chargeback,
)
    requires
        clients.contains_key(x.client_id.0),
        clients[x.client_id.0].entries.contains_key(x.target_transaction_id.0),
        clients[x.client_id.0].entries[x.target_transaction_id.0] is Deposit,
        clients[x.client_id.0].entries[x.target_transaction_id.0]->Deposit_0.dispute_status
            != DisputeStatus::Disputed,
    ensures
        step(clients, policy, Transaction::Chargeback(x)) is Err,
        after(clients, policy, Transaction::Chargeback(x)) == clients,
{
}

/// Disputing, resolving or charging back a withdrawal fails with the
/// matching non-deposit error and changes nothing.
pub proof fn law_withdrawal_not_disputable(
    clients: Map<u16, ClientState>,
    policy: LockPolicy,
    x: Dispute,
)
    requires
        clients.contains_key(x.client_id.0),
        !refuses(clients[x.client_id.0], policy),
        clients[x.client_id.0].entries.contains_key(x.target_transaction_id.0),
        clients[x.client_id.0].entries[x.target_transaction_id.0] is Withdraw,
    ensures
        ({
            let res = Resolve {
                client_id: x.client_id,
                target_transaction_id: x.target_transaction_id,
            };
            let cb = Chargeback {
                client_id: x.client_id,
                target_transaction_id: x.target_transaction_id,
            };
            &&& step(clients, policy, Transaction::Dispute(x)) == Err::<
                Map<u16, ClientState>,
                Error,
            >(Error::DisputeOfNonDeposit)
            &&& step(clients, policy, Transaction::Resolve(res)) == Err::<
                Map<u16, ClientState>,
                Error,
            >(Error::ResolveOfNonDeposit)
            &&& step(clients, policy, Transaction::Chargeback(cb)) == Err::<
                Map<u16, ClientState>,
                Error,
            >(Error::ChargebackOfNonDeposit)
            &&& after(clients, policy, Transaction::Dispute(x)) == clients
            &&& after(clients, policy, Transaction::Resolve(res)) == clients
            &&& after(clients, policy, Transaction::Chargeback(cb)) == clients
        }),
{
}

/// Once a deposit is `Resolved` or `Chargebacked`, no dispute, resolve or
/// chargeback of it succeeds or changes anything.
pub proof fn law_settled_deposit_is_final(
    clients: Map<u16, ClientState>,
    policy: LockPolicy,
    x: Dispute,
)
    requires
        clients.contains_key(x.client_id.0),
        clients[x.client_id.0].entries.contains_key(x.target_transaction_id.0),
        clients[x.client_id.0].entries[x.target_transaction_id.0] is Deposit,
        clients[x.client_id.0].entries[x.target_transaction_id.0]->Deposit_0.dispute_status
            == DisputeStatus::Resolved
            || clients[x.client_id.0].entries[x.target_transaction_id.0]->Deposit_0.dispute_status
            == DisputeStatus::Chargebacked,
    ensures
        ({
            let res = Resolve {
                client_id: x.client_id,
                target_transaction_id: x.target_transaction_id,
            };
            let cb = Chargeback {
                client_id: x.client_id,
                target_transaction_id: x.target_transaction_id,
            };
            &&& step(clients, policy, Transaction::Dispute(x)) is Err
            &&& step(clients, policy, Transaction::Resolve(res)) is Err
            &&& step(clients, policy, Transaction::Chargeback(cb)) is Err
            &&& after(clients, policy, Transaction::Dispute(x)) == clients
            &&& after(clients, policy, Transaction::Resolve(res)) == clients
            &&& after(clients, policy, Transaction::Chargeback(cb)) == clients
        }),
{
}

} // verus!
