//! Properties of the account rules and of a replay, proved over the models
//! that the contracts of `Client::execute`, `Atm::execute` and `run` use.

use vstd::prelude::*;

use crate::atm::{replay, Transaction, TransactionVariant};
use crate::client::{
    chargeback_step, dispute_step, entry_amount, resolve_step, step, total_of, valid, ClientModel,
};

verus! {

/// After any replay that does not abort, every account satisfies
/// `available >= 0`, `held >= 0`, and its total is available plus held.
pub proof fn lemma_replay_keeps_accounts_valid(m: Map<u16, ClientModel>, ts: Seq<Transaction>)
    requires
        forall|k: u16| #[trigger] m.contains_key(k) ==> valid(m[k]),
    ensures
        replay(m, ts) matches Ok(r) ==> forall|k: u16| #[trigger]
            r.contains_key(k) ==> valid(r[k]) && r[k].available >= 0 && r[k].held >= 0
                && total_of(r[k]) == r[k].available + r[k].held,
    decreases ts.len(),
{
    if ts.len() > 0 {
        match crate::atm::ledger_step(m, ts[0]) {
            Ok(m2) => {
                assert forall|k: u16| #[trigger] m2.contains_key(k) implies valid(m2[k]) by {
                    if k != ts[0].client {
                        assert(m.contains_key(k));
                    }
                }
                lemma_replay_keeps_accounts_valid(m2, ts.drop_first());
            },
            Err(_) => {},
        }
    }
}

/// Resolving or charging back an entry that is not under dispute (or that
/// does not exist) changes nothing.
pub proof fn lemma_settle_without_dispute_is_noop(c: ClientModel, t: Transaction)
    requires
        t.variant is Resolve || t.variant is Chargeback,
        !(c.txs.contains_key(t.tx) && c.txs[t.tx].disputed),
    ensures
        step(c, t) == c,
{
}

/// A dispute followed by a resolve of the same entry, which was not already
/// under dispute, gives back the account as it was before the dispute.
pub proof fn lemma_dispute_then_resolve_restores(c: ClientModel, tx: u32)
    requires
        !(c.txs.contains_key(tx) && c.txs[tx].disputed),
    ensures
        resolve_step(dispute_step(c, tx), tx) == c,
        resolve_step(dispute_step(c, tx), tx).available == c.available,
        resolve_step(dispute_step(c, tx), tx).held == c.held,
{
    if c.txs.contains_key(tx) {
        let r = resolve_step(dispute_step(c, tx), tx);
        assert(r.txs =~= c.txs);
    }
}

/// A dispute followed by a chargeback of a deposit that was not under
/// dispute: held funds are back at their value before the dispute, the total
/// has lost the deposit's amount, available funds keep their value after the
/// dispute, and the account is locked.
pub proof fn lemma_dispute_then_chargeback_deposit(c: ClientModel, tx: u32)
    requires
        c.txs.contains_key(tx),
        c.txs[tx].amount is Deposit,
        !c.txs[tx].disputed,
    ensures
        chargeback_step(dispute_step(c, tx), tx).held == c.held,
        chargeback_step(dispute_step(c, tx), tx).available == dispute_step(c, tx).available,
        total_of(chargeback_step(dispute_step(c, tx), tx)) == total_of(c) - entry_amount(
            c.txs[tx],
        ),
        chargeback_step(dispute_step(c, tx), tx).locked,
{
}

/// Once locked, an account stays locked whatever is applied to it.
pub proof fn lemma_locked_is_permanent(c: ClientModel, t: Transaction)
    requires
        c.locked,
    ensures
        step(c, t).locked,
{
}

/// A withdrawal of more than the available funds changes nothing, and where
/// no entry had its id, a later dispute of that id changes nothing either.
pub proof fn lemma_unfunded_withdrawal_is_ignored(c: ClientModel, t: Transaction)
    requires
        t.variant matches TransactionVariant::Withdrawal { amount } && amount.spec_units()
            > c.available,
    ensures
        step(c, t) == c,
        !c.txs.contains_key(t.tx) ==> !step(c, t).txs.contains_key(t.tx) && dispute_step(
            step(c, t),
            t.tx,
        ) == step(c, t),
{
}

} // verus!
