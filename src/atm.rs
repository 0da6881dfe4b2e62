//! Transactions and the ledger that routes them to the clients' accounts.

use std::collections::HashMap;
use vstd::prelude::*;

use crate::amount::Amount;
use crate::client::{
    failure, fresh_client, step, valid, Client, ClientError, ClientModel,
};

verus! {

/// What a transaction asks for; only deposits and withdrawals carry an amount.
#[derive(Clone, Copy, Debug, PartialEq, Eq)]
pub enum TransactionVariant {
    Deposit { amount: Amount },
    Withdrawal { amount: Amount },
    Dispute,
    Resolve,
    Chargeback,
}

/// A transaction of one client.
#[derive(Clone, Copy, Debug, PartialEq, Eq)]
pub struct Transaction {
    pub client: u16,
    pub tx: u32,
    pub variant: TransactionVariant,
}

/// The account `id` has in `m`, or a fresh one where it has none yet.
pub open spec fn account_of(m: Map<u16, ClientModel>, id: u16) -> ClientModel {
    if m.contains_key(id) {
        m[id]
    } else {
        fresh_client(id)
    }
}

/// The ledger after `t`, or the error that aborts the run.
pub open spec fn ledger_step(m: Map<u16, ClientModel>, t: Transaction) -> Result<
    Map<u16, ClientModel>,
    ClientError,
> {
    let c = step(account_of(m, t.client), t);
    if valid(c) {
        Ok(m.insert(t.client, c))
    } else {
        Err(failure(c))
    }
}

/// The ledger after `ts` in order, or the first error, which stops the run.
pub open spec fn replay(m: Map<u16, ClientModel>, ts: Seq<Transaction>) -> Result<
    Map<u16, ClientModel>,
    ClientError,
>
    decreases ts.len(),
{
    if ts.len() == 0 {
        Ok(m)
    } else {
        match ledger_step(m, ts[0]) {
            Ok(m2) => replay(m2, ts.drop_first()),
            Err(e) => Err(e),
        }
    }
}

/// The state of the payment processor: one account per client, created on
/// the client's first transaction.
#[derive(Debug)]
pub struct Atm {
    clients: HashMap<u16, Client>,
    /// The clients, in the order of their first transaction.
    ids: Vec<u16>,
}

impl View for Atm {
    type V = Map<u16, ClientModel>;

    closed spec fn view(&self) -> Map<u16, ClientModel> {
        self.clients@.map_values(|c: Client| c@)
    }
}

impl Atm {
    pub closed spec fn wf(&self) -> bool {
        &&& forall|k: u16| #[trigger]
            self.clients@.contains_key(k) ==> self.clients@[k].wf() && self.clients@[k]@.id == k
        &&& forall|k: u16| #[trigger] self.clients@.contains_key(k) <==> self.ids@.contains(k)
        &&& self.ids@.no_duplicates()
    }

    pub fn new() -> (r: Atm)
        ensures
            r@ == Map::<u16, ClientModel>::empty(),
            r.wf(),
    {
        let r = Atm { clients: HashMap::new(), ids: Vec::new() };
        assert(r@ =~= Map::<u16, ClientModel>::empty());
        r
    }

    /// Routes `t` to its client's account, creating the account on first
    /// use. On an error the run is meant to stop; the account is then as
    /// it was before `t`.
    pub fn execute(&mut self, t: Transaction) -> (r: Result<(), ClientError>)
        requires
            old(self).wf(),
        ensures
            final(self).wf(),
            match ledger_step(old(self)@, t) {
                Ok(m) => r is Ok && final(self)@ == m,
                Err(e) => r == Err::<(), ClientError>(e) && final(self)@ == old(self)@.insert(
                    t.client,
                    account_of(old(self)@, t.client),
                ),
            },
    {
        let ghost before = self@;
        let ghost old_clients = self.clients@;
        let ghost old_ids = self.ids@;
        let mut client = match self.clients.remove(&t.client) {
            Some(c) => {
                assert(old_clients.contains_key(t.client) && old_clients[t.client] == c);
                assert(before.contains_key(t.client) && before[t.client] == c@);
                c
            },
            None => {
                self.ids.push(t.client);
                Client::new(t.client)
            },
        };
        assert(client@ == account_of(before, t.client));
        let r = client.execute(t);
        self.clients.insert(t.client, client);
        proof {
            assert(self.clients@.dom() =~= old_clients.dom().insert(t.client));
            assert forall|k: u16| #[trigger]
                self.clients@.contains_key(k) <==> self.ids@.contains(k) by {
                if old_ids.contains(k) {
                    let j = choose|j: int| 0 <= j < old_ids.len() && old_ids[j] == k;
                    assert(self.ids@[j] == k);
                }
                if self.ids@ != old_ids && k == t.client {
                    assert(self.ids@[old_ids.len() as int] == k);
                }
            }
            assert(self.ids@.no_duplicates());
            assert(self@ =~= before.insert(t.client, client@));
        }
        r
    }

    /// The clients that have an account, each once.
    pub fn client_ids(&self) -> (r: Vec<u16>)
        requires
            self.wf(),
        ensures
            r@.no_duplicates(),
            forall|k: u16| r@.contains(k) <==> self@.contains_key(k),
    {
        self.ids.clone()
    }

    /// The account of client `id`, if it has one.
    pub fn client(&self, id: u16) -> (r: Option<&Client>)
        requires
            self.wf(),
        ensures
            r matches Some(c) ==> self@.contains_key(id) && c@ == self@[id] && c.wf(),
            r is None ==> !self@.contains_key(id),
    {
        self.clients.get(&id)
    }
}

/// Replays `transactions` in order on an empty ledger, stopping at the first
/// transaction that would break an account's invariants.
pub fn run(transactions: Vec<Transaction>) -> (r: Result<Atm, ClientError>)
    ensures
        r is Ok <==> replay(Map::empty(), transactions@) is Ok,
        r matches Ok(a) ==> a.wf() && replay(Map::empty(), transactions@) == Ok::<
            Map<u16, ClientModel>,
            ClientError,
        >(a@),
        r matches Err(e) ==> replay(Map::empty(), transactions@) == Err::<
            Map<u16, ClientModel>,
            ClientError,
        >(e),
{
    let mut atm = Atm::new();
    let mut i: usize = 0;
    assert(transactions@.subrange(0, transactions@.len() as int) =~= transactions@);
    while i < transactions.len()
        invariant
            i <= transactions.len(),
            atm.wf(),
            replay(Map::empty(), transactions@) == replay(
                atm@,
                transactions@.subrange(i as int, transactions@.len() as int),
            ),
        decreases transactions.len() - i,
    {
        let t = transactions[i];
        let ghost rest = transactions@.subrange(i as int, transactions@.len() as int);
        assert(rest[0] == t);
        assert(rest.drop_first() =~= transactions@.subrange(
            i as int + 1,
            transactions@.len() as int,
        ));
        match atm.execute(t) {
            Ok(()) => {},
            Err(e) => {
                return Err(e);
            },
        }
        i = i + 1;
    }
    assert(transactions@.subrange(i as int, transactions@.len() as int).len() == 0);
    Ok(atm)
}

} // verus!
