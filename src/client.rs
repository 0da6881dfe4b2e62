//! One client's account: balances, the lock flag, and the deposits and
//! withdrawals it accepted, which later disputes refer to by id.

use std::collections::HashMap;
use vstd::prelude::*;

use crate::amount::{Amount, MAX_MANTISSA};
use crate::atm::{Transaction, TransactionVariant};

verus! {

broadcast use vstd::std_specs::hash::group_hash_axioms;

/// The largest total (available plus held) an account holds, in units of
/// 10^-4: what a decimal with four places can represent.
pub const MAX_BALANCE: i128 = MAX_MANTISSA;

/// The largest magnitude of a rounded amount, in units of 10^-4.
pub const MAX_UNITS: i128 = 792281625142643375935439503350000;

/// The amount of an accepted transaction, in units of 10^-4, tagged with
/// its kind so that deposits and withdrawals are never mixed up.
#[derive(Clone, Copy, Debug, PartialEq, Eq)]
pub enum TxAmount {
    Deposit(i128),
    Withdrawal(i128),
}

/// An accepted deposit or withdrawal.
#[derive(Clone, Copy, Debug, PartialEq, Eq)]
pub struct Tx {
    pub id: u32,
    pub amount: TxAmount,
    pub disputed: bool,
}

impl Tx {
    /// An entry that is not under dispute.
    pub fn new(id: u32, amount: TxAmount) -> (r: Tx)
        ensures
            r == (Tx { id, amount, disputed: false }),
    {
        Tx { id, amount, disputed: false }
    }
}

/// Why applying a transaction was refused; the account is left unchanged.
#[derive(Clone, Copy, Debug, PartialEq, Eq)]
pub enum ClientError {
    /// The available funds would drop below zero.
    NegativeAvailable,
    /// The held funds would drop below zero.
    NegativeHeld,
    /// The total would exceed `MAX_BALANCE`.
    TooLarge,
}

/// The state of an account as a mathematical value.
pub struct ClientModel {
    pub id: u16,
    pub available: int,
    pub held: int,
    pub locked: bool,
    pub txs: Map<u32, Tx>,
}

pub open spec fn fresh_client(id: u16) -> ClientModel {
    ClientModel { id, available: 0, held: 0, locked: false, txs: Map::empty() }
}

/// The balances obey the account's invariants.
pub open spec fn valid(c: ClientModel) -> bool {
    &&& c.available >= 0
    &&& c.held >= 0
    &&& c.available + c.held <= MAX_BALANCE
}

pub open spec fn total_of(c: ClientModel) -> int {
    c.available + c.held
}

pub open spec fn entry_amount(e: Tx) -> int {
    match e.amount {
        TxAmount::Deposit(a) => a as int,
        TxAmount::Withdrawal(a) => a as int,
    }
}

pub open spec fn entries_bounded(c: ClientModel) -> bool {
    forall|k: u32| #[trigger]
        c.txs.contains_key(k) ==> c.txs[k].id == k && -MAX_UNITS <= entry_amount(c.txs[k])
            <= MAX_UNITS
}

pub open spec fn deposit_step(c: ClientModel, tx: u32, units: int) -> ClientModel {
    ClientModel {
        available: c.available + units,
        txs: c.txs.insert(
            tx,
            Tx { id: tx, amount: TxAmount::Deposit(units as i128), disputed: false },
        ),
        ..c
    }
}

pub open spec fn withdrawal_step(c: ClientModel, tx: u32, units: int) -> ClientModel {
    if units <= c.available {
        ClientModel {
            available: c.available - units,
            txs: c.txs.insert(
                tx,
                Tx { id: tx, amount: TxAmount::Withdrawal(units as i128), disputed: false },
            ),
            ..c
        }
    } else {
        c
    }
}

pub open spec fn dispute_step(c: ClientModel, tx: u32) -> ClientModel {
    if c.txs.contains_key(tx) {
        let e = c.txs[tx];
        let a = entry_amount(e);
        ClientModel {
            available: if e.amount is Deposit {
                c.available - a
            } else {
                c.available
            },
            held: c.held + a,
            txs: c.txs.insert(tx, Tx { disputed: true, ..e }),
            ..c
        }
    } else {
        c
    }
}

pub open spec fn resolve_step(c: ClientModel, tx: u32) -> ClientModel {
    if c.txs.contains_key(tx) && c.txs[tx].disputed {
        let e = c.txs[tx];
        let a = entry_amount(e);
        ClientModel {
            available: if e.amount is Deposit {
                c.available + a
            } else {
                c.available
            },
            held: c.held - a,
            txs: c.txs.insert(tx, Tx { disputed: false, ..e }),
            ..c
        }
    } else {
        c
    }
}

pub open spec fn chargeback_step(c: ClientModel, tx: u32) -> ClientModel {
    if c.txs.contains_key(tx) && c.txs[tx].disputed {
        let e = c.txs[tx];
        let a = entry_amount(e);
        ClientModel {
            available: if e.amount is Withdrawal {
                c.available + a
            } else {
                c.available
            },
            held: c.held - a,
            locked: true,
            txs: c.txs.insert(tx, Tx { disputed: false, ..e }),
            ..c
        }
    } else {
        c
    }
}

/// The account after the rules for `t` were applied to it, before the
/// invariants are checked.
pub open spec fn step(c: ClientModel, t: Transaction) -> ClientModel {
    match t.variant {
        TransactionVariant::Deposit { amount } => deposit_step(c, t.tx, amount.spec_units()),
        TransactionVariant::Withdrawal { amount } => withdrawal_step(c, t.tx, amount.spec_units()),
        TransactionVariant::Dispute => dispute_step(c, t.tx),
        TransactionVariant::Resolve => resolve_step(c, t.tx),
        TransactionVariant::Chargeback => chargeback_step(c, t.tx),
    }
}

/// The error reported for a state that breaks the invariants.
pub open spec fn failure(c: ClientModel) -> ClientError {
    if c.available < 0 {
        ClientError::NegativeAvailable
    } else if c.held < 0 {
        ClientError::NegativeHeld
    } else {
        ClientError::TooLarge
    }
}

/// New balances and lock flag, and the entry to write, if any.
struct Change {
    available: i128,
    held: i128,
    locked: bool,
    entry: Option<Tx>,
}

spec fn applied(c: ClientModel, ch: Change) -> ClientModel {
    ClientModel {
        id: c.id,
        available: ch.available as int,
        held: ch.held as int,
        locked: ch.locked,
        txs: match ch.entry {
            Some(e) => c.txs.insert(e.id, e),
            None => c.txs,
        },
    }
}

spec fn change_bounded(ch: Change) -> bool {
    &&& -MAX_BALANCE - MAX_UNITS <= ch.available <= MAX_BALANCE + MAX_UNITS
    &&& -MAX_BALANCE - MAX_UNITS <= ch.held <= MAX_BALANCE + MAX_UNITS
    &&& ch.entry matches Some(e) ==> -MAX_UNITS <= entry_amount(e) <= MAX_UNITS
}

/// An individual client's account. Transaction ids are scoped to the client.
#[derive(Debug)]
pub struct Client {
    id: u16,
    available: i128,
    held: i128,
    locked: bool,
    txs: HashMap<u32, Tx>,
}

impl View for Client {
    type V = ClientModel;

    closed spec fn view(&self) -> ClientModel {
        ClientModel {
            id: self.id,
            available: self.available as int,
            held: self.held as int,
            locked: self.locked,
            txs: self.txs@,
        }
    }
}

impl Client {
    pub open spec fn wf(&self) -> bool {
        valid(self@) && entries_bounded(self@)
    }

    pub fn new(id: u16) -> (r: Client)
        ensures
            r@ == fresh_client(id),
            r.wf(),
    {
        Client { id, available: 0, held: 0, locked: false, txs: HashMap::new() }
    }

    pub fn id(&self) -> (r: u16)
        ensures
            r == self@.id,
    {
        self.id
    }

    /// Available funds, in units of 10^-4.
    pub fn available(&self) -> (r: i128)
        ensures
            r == self@.available,
    {
        self.available
    }

    /// Held funds, in units of 10^-4.
    pub fn held(&self) -> (r: i128)
        ensures
            r == self@.held,
    {
        self.held
    }

    pub fn locked(&self) -> (r: bool)
        ensures
            r == self@.locked,
    {
        self.locked
    }

    /// The total of the account, available plus held, in units of 10^-4;
    /// derived, so that it always equals that sum.
    pub fn total(&self) -> (r: i128)
        requires
            self.wf(),
        ensures
            r == total_of(self@),
    {
        self.available + self.held
    }

    /// The accepted deposit or withdrawal with id `tx`, if any.
    pub fn entry(&self, tx: u32) -> (r: Option<Tx>)
        ensures
            r matches Some(e) ==> self@.txs.contains_key(tx) && e == self@.txs[tx],
            r is None ==> !self@.txs.contains_key(tx),
    {
        match self.txs.get(&tx) {
            Some(e) => Some(*e),
            None => None,
        }
    }

    fn get_tx(&self, tx: u32) -> (r: Option<Tx>)
        ensures
            r matches Some(e) ==> self@.txs.contains_key(tx) && e == self@.txs[tx],
            r is None ==> !self@.txs.contains_key(tx),
    {
        self.entry(tx)
    }

    fn deposit(&self, tx: u32, amount: Amount) -> (r: Change)
        requires
            self.wf(),
        ensures
            applied(self@, r) == deposit_step(self@, tx, amount.spec_units()),
            change_bounded(r),
    {
        let units = amount.units();
        Change {
            available: self.available + units,
            held: self.held,
            locked: self.locked,
            entry: Some(Tx::new(tx, TxAmount::Deposit(units))),
        }
    }

    fn withdrawal(&self, tx: u32, amount: Amount) -> (r: Change)
        requires
            self.wf(),
        ensures
            applied(self@, r) == withdrawal_step(self@, tx, amount.spec_units()),
            change_bounded(r),
    {
        let units = amount.units();
        // A withdrawal without enough funds is ignored.
        if units <= self.available {
            Change {
                available: self.available - units,
                held: self.held,
                locked: self.locked,
                entry: Some(Tx::new(tx, TxAmount::Withdrawal(units))),
            }
        } else {
            Change { available: self.available, held: self.held, locked: self.locked, entry: None }
        }
    }

    fn dispute(&self, tx: u32) -> (r: Change)
        requires
            self.wf(),
        ensures
            applied(self@, r) == dispute_step(self@, tx),
            change_bounded(r),
    {
        match self.get_tx(tx) {
            Some(e) => {
                let entry = Tx { disputed: true, ..e };
                match e.amount {
                    TxAmount::Deposit(a) => Change {
                        available: self.available - a,
                        held: self.held + a,
                        locked: self.locked,
                        entry: Some(entry),
                    },
                    TxAmount::Withdrawal(a) => Change {
                        available: self.available,
                        held: self.held + a,
                        locked: self.locked,
                        entry: Some(entry),
                    },
                }
            },
            // An unknown transaction is ignored.
            None => Change {
                available: self.available,
                held: self.held,
                locked: self.locked,
                entry: None,
            },
        }
    }

    fn resolve(&self, tx: u32) -> (r: Change)
        requires
            self.wf(),
        ensures
            applied(self@, r) == resolve_step(self@, tx),
            change_bounded(r),
    {
        let unchanged = Change {
            available: self.available,
            held: self.held,
            locked: self.locked,
            entry: None,
        };
        // Unknown transactions and those not under dispute are ignored.
        match self.get_tx(tx) {
            Some(e) => {
                if !e.disputed {
                    return unchanged;
                }
                let entry = Tx { disputed: false, ..e };
                match e.amount {
                    TxAmount::Deposit(a) => Change {
                        available: self.available + a,
                        held: self.held - a,
                        locked: self.locked,
                        entry: Some(entry),
                    },
                    TxAmount::Withdrawal(a) => Change {
                        available: self.available,
                        held: self.held - a,
                        locked: self.locked,
                        entry: Some(entry),
                    },
                }
            },
            None => unchanged,
        }
    }

    fn chargeback(&self, tx: u32) -> (r: Change)
        requires
            self.wf(),
        ensures
            applied(self@, r) == chargeback_step(self@, tx),
            change_bounded(r),
    {
        let unchanged = Change {
            available: self.available,
            held: self.held,
            locked: self.locked,
            entry: None,
        };
        // Unknown transactions and those not under dispute are ignored.
        match self.get_tx(tx) {
            Some(e) => {
                if !e.disputed {
                    return unchanged;
                }
                let entry = Tx { disputed: false, ..e };
                match e.amount {
                    TxAmount::Deposit(a) => Change {
                        available: self.available,
                        held: self.held - a,
                        locked: true,
                        entry: Some(entry),
                    },
                    TxAmount::Withdrawal(a) => Change {
                        available: self.available + a,
                        held: self.held - a,
                        locked: true,
                        entry: Some(entry),
                    },
                }
            },
            None => unchanged,
        }
    }

    /// Applies `t` to this account (its client field is not consulted). Where
    /// the result would break the invariants the account is left unchanged
    /// and the broken invariant is reported.
    pub fn execute(&mut self, t: Transaction) -> (r: Result<(), ClientError>)
        requires
            old(self).wf(),
        ensures
            final(self).wf(),
            valid(step(old(self)@, t)) ==> r is Ok && final(self)@ == step(old(self)@, t),
            !valid(step(old(self)@, t)) ==> r == Err::<(), ClientError>(
                failure(step(old(self)@, t)),
            ) && final(self)@ == old(self)@,
    {
        let ch = match t.variant {
            TransactionVariant::Deposit { amount } => self.deposit(t.tx, amount),
            TransactionVariant::Withdrawal { amount } => self.withdrawal(t.tx, amount),
            TransactionVariant::Dispute => self.dispute(t.tx),
            TransactionVariant::Resolve => self.resolve(t.tx),
            TransactionVariant::Chargeback => self.chargeback(t.tx),
        };
        assert(applied(self@, ch) == step(self@, t));
        if ch.available < 0 {
            return Err(ClientError::NegativeAvailable);
        }
        if ch.held < 0 {
            return Err(ClientError::NegativeHeld);
        }
        if ch.available > MAX_BALANCE - ch.held {
            return Err(ClientError::TooLarge);
        }
        self.available = ch.available;
        self.held = ch.held;
        self.locked = ch.locked;
        if let Some(e) = ch.entry {
            self.txs.insert(e.id, e);
        }
        assert(self@ =~= applied(old(self)@, ch));
        Ok(())
    }
}

} // verus!
