use atm::amount::Amount;
use atm::atm::{run, Atm, Transaction, TransactionVariant};
use atm::client::{Client, ClientError, TxAmount};

fn amount(mantissa: i128, scale: u32) -> Amount {
    Amount::new(mantissa, scale).unwrap()
}

fn deposit(client: u16, tx: u32, mantissa: i128, scale: u32) -> Transaction {
    Transaction { client, tx, variant: TransactionVariant::Deposit { amount: amount(mantissa, scale) } }
}

fn withdrawal(client: u16, tx: u32, mantissa: i128, scale: u32) -> Transaction {
    Transaction {
        client,
        tx,
        variant: TransactionVariant::Withdrawal { amount: amount(mantissa, scale) },
    }
}

fn other(client: u16, tx: u32, variant: TransactionVariant) -> Transaction {
    Transaction { client, tx, variant }
}

fn balances(c: &Client) -> (i128, i128, i128, bool) {
    (c.available(), c.held(), c.total(), c.locked())
}

#[test]
fn two_deposits_add_up() {
    let atm = run(vec![deposit(1, 1, 10, 1), deposit(1, 2, 20, 1)]).unwrap();
    assert_eq!(balances(atm.client(1).unwrap()), (30000, 0, 30000, false));
}

#[test]
fn deposit_then_partial_withdrawal() {
    let atm = run(vec![deposit(1, 1, 10, 1), withdrawal(1, 2, 5, 1)]).unwrap();
    assert_eq!(balances(atm.client(1).unwrap()), (5000, 0, 5000, false));
}

#[test]
fn dispute_moves_deposit_to_held() {
    let atm = run(vec![deposit(1, 1, 50, 1), other(1, 1, TransactionVariant::Dispute)]).unwrap();
    assert_eq!(balances(atm.client(1).unwrap()), (0, 50000, 50000, false));
}

#[test]
fn chargeback_after_dispute_locks() {
    let atm = run(vec![
        deposit(1, 1, 50, 1),
        other(1, 1, TransactionVariant::Dispute),
        other(1, 1, TransactionVariant::Chargeback),
    ])
    .unwrap();
    assert_eq!(balances(atm.client(1).unwrap()), (0, 0, 0, true));
}

#[test]
fn unfunded_withdrawal_is_ignored() {
    let atm = run(vec![withdrawal(1, 1, 1000, 1)]).unwrap();
    let c = atm.client(1).unwrap();
    assert_eq!(balances(c), (0, 0, 0, false));
    assert_eq!(c.entry(1), None);
    let atm = run(vec![withdrawal(1, 1, 1000, 1), other(1, 1, TransactionVariant::Dispute)]).unwrap();
    assert_eq!(balances(atm.client(1).unwrap()), (0, 0, 0, false));
}

#[test]
fn settling_undisputed_entry_changes_nothing() {
    let atm = run(vec![
        deposit(1, 1, 30, 1),
        other(1, 1, TransactionVariant::Resolve),
        other(1, 1, TransactionVariant::Chargeback),
        other(1, 9, TransactionVariant::Resolve),
        other(1, 9, TransactionVariant::Chargeback),
    ])
    .unwrap();
    let c = atm.client(1).unwrap();
    assert_eq!(balances(c), (30000, 0, 30000, false));
    assert_eq!(c.entry(1).unwrap().disputed, false);
}

#[test]
fn dispute_then_resolve_restores_balances() {
    let atm = run(vec![
        deposit(1, 1, 30, 1),
        deposit(1, 3, 10, 1),
        withdrawal(1, 2, 10, 1),
        other(1, 1, TransactionVariant::Dispute),
        other(1, 1, TransactionVariant::Resolve),
        other(1, 2, TransactionVariant::Dispute),
        other(1, 2, TransactionVariant::Resolve),
    ])
    .unwrap();
    let c = atm.client(1).unwrap();
    assert_eq!(balances(c), (30000, 0, 30000, false));
    assert_eq!(c.entry(2).unwrap().amount, TxAmount::Withdrawal(10000));
}

#[test]
fn withdrawal_dispute_and_chargeback() {
    let mut atm = Atm::new();
    assert_eq!(atm.execute(deposit(2, 1, 30, 1)), Ok(()));
    assert_eq!(atm.execute(withdrawal(2, 2, 10, 1)), Ok(()));
    assert_eq!(atm.execute(other(2, 2, TransactionVariant::Dispute)), Ok(()));
    assert_eq!(balances(atm.client(2).unwrap()), (20000, 10000, 30000, false));
    assert_eq!(atm.execute(other(2, 2, TransactionVariant::Chargeback)), Ok(()));
    assert_eq!(balances(atm.client(2).unwrap()), (30000, 0, 30000, true));
    // The lock is recorded but does not block later transactions.
    assert_eq!(atm.execute(deposit(2, 3, 1, 0)), Ok(()));
    assert_eq!(balances(atm.client(2).unwrap()), (40000, 0, 40000, true));
}

#[test]
fn transaction_ids_are_per_client() {
    let atm = run(vec![
        deposit(1, 1, 10, 1),
        deposit(2, 1, 20, 1),
        other(2, 1, TransactionVariant::Dispute),
    ])
    .unwrap();
    assert_eq!(balances(atm.client(1).unwrap()), (10000, 0, 10000, false));
    assert_eq!(balances(atm.client(2).unwrap()), (0, 20000, 20000, false));
    let mut ids = atm.client_ids();
    ids.sort();
    assert_eq!(ids, vec![1, 2]);
    assert!(atm.client(3).is_none());
}

#[test]
fn reused_id_replaces_entry() {
    let atm = run(vec![
        deposit(1, 7, 10, 1),
        deposit(1, 7, 20, 1),
        other(1, 7, TransactionVariant::Dispute),
    ])
    .unwrap();
    assert_eq!(balances(atm.client(1).unwrap()), (10000, 20000, 30000, false));
}

#[test]
fn disputing_spent_deposit_is_fatal() {
    let r = run(vec![
        deposit(1, 1, 50, 1),
        withdrawal(1, 2, 50, 1),
        other(1, 1, TransactionVariant::Dispute),
    ]);
    assert_eq!(r.unwrap_err(), ClientError::NegativeAvailable);
}

#[test]
fn negative_held_is_fatal() {
    let mut c = Client::new(4);
    assert_eq!(c.execute(withdrawal(4, 1, -5, 0)), Ok(()));
    assert_eq!(balances(&c), (50000, 0, 50000, false));
    assert_eq!(c.execute(other(4, 1, TransactionVariant::Dispute)), Err(ClientError::NegativeHeld));
    // A refused transaction leaves the account as it was.
    assert_eq!(balances(&c), (50000, 0, 50000, false));
    assert_eq!(c.entry(1).unwrap().disputed, false);
}

#[test]
fn balance_beyond_limit_is_refused() {
    let big = atm::amount::MAX_MANTISSA;
    let r = run(vec![deposit(1, 1, big, 0)]);
    assert_eq!(r.unwrap_err(), ClientError::TooLarge);
    let atm = run(vec![deposit(1, 1, big, 4)]).unwrap();
    assert_eq!(atm.client(1).unwrap().total(), big);
}

#[test]
fn amounts_round_to_four_places_half_even() {
    assert_eq!(amount(123455, 5).units(), 12346);
    assert_eq!(amount(123445, 5).units(), 12344);
    assert_eq!(amount(-123455, 5).units(), -12346);
    assert_eq!(amount(123456789, 8).units(), 12346);
    assert_eq!(amount(15, 1).units(), 15000);
    assert_eq!(amount(7, 0).units(), 70000);
    assert_eq!(amount(1, 28).units(), 0);
}

#[test]
fn amount_limits() {
    assert!(Amount::new(atm::amount::MAX_MANTISSA + 1, 0).is_none());
    assert!(Amount::new(1, 29).is_none());
    let a = Amount::new(-atm::amount::MAX_MANTISSA, 28).unwrap();
    assert_eq!((a.mantissa(), a.scale()), (-atm::amount::MAX_MANTISSA, 28));
}

#[test]
fn deposit_is_rounded_before_use() {
    let atm = run(vec![deposit(1, 1, 100005, 5), withdrawal(1, 2, 10000, 4)]).unwrap();
    let c = atm.client(1).unwrap();
    assert_eq!(balances(c), (0, 0, 0, false));
    assert_eq!(c.entry(1).unwrap().amount, TxAmount::Deposit(10000));
}
