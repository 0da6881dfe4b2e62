//! A ledger that replays client payment transactions in arrival order and
//! keeps, per client, the available and held funds, the lock flag, and the
//! deposits and withdrawals that later disputes refer to.

pub mod amount;
pub mod atm;
pub mod client;
pub mod laws;
