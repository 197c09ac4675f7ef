//! A PIN-gated account ledger: accounts with integer balances, and the
//! operations that create, fund, drain, move money between and close them.

pub mod account;
pub mod amount;
pub mod pin;
pub mod ledger;
pub mod laws;
