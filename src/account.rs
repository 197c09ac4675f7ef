//! Accounts and the failures of ledger operations.

use vstd::prelude::*;

verus! {

/// One row of the ledger.
#[derive(Debug)]
pub struct Account {
    pub id: u64,
    pub account_number: String,
    pub balance: u64,
    pub pin: String,
}

/// An account as a mathematical value.
pub ghost struct AccountModel {
    pub id: int,
    pub number: Seq<char>,
    pub balance: int,
    pub pin: Seq<char>,
}

impl View for Account {
    type V = AccountModel;

    open spec fn view(&self) -> AccountModel {
        AccountModel {
            id: self.id as int,
            number: self.account_number@,
            balance: self.balance as int,
            pin: self.pin@,
        }
    }
}

impl Account {
    /// A copy of this account, field for field.
    pub fn duplicate(&self) -> (r: Account)
        ensures
            r@ == self@,
    {
        Account {
            id: self.id,
            account_number: self.account_number.clone(),
            balance: self.balance,
            pin: self.pin.clone(),
        }
    }
}

/// Why a ledger operation refused to act. None of them changes the ledger.
#[derive(Debug, Clone, Copy, PartialEq, Eq, Structural)]
pub enum LedgerError {
    /// The store's rows do not form a valid ledger.
    Storage,
    /// No account has the given account number.
    NotFound,
    /// The PIN does not match the account's PIN.
    WrongPin,
    /// The amount is larger than the balance it is taken from.
    InsufficientFunds,
    /// The amount is not a non-negative integer that fits in a `u64`.
    InvalidAmount,
    /// A transfer names the same account twice.
    SameAccount,
    /// An account with the given account number already exists.
    DuplicateAccount,
    /// A balance or the identifier counter would pass `u64::MAX`.
    Overflow,
}

} // verus!
