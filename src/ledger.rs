//! The ledger: its model, its invariant, and the operations on it.

use vstd::prelude::*;
use vstd::string::StringSliceAdditionalSpecFns;

use crate::account::{Account, AccountModel, LedgerError};
use crate::amount::{amount_value, is_amount_text, parse_amount};
use crate::pin::{generate_pin, is_pin, pin_matches};

verus! {

/// The accounts of a ledger, and the identifier the next account will get.
pub struct Ledger {
    accounts: Vec<Account>,
    next_id: u64,
}

/// A ledger as a mathematical value.
pub ghost struct LedgerModel {
    pub accounts: Seq<AccountModel>,
    pub next_id: int,
}

impl View for Ledger {
    type V = LedgerModel;

    closed spec fn view(&self) -> LedgerModel {
        LedgerModel { accounts: self.accounts@.map_values(|a: Account| a@), next_id: self.next_id as int }
    }
}

impl LedgerModel {
    /// Whether some account has the account number `n`.
    pub open spec fn has_account(self, n: Seq<char>) -> bool {
        exists|i: int| 0 <= i < self.accounts.len() && #[trigger] self.accounts[i].number == n
    }

    /// The position of the account with account number `n`.
    pub open spec fn index_of(self, n: Seq<char>) -> int {
        choose|i: int| 0 <= i < self.accounts.len() && #[trigger] self.accounts[i].number == n
    }

    /// The account with account number `n`.
    pub open spec fn account(self, n: Seq<char>) -> AccountModel {
        self.accounts[self.index_of(n)]
    }

    /// Identifiers are at least one, distinct, and below the next one to be
    /// given; account numbers are distinct; balances fit in a `u64`.
    pub open spec fn wf(self) -> bool {
        &&& 1 <= self.next_id <= u64::MAX
        &&& forall|i: int|
            0 <= i < self.accounts.len() ==> 1 <= #[trigger] self.accounts[i].id < self.next_id
        &&& forall|i: int|
            0 <= i < self.accounts.len() ==> 0 <= #[trigger] self.accounts[i].balance <= u64::MAX
        &&& forall|i: int, j: int|
            0 <= i < self.accounts.len() && 0 <= j < self.accounts.len() && i != j
                ==> #[trigger] self.accounts[i].id != #[trigger] self.accounts[j].id
        &&& forall|i: int, j: int|
            0 <= i < self.accounts.len() && 0 <= j < self.accounts.len() && i != j
                ==> #[trigger] self.accounts[i].number != #[trigger] self.accounts[j].number
    }

    /// The ledger with the balance at position `i` set to `b`.
    pub open spec fn with_balance(self, i: int, b: int) -> LedgerModel {
        let a = self.accounts[i];
        LedgerModel {
            accounts: self.accounts.update(
                i,
                AccountModel { id: a.id, number: a.number, balance: b, pin: a.pin },
            ),
            next_id: self.next_id,
        }
    }
}

/// The index of the account with account number `n` is the one position
/// that holds it.
pub proof fn lemma_index_of(m: LedgerModel, n: Seq<char>, i: int)
    requires
        m.wf(),
        0 <= i < m.accounts.len(),
        m.accounts[i].number == n,
    ensures
        m.has_account(n),
        m.index_of(n) == i,
        m.account(n) == m.accounts[i],
{
    assert(m.has_account(n));
    let k = m.index_of(n);
    if k != i {
        assert(m.accounts[k].number != m.accounts[i].number);
    }
}

impl Ledger {
    pub open spec fn wf(&self) -> bool {
        self@.wf()
    }

    /// A ledger with no accounts, whose first account gets identifier 1.
    pub fn new() -> (r: Ledger)
        ensures
            r.wf(),
            r@.accounts.len() == 0,
            r@.next_id == 1,
    {
        Ledger { accounts: Vec::new(), next_id: 1 }
    }

    /// The identifier the next created account will get.
    pub fn next_id(&self) -> (r: u64)
        ensures
            r == self@.next_id,
    {
        self.next_id
    }

    /// The accounts, in the order they were added.
    pub fn accounts(&self) -> (r: &Vec<Account>)
        ensures
            r@.map_values(|a: Account| a@) == self@.accounts,
    {
        &self.accounts
    }

    /// The position of the account with account number `n`, if any.
    fn find(&self, n: &str) -> (r: Option<usize>)
        requires
            self.wf(),
        ensures
            r is None <==> !self@.has_account(n@),
            r matches Some(i) ==> i < self@.accounts.len() && i == self@.index_of(n@),
    {
        let key: String = n.to_owned();
        let mut i: usize = 0;
        while i < self.accounts.len()
            invariant
                self.wf(),
                key@ == n@,
                i <= self.accounts@.len(),
                forall|j: int| 0 <= j < i ==> self@.accounts[j].number != n@,
            decreases self.accounts@.len() - i,
        {
            if self.accounts[i].account_number == key {
                proof {
                    lemma_index_of(self@, n@, i as int);
                }
                return Some(i);
            }
            i = i + 1;
        }
        assert(!self@.has_account(n@));
        None
    }

    /// Sets the balance at position `i` to `b`.
    fn set_balance(&mut self, i: usize, b: u64)
        requires
            i < old(self)@.accounts.len(),
        ensures
            final(self)@ == old(self)@.with_balance(i as int, b as int),
    {
        let a = &self.accounts[i];
        let updated = Account {
            id: a.id,
            account_number: a.account_number.clone(),
            balance: b,
            pin: a.pin.clone(),
        };
        self.accounts.set(i, updated);
        assert(self@.accounts =~= old(self)@.with_balance(i as int, b as int).accounts);
    }
}

/// The ledger after appending an account with identifier `m.next_id`.
pub open spec fn created(m: LedgerModel, n: Seq<char>, pin: Seq<char>, balance: int) -> LedgerModel {
    LedgerModel {
        accounts: m.accounts.push(AccountModel { id: m.next_id, number: n, balance, pin }),
        next_id: m.next_id + 1,
    }
}

/// What creating an account with number `n` in `m` comes to.
pub open spec fn create_outcome(m: LedgerModel, n: Seq<char>) -> Result<(), LedgerError> {
    if m.has_account(n) {
        Err(LedgerError::DuplicateAccount)
    } else if m.next_id >= u64::MAX {
        Err(LedgerError::Overflow)
    } else {
        Ok(())
    }
}

/// What a deposit comes to: the new balance, or why it is refused.
pub open spec fn deposit_outcome(m: LedgerModel, amount: Seq<u8>, pin: Seq<char>, n: Seq<char>) -> Result<int, LedgerError> {
    if !m.has_account(n) {
        Err(LedgerError::NotFound)
    } else if m.account(n).pin != pin {
        Err(LedgerError::WrongPin)
    } else if !is_amount_text(amount) {
        Err(LedgerError::InvalidAmount)
    } else if m.account(n).balance + amount_value(amount) > u64::MAX {
        Err(LedgerError::Overflow)
    } else {
        Ok(m.account(n).balance + amount_value(amount))
    }
}

/// What a withdrawal comes to: the new balance, or why it is refused.
pub open spec fn withdraw_outcome(m: LedgerModel, amount: Seq<u8>, pin: Seq<char>, n: Seq<char>) -> Result<int, LedgerError> {
    if !m.has_account(n) {
        Err(LedgerError::NotFound)
    } else if m.account(n).pin != pin {
        Err(LedgerError::WrongPin)
    } else if !is_amount_text(amount) {
        Err(LedgerError::InvalidAmount)
    } else if amount_value(amount) > m.account(n).balance {
        Err(LedgerError::InsufficientFunds)
    } else {
        Ok(m.account(n).balance - amount_value(amount))
    }
}

/// What a transfer from `o` to `t` comes to: the amount moved, or why it is
/// refused.
pub open spec fn transfer_outcome(
    m: LedgerModel,
    amount: Seq<u8>,
    pin: Seq<char>,
    o: Seq<char>,
    t: Seq<char>,
) -> Result<int, LedgerError> {
    if o == t {
        Err(LedgerError::SameAccount)
    } else if !m.has_account(o) || !m.has_account(t) {
        Err(LedgerError::NotFound)
    } else if m.account(o).pin != pin {
        Err(LedgerError::WrongPin)
    } else if !is_amount_text(amount) {
        Err(LedgerError::InvalidAmount)
    } else if amount_value(amount) > m.account(o).balance {
        Err(LedgerError::InsufficientFunds)
    } else if m.account(t).balance + amount_value(amount) > u64::MAX {
        Err(LedgerError::Overflow)
    } else {
        Ok(amount_value(amount))
    }
}

/// The ledger after `x` moves from the account `o` to the account `t`.
pub open spec fn transferred(m: LedgerModel, o: Seq<char>, t: Seq<char>, x: int) -> LedgerModel {
    m.with_balance(m.index_of(o), m.account(o).balance - x).with_balance(
        m.index_of(t),
        m.account(t).balance + x,
    )
}

/// What closing the account `n` comes to.
pub open spec fn delete_outcome(m: LedgerModel, n: Seq<char>, pin: Seq<char>) -> Result<(), LedgerError> {
    if !m.has_account(n) {
        Err(LedgerError::NotFound)
    } else if m.account(n).pin != pin {
        Err(LedgerError::WrongPin)
    } else {
        Ok(())
    }
}

/// The ledger without the account `n`; the identifier counter stays.
pub open spec fn deleted(m: LedgerModel, n: Seq<char>) -> LedgerModel {
    LedgerModel { accounts: m.accounts.remove(m.index_of(n)), next_id: m.next_id }
}

/// The account with account number `account_number`.
pub fn fetch_account(ledger: &Ledger, account_number: &str) -> (r: Result<Account, LedgerError>)
    requires
        ledger.wf(),
    ensures
        ledger@.has_account(account_number@) ==> r is Ok && r->Ok_0@ == ledger@.account(
            account_number@,
        ),
        !ledger@.has_account(account_number@) ==> r == Err::<Account, LedgerError>(
            LedgerError::NotFound,
        ),
{
    match ledger.find(account_number) {
        Some(i) => Ok(ledger.accounts[i].duplicate()),
        None => Err(LedgerError::NotFound),
    }
}

/// The balance of the account with account number `account_number`.
pub fn show_balance(ledger: &Ledger, account_number: &str) -> (r: Result<u64, LedgerError>)
    requires
        ledger.wf(),
    ensures
        ledger@.has_account(account_number@) ==> r is Ok && r->Ok_0 == ledger@.account(
            account_number@,
        ).balance,
        !ledger@.has_account(account_number@) ==> r == Err::<u64, LedgerError>(
            LedgerError::NotFound,
        ),
{
    match ledger.find(account_number) {
        Some(i) => Ok(ledger.accounts[i].balance),
        None => Err(LedgerError::NotFound),
    }
}

/// Opens an account with the given PIN and initial balance. It gets the
/// ledger's next identifier, and the counter moves past it.
pub fn create_account_with_pin(
    ledger: &mut Ledger,
    account_number: &str,
    pin: String,
    balance: u64,
) -> (r: Result<Account, LedgerError>)
    requires
        old(ledger).wf(),
    ensures
        final(ledger).wf(),
        create_outcome(old(ledger)@, account_number@) is Ok ==> r is Ok && r->Ok_0@ == (
        AccountModel {
            id: old(ledger)@.next_id,
            number: account_number@,
            balance: balance as int,
            pin: pin@,
        }) && final(ledger)@ == created(old(ledger)@, account_number@, pin@, balance as int)
            && final(ledger)@.has_account(account_number@) && final(ledger)@.account(account_number@)
            == r->Ok_0@,
        create_outcome(old(ledger)@, account_number@) is Err ==> r == Err::<Account, LedgerError>(
            create_outcome(old(ledger)@, account_number@)->Err_0,
        ) && final(ledger)@ == old(ledger)@,
{
    if ledger.find(account_number).is_some() {
        return Err(LedgerError::DuplicateAccount);
    }
    if ledger.next_id == u64::MAX {
        return Err(LedgerError::Overflow);
    }
    let account = Account {
        id: ledger.next_id,
        account_number: account_number.to_owned(),
        balance,
        pin,
    };
    let result = account.duplicate();
    ledger.accounts.push(account);
    ledger.next_id = ledger.next_id + 1;
    let ghost m = created(old(ledger)@, account_number@, result.pin@, balance as int);
    assert(ledger@.accounts =~= m.accounts);
    assert forall|i: int, j: int|
        0 <= i < m.accounts.len() && 0 <= j < m.accounts.len() && i != j implies #[trigger] m.accounts[i].number
        != #[trigger] m.accounts[j].number by {
        if i == m.accounts.len() - 1 {
            assert(old(ledger)@.accounts[j] == m.accounts[j]);
        } else if j == m.accounts.len() - 1 {
            assert(old(ledger)@.accounts[i] == m.accounts[i]);
        }
    }
    proof {
        lemma_index_of(ledger@, account_number@, m.accounts.len() - 1);
    }
    Ok(result)
}

/// Opens an account with a freshly drawn six-digit PIN; the account returned
/// is the one chance to learn that PIN.
pub fn create_account(ledger: &mut Ledger, account_number: &str, balance: u64) -> (r: Result<
    Account,
    LedgerError,
>)
    requires
        old(ledger).wf(),
    ensures
        final(ledger).wf(),
        create_outcome(old(ledger)@, account_number@) is Ok ==> r is Ok && is_pin(r->Ok_0.pin@)
            && r->Ok_0@ == (AccountModel {
            id: old(ledger)@.next_id,
            number: account_number@,
            balance: balance as int,
            pin: r->Ok_0.pin@,
        }) && final(ledger)@ == created(old(ledger)@, account_number@, r->Ok_0.pin@, balance as int)
            && final(ledger)@.has_account(account_number@) && final(ledger)@.account(account_number@)
            == r->Ok_0@,
        create_outcome(old(ledger)@, account_number@) is Err ==> r == Err::<Account, LedgerError>(
            create_outcome(old(ledger)@, account_number@)->Err_0,
        ) && final(ledger)@ == old(ledger)@,
{
    let pin = generate_pin();
    create_account_with_pin(ledger, account_number, pin, balance)
}

/// Setting one balance keeps the invariant and the place of every account.
pub proof fn lemma_with_balance(m: LedgerModel, i: int, b: int, n: Seq<char>)
    requires
        m.wf(),
        0 <= i < m.accounts.len(),
        0 <= b <= u64::MAX,
        m.has_account(n),
    ensures
        m.with_balance(i, b).wf(),
        m.with_balance(i, b).has_account(n),
        m.with_balance(i, b).index_of(n) == m.index_of(n),
{
    let k = m.index_of(n);
    lemma_index_of(m, n, k);
    let m2 = m.with_balance(i, b);
    assert(m2.accounts[k].number == n);
    lemma_index_of(m2, n, k);
}

/// Adds `amount` to the balance of the account `account_number`, after its
/// PIN is checked.
pub fn deposit(ledger: &mut Ledger, amount: &str, pin: &str, account_number: &str) -> (r: Result<
    Account,
    LedgerError,
>)
    requires
        old(ledger).wf(),
    ensures
        final(ledger).wf(),
        ({
            let m = old(ledger)@;
            let n = account_number@;
            match deposit_outcome(m, amount.spec_bytes(), pin@, n) {
                Ok(b) => r is Ok && final(ledger)@ == m.with_balance(m.index_of(n), b)
                    && final(ledger)@.has_account(n) && r->Ok_0@ == final(ledger)@.account(n),
                Err(e) => r == Err::<Account, LedgerError>(e) && final(ledger)@ == m,
            }
        }),
{
    let i = match ledger.find(account_number) {
        Some(i) => i,
        None => return Err(LedgerError::NotFound),
    };
    proof {
        lemma_index_of(old(ledger)@, account_number@, i as int);
    }
    if !pin_matches(&ledger.accounts[i].pin, pin) {
        return Err(LedgerError::WrongPin);
    }
    let value = match parse_amount(amount) {
        Ok(v) => v,
        Err(e) => return Err(e),
    };
    let balance = ledger.accounts[i].balance;
    if balance > u64::MAX - value {
        return Err(LedgerError::Overflow);
    }
    ledger.set_balance(i, balance + value);
    proof {
        lemma_with_balance(old(ledger)@, i as int, (balance + value) as int, account_number@);
        lemma_index_of(ledger@, account_number@, i as int);
    }
    Ok(ledger.accounts[i].duplicate())
}

/// Takes `amount` from the balance of the account `account_number`, after
/// its PIN is checked; never more than the balance.
pub fn withdraw(ledger: &mut Ledger, amount: &str, pin: &str, account_number: &str) -> (r: Result<
    Account,
    LedgerError,
>)
    requires
        old(ledger).wf(),
    ensures
        final(ledger).wf(),
        ({
            let m = old(ledger)@;
            let n = account_number@;
            match withdraw_outcome(m, amount.spec_bytes(), pin@, n) {
                Ok(b) => r is Ok && final(ledger)@ == m.with_balance(m.index_of(n), b)
                    && final(ledger)@.has_account(n) && r->Ok_0@ == final(ledger)@.account(n),
                Err(e) => r == Err::<Account, LedgerError>(e) && final(ledger)@ == m,
            }
        }),
{
    let i = match ledger.find(account_number) {
        Some(i) => i,
        None => return Err(LedgerError::NotFound),
    };
    proof {
        lemma_index_of(old(ledger)@, account_number@, i as int);
    }
    if !pin_matches(&ledger.accounts[i].pin, pin) {
        return Err(LedgerError::WrongPin);
    }
    let value = match parse_amount(amount) {
        Ok(v) => v,
        Err(e) => return Err(e),
    };
    let balance = ledger.accounts[i].balance;
    if value > balance {
        return Err(LedgerError::InsufficientFunds);
    }
    ledger.set_balance(i, balance - value);
    proof {
        lemma_with_balance(old(ledger)@, i as int, (balance - value) as int, account_number@);
        lemma_index_of(ledger@, account_number@, i as int);
    }
    Ok(ledger.accounts[i].duplicate())
}

/// Moves `amount` from the account `origin_account` to the account
/// `target_account`, after the origin's PIN is checked: both balances change,
/// or neither does. Returns both accounts as they stand afterwards.
pub fn transfer(
    ledger: &mut Ledger,
    amount: &str,
    pin: &str,
    origin_account: &str,
    target_account: &str,
) -> (r: Result<(Account, Account), LedgerError>)
    requires
        old(ledger).wf(),
    ensures
        final(ledger).wf(),
        ({
            let m = old(ledger)@;
            let o = origin_account@;
            let t = target_account@;
            match transfer_outcome(m, amount.spec_bytes(), pin@, o, t) {
                Ok(x) => r is Ok && final(ledger)@ == transferred(m, o, t, x)
                    && final(ledger)@.has_account(o) && final(ledger)@.has_account(t)
                    && r->Ok_0.0@ == final(ledger)@.account(o) && r->Ok_0.1@ == final(ledger)@.account(t),
                Err(e) => r == Err::<(Account, Account), LedgerError>(e) && final(ledger)@ == m,
            }
        }),
{
    let origin_key: String = origin_account.to_owned();
    let target_key: String = target_account.to_owned();
    if origin_key == target_key {
        return Err(LedgerError::SameAccount);
    }
    let i = match ledger.find(origin_account) {
        Some(i) => i,
        None => return Err(LedgerError::NotFound),
    };
    let j = match ledger.find(target_account) {
        Some(j) => j,
        None => return Err(LedgerError::NotFound),
    };
    if !pin_matches(&ledger.accounts[i].pin, pin) {
        return Err(LedgerError::WrongPin);
    }
    let value = match parse_amount(amount) {
        Ok(v) => v,
        Err(e) => return Err(e),
    };
    let from = ledger.accounts[i].balance;
    let to = ledger.accounts[j].balance;
    proof {
        lemma_index_of(old(ledger)@, origin_account@, i as int);
        lemma_index_of(old(ledger)@, target_account@, j as int);
    }
    if value > from {
        return Err(LedgerError::InsufficientFunds);
    }
    if to > u64::MAX - value {
        return Err(LedgerError::Overflow);
    }
    ledger.set_balance(i, from - value);
    proof {
        lemma_with_balance(old(ledger)@, i as int, (from - value) as int, target_account@);
        lemma_with_balance(old(ledger)@, i as int, (from - value) as int, origin_account@);
    }
    let ghost mid = ledger@;
    ledger.set_balance(j, to + value);
    proof {
        lemma_with_balance(mid, j as int, (to + value) as int, origin_account@);
        lemma_index_of(ledger@, origin_account@, i as int);
        lemma_index_of(ledger@, target_account@, j as int);
    }
    Ok((ledger.accounts[i].duplicate(), ledger.accounts[j].duplicate()))
}

/// Closes the account `account_number`, after its PIN is checked. Its
/// identifier is not given again.
pub fn delete_account(ledger: &mut Ledger, account_number: &str, pin: &str) -> (r: Result<
    (),
    LedgerError,
>)
    requires
        old(ledger).wf(),
    ensures
        final(ledger).wf(),
        ({
            let m = old(ledger)@;
            let n = account_number@;
            match delete_outcome(m, n, pin@) {
                Ok(_) => r is Ok && final(ledger)@ == deleted(m, n),
                Err(e) => r == Err::<(), LedgerError>(e) && final(ledger)@ == m,
            }
        }),
{
    let i = match ledger.find(account_number) {
        Some(i) => i,
        None => return Err(LedgerError::NotFound),
    };
    proof {
        lemma_index_of(old(ledger)@, account_number@, i as int);
    }
    if !pin_matches(&ledger.accounts[i].pin, pin) {
        return Err(LedgerError::WrongPin);
    }
    ledger.accounts.remove(i);
    assert(ledger@.accounts =~= deleted(old(ledger)@, account_number@).accounts);
    let ghost m = old(ledger)@;
    let ghost m2 = ledger@;
    assert forall|p: int| 0 <= p < m2.accounts.len() implies #[trigger] m2.accounts[p] == m.accounts[
        if p < i { p } else { p + 1 }
    ] by {}
    assert forall|p: int, q: int|
        0 <= p < m2.accounts.len() && 0 <= q < m2.accounts.len() && p != q implies #[trigger] m2.accounts[p].id
        != #[trigger] m2.accounts[q].id by {
        let pp = if p < i { p } else { p + 1 };
        let qq = if q < i { q } else { q + 1 };
        assert(m.accounts[pp].id != m.accounts[qq].id);
    }
    assert forall|p: int, q: int|
        0 <= p < m2.accounts.len() && 0 <= q < m2.accounts.len() && p != q implies #[trigger] m2.accounts[p].number
        != #[trigger] m2.accounts[q].number by {
        let pp = if p < i { p } else { p + 1 };
        let qq = if q < i { q } else { q + 1 };
        assert(m.accounts[pp].number != m.accounts[qq].number);
    }
    Ok(())
}

/// The largest identifier among `s`, or 0 when `s` is empty.
pub open spec fn max_id(s: Seq<AccountModel>) -> int
    decreases s.len(),
{
    if s.len() == 0 {
        0
    } else if s.last().id > max_id(s.drop_last()) {
        s.last().id
    } else {
        max_id(s.drop_last())
    }
}

/// Whether rows read back from a store form a ledger: identifiers from 1 to
/// below `u64::MAX`, distinct, and distinct account numbers.
pub open spec fn rows_valid(s: Seq<AccountModel>) -> bool {
    &&& forall|i: int| 0 <= i < s.len() ==> 1 <= #[trigger] s[i].id < u64::MAX
    &&& forall|i: int, j: int|
        0 <= i < s.len() && 0 <= j < s.len() && i != j ==> #[trigger] s[i].id != #[trigger] s[j].id
    &&& forall|i: int, j: int|
        0 <= i < s.len() && 0 <= j < s.len() && i != j ==> #[trigger] s[i].number
            != #[trigger] s[j].number
}

proof fn lemma_max_id_bounds(s: Seq<AccountModel>, bound: int)
    requires
        0 <= bound,
        forall|i: int| 0 <= i < s.len() ==> 0 <= #[trigger] s[i].id <= bound,
    ensures
        0 <= max_id(s) <= bound,
        forall|i: int| 0 <= i < s.len() ==> #[trigger] s[i].id <= max_id(s),
    decreases s.len(),
{
    if s.len() > 0 {
        let t = s.drop_last();
        assert forall|i: int| 0 <= i < t.len() implies 0 <= #[trigger] t[i].id <= bound by {
            assert(t[i] == s[i]);
        }
        lemma_max_id_bounds(t, bound);
        assert forall|i: int| 0 <= i < s.len() implies #[trigger] s[i].id <= max_id(s) by {
            if i < s.len() - 1 {
                assert(t[i] == s[i]);
            }
        }
    }
}

/// The largest identifier among `rows`, or 0 when there are none.
pub fn max_account_id(rows: &Vec<Account>) -> (r: u64)
    ensures
        r == max_id(rows@.map_values(|a: Account| a@)),
{
    let ghost s = rows@.map_values(|a: Account| a@);
    let mut x: u64 = 0;
    let mut i: usize = 0;
    while i < rows.len()
        invariant
            s == rows@.map_values(|a: Account| a@),
            i <= rows@.len(),
            x == max_id(s.take(i as int)),
        decreases rows@.len() - i,
    {
        assert(s.take(i + 1).drop_last() =~= s.take(i as int));
        if rows[i].id > x {
            x = rows[i].id;
        }
        i = i + 1;
    }
    assert(s.take(i as int) =~= s);
    x
}

impl Ledger {
    /// Rebuilds a ledger from rows read back from a store, and the identifier
    /// counter stored beside them. The counter never falls below one past the
    /// largest identifier held.
    pub fn from_rows(rows: Vec<Account>, counter: u64) -> (r: Result<Ledger, LedgerError>)
        ensures
            ({
                let s = rows@.map_values(|a: Account| a@);
                &&& rows_valid(s) ==> r is Ok && r->Ok_0.wf() && r->Ok_0@.accounts == s
                    && r->Ok_0@.next_id == if counter > max_id(s) + 1 {
                    counter as int
                } else {
                    max_id(s) + 1
                }
                &&& !rows_valid(s) ==> r == Err::<Ledger, LedgerError>(LedgerError::Storage)
            }),
    {
        let ghost s = rows@.map_values(|a: Account| a@);
        let mut i: usize = 0;
        while i < rows.len()
            invariant
                s == rows@.map_values(|a: Account| a@),
                i <= rows@.len(),
                forall|p: int| 0 <= p < i ==> 1 <= #[trigger] s[p].id < u64::MAX,
                forall|p: int, q: int|
                    0 <= p < i && 0 <= q < i && p != q ==> #[trigger] s[p].id != #[trigger] s[q].id,
                forall|p: int, q: int|
                    0 <= p < i && 0 <= q < i && p != q ==> #[trigger] s[p].number
                        != #[trigger] s[q].number,
            decreases rows@.len() - i,
        {
            assert(s[i as int] == rows@[i as int]@);
            if rows[i].id < 1 || rows[i].id == u64::MAX {
                assert(!(1 <= s[i as int].id < u64::MAX));
                return Err(LedgerError::Storage);
            }
            let mut j: usize = 0;
            while j < i
                invariant
                    s == rows@.map_values(|a: Account| a@),
                    j <= i < rows@.len(),
                    forall|p: int| 0 <= p < j ==> #[trigger] s[p].id != s[i as int].id,
                    forall|p: int| 0 <= p < j ==> #[trigger] s[p].number != s[i as int].number,
                decreases i - j,
            {
                assert(s[j as int] == rows@[j as int]@);
                if rows[j].id == rows[i].id || rows[j].account_number == rows[i].account_number {
                    assert(s[j as int].id == s[i as int].id || s[j as int].number == s[i as int].number);
                    return Err(LedgerError::Storage);
                }
                j = j + 1;
            }
            i = i + 1;
        }
        proof {
            lemma_max_id_bounds(s, u64::MAX - 1);
        }
        let top = max_account_id(&rows);
        let next_id = if counter > top + 1 {
            counter
        } else {
            top + 1
        };
        let ledger = Ledger { accounts: rows, next_id };
        assert(ledger@.accounts == s);
        Ok(ledger)
    }
}

} // verus!
