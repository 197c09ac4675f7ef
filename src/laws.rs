//! Properties that hold across the ledger's operations.

use vstd::prelude::*;

use crate::amount::lemma_amount_in_range;
use crate::ledger::{
    create_outcome, created, lemma_index_of, lemma_with_balance, transfer_outcome, transferred,
    withdraw_outcome, LedgerModel,
};

verus! {

/// No balance is ever negative: a well-formed ledger holds none, every
/// operation keeps the ledger well-formed, and a withdrawal or transfer that
/// succeeds leaves the balances it debits at zero or above.
pub proof fn lemma_balances_never_negative(
    m: LedgerModel,
    amount: Seq<u8>,
    pin: Seq<char>,
    n: Seq<char>,
    o: Seq<char>,
    t: Seq<char>,
)
    requires
        m.wf(),
    ensures
        forall|i: int| 0 <= i < m.accounts.len() ==> #[trigger] m.accounts[i].balance >= 0,
        withdraw_outcome(m, amount, pin, n) matches Ok(b) ==> b >= 0,
        transfer_outcome(m, amount, pin, o, t) matches Ok(x) ==> transferred(m, o, t, x).wf()
            && transferred(m, o, t, x).account(o).balance >= 0,
{
    if transfer_outcome(m, amount, pin, o, t) is Ok {
        lemma_transfer_moves_exactly(m, amount, pin, o, t);
    }
}

/// A transfer of `x` from `o` to `t` that succeeds takes exactly `x` from
/// `o`, gives exactly `x` to `t`, keeps their total, and leaves every other
/// account as it was.
pub proof fn lemma_transfer_moves_exactly(
    m: LedgerModel,
    amount: Seq<u8>,
    pin: Seq<char>,
    o: Seq<char>,
    t: Seq<char>,
)
    requires
        m.wf(),
        transfer_outcome(m, amount, pin, o, t) is Ok,
    ensures
        ({
            let x = transfer_outcome(m, amount, pin, o, t)->Ok_0;
            let after = transferred(m, o, t, x);
            &&& after.wf()
            &&& after.accounts.len() == m.accounts.len()
            &&& after.account(o).balance == m.account(o).balance - x
            &&& after.account(t).balance == m.account(t).balance + x
            &&& after.account(o).balance + after.account(t).balance == m.account(o).balance
                + m.account(t).balance
            &&& forall|k: int|
                0 <= k < m.accounts.len() && k != m.index_of(o) && k != m.index_of(t)
                    ==> #[trigger] after.accounts[k] == m.accounts[k]
        }),
{
    let x = transfer_outcome(m, amount, pin, o, t)->Ok_0;
    lemma_amount_in_range(amount);
    let i = m.index_of(o);
    let j = m.index_of(t);
    lemma_index_of(m, o, i);
    lemma_index_of(m, t, j);
    let mid = m.with_balance(i, m.account(o).balance - x);
    lemma_with_balance(m, i, m.account(o).balance - x, o);
    lemma_with_balance(m, i, m.account(o).balance - x, t);
    let after = mid.with_balance(j, m.account(t).balance + x);
    lemma_with_balance(mid, j, m.account(t).balance + x, o);
    lemma_with_balance(mid, j, m.account(t).balance + x, t);
    assert(after.accounts[i].number == o);
    assert(after.accounts[j].number == t);
    lemma_index_of(after, o, i);
    lemma_index_of(after, t, j);
}

/// Identifiers only grow: an account created after another, in a ledger
/// whose counter has not gone back, gets a larger identifier, and one that no
/// account then in the ledger holds, whatever was deleted in between.
pub proof fn lemma_identifiers_increase(
    first: LedgerModel,
    n1: Seq<char>,
    pin1: Seq<char>,
    balance1: int,
    later: LedgerModel,
)
    requires
        first.wf(),
        create_outcome(first, n1) is Ok,
        later.wf(),
        later.next_id >= created(first, n1, pin1, balance1).next_id,
    ensures
        later.next_id > created(first, n1, pin1, balance1).accounts.last().id,
        forall|i: int| 0 <= i < later.accounts.len() ==> #[trigger] later.accounts[i].id != later.next_id,
{
}

} // verus!
