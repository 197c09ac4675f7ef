//! Reading a money amount from text: an optional `+`, then one or more ASCII
//! digits, whose value fits in a `u64` (the form `str::parse::<u64>` accepts).

use vstd::prelude::*;
use vstd::string::StringSliceAdditionalSpecFns;

use crate::account::LedgerError;

verus! {

pub open spec fn is_digit_byte(b: u8) -> bool {
    48 <= b <= 57
}

/// The decimal value of a sequence of digit bytes.
pub open spec fn digits_value(d: Seq<u8>) -> int
    decreases d.len(),
{
    if d.len() == 0 {
        0
    } else {
        digits_value(d.drop_last()) * 10 + (d.last() - 48)
    }
}

/// The bytes after the optional leading `+`.
pub open spec fn digits_part(t: Seq<u8>) -> Seq<u8> {
    if t.len() > 0 && t[0] == 43 {
        t.skip(1)
    } else {
        t
    }
}

pub open spec fn all_digits(d: Seq<u8>) -> bool {
    forall|i: int| 0 <= i < d.len() ==> is_digit_byte(#[trigger] d[i])
}

/// Whether `t` is the text of an amount.
pub open spec fn is_amount_text(t: Seq<u8>) -> bool {
    let d = digits_part(t);
    d.len() > 0 && all_digits(d) && digits_value(d) <= u64::MAX
}

/// The amount that the text `t` stands for.
pub open spec fn amount_value(t: Seq<u8>) -> int {
    digits_value(digits_part(t))
}

proof fn lemma_digits_value_grows(d: Seq<u8>, i: int)
    requires
        0 <= i <= d.len(),
        all_digits(d),
    ensures
        digits_value(d.take(i)) <= digits_value(d),
        digits_value(d.take(i)) >= 0,
    decreases d.len() - i,
{
    if i < d.len() {
        lemma_digits_value_grows(d, i + 1);
        assert(d.take(i + 1).drop_last() =~= d.take(i));
        assert(is_digit_byte(d[i]));
    } else {
        assert(d.take(i) =~= d);
    }
    lemma_digits_value_nonneg(d.take(i));
}

proof fn lemma_digits_value_nonneg(d: Seq<u8>)
    requires
        all_digits(d),
    ensures
        digits_value(d) >= 0,
    decreases d.len(),
{
    if d.len() > 0 {
        assert(all_digits(d.drop_last()));
        assert(is_digit_byte(d[d.len() - 1]));
        lemma_digits_value_nonneg(d.drop_last());
    }
}

/// The amount that a valid text stands for fits in a `u64`.
pub proof fn lemma_amount_in_range(t: Seq<u8>)
    requires
        is_amount_text(t),
    ensures
        0 <= amount_value(t) <= u64::MAX,
{
    lemma_digits_value_nonneg(digits_part(t));
}

/// Reads an amount; `InvalidAmount` when `s` is not the text of one.
pub fn parse_amount(s: &str) -> (r: Result<u64, LedgerError>)
    ensures
        is_amount_text(s.spec_bytes()) ==> r is Ok && r->Ok_0 == amount_value(s.spec_bytes()),
        !is_amount_text(s.spec_bytes()) ==> r == Err::<u64, LedgerError>(
            LedgerError::InvalidAmount,
        ),
{
    let b = s.as_bytes();
    let n = b.len();
    let ghost t = s.spec_bytes();
    let mut start: usize = 0;
    if n > 0 && b[0] == 43u8 {
        start = 1;
    }
    let ghost d = digits_part(t);
    assert(d =~= t.skip(start as int));
    if start == n {
        return Err(LedgerError::InvalidAmount);
    }
    let mut acc: u64 = 0;
    let mut i: usize = start;
    while i < n
        invariant
            b@ == t,
            t == s.spec_bytes(),
            n == t.len(),
            d == digits_part(t),
            d =~= t.skip(start as int),
            start <= i <= n,
            all_digits(d.take(i - start)),
            acc as int == digits_value(d.take(i - start)),
        decreases n - i,
    {
        let c = b[i];
        let ghost k = i - start;
        assert(d.take(k + 1).drop_last() =~= d.take(k));
        assert(t[i as int] == c);
        assert(d[k] == c);
        assert(d.take(k + 1).last() == c);
        if c < 48u8 || c > 57u8 {
            assert(!is_digit_byte(d[k]));
            assert(!all_digits(d));
            return Err(LedgerError::InvalidAmount);
        }
        let v = (c - 48u8) as u64;
        if acc > (u64::MAX - v) / 10 {
            proof {
                assert(all_digits(d.take(k + 1))) by {
                    assert forall|j: int| 0 <= j < k + 1 implies is_digit_byte(
                        #[trigger] d.take(k + 1)[j],
                    ) by {
                        if j < k {
                            assert(d.take(k + 1)[j] == d.take(k)[j]);
                        }
                    }
                }
                assert(acc * 10 + v > u64::MAX) by (nonlinear_arith)
                    requires
                        acc > (u64::MAX - v) / 10,
                        v <= 9,
                ;
                assert(digits_value(d.take(k + 1)) == acc * 10 + v);
                if all_digits(d) {
                    lemma_digits_value_grows(d, k + 1);
                }
                assert(!is_amount_text(t));
            }
            return Err(LedgerError::InvalidAmount);
        }
        proof {
            assert(acc * 10 + v <= u64::MAX) by (nonlinear_arith)
                requires
                    acc <= (u64::MAX - v) / 10,
                    v <= 9,
            ;
            assert forall|j: int| 0 <= j < k + 1 implies is_digit_byte(
                #[trigger] d.take(k + 1)[j],
            ) by {
                if j < k {
                    assert(d.take(k + 1)[j] == d.take(k)[j]);
                }
            }
        }
        acc = acc * 10 + v;
        i = i + 1;
    }
    assert(d.take(n - start) =~= d);
    Ok(acc)
}

} // verus!
