//! Six-digit numeric PINs and the check of a supplied PIN.

use vstd::prelude::*;

verus! {

/// The number of digits in a PIN.
pub const PIN_LENGTH: usize = 6;

/// The character of the decimal digit `d`.
pub open spec fn digit_char(d: u8) -> char {
    (d + 48) as char
}

/// Whether `p` is a PIN: exactly six ASCII digits.
pub open spec fn is_pin(p: Seq<char>) -> bool {
    p.len() == PIN_LENGTH && forall|i: int| 0 <= i < p.len() ==> '0' <= #[trigger] p[i] <= '9'
}

/// Relies on rand's `Rng::gen_range` on the thread-local generator: the value
/// drawn lies in the inclusive range `0..=9`.
#[verifier::external_body]
fn random_digit() -> (r: u8)
    ensures
        r <= 9,
{
    rand::Rng::gen_range(&mut rand::thread_rng(), 0..=9u8)
}

/// Relies on std's `FromIterator<char>` for `String`: the string holds the
/// characters in the order given.
#[verifier::external_body]
fn string_from_chars(c: Vec<char>) -> (r: String)
    ensures
        r@ == c@,
{
    c.into_iter().collect()
}

/// The text of a sequence of decimal digits, one character per digit.
pub fn pin_from_digits(digits: &Vec<u8>) -> (r: String)
    requires
        forall|i: int| 0 <= i < digits@.len() ==> #[trigger] digits@[i] <= 9,
    ensures
        r@ == Seq::new(digits@.len(), |i: int| digit_char(digits@[i])),
{
    let mut chars: Vec<char> = Vec::new();
    let mut i: usize = 0;
    while i < digits.len()
        invariant
            i <= digits@.len(),
            forall|j: int| 0 <= j < digits@.len() ==> #[trigger] digits@[j] <= 9,
            chars@ =~= Seq::new(i as nat, |j: int| digit_char(digits@[j])),
        decreases digits@.len() - i,
    {
        let d = digits[i];
        chars.push((d + 48u8) as char);
        i = i + 1;
    }
    string_from_chars(chars)
}

/// A fresh PIN of six digits, each drawn at random.
pub fn generate_pin() -> (r: String)
    ensures
        is_pin(r@),
{
    let mut digits: Vec<u8> = Vec::new();
    while digits.len() < PIN_LENGTH
        invariant
            digits@.len() <= PIN_LENGTH,
            forall|i: int| 0 <= i < digits@.len() ==> #[trigger] digits@[i] <= 9,
        decreases PIN_LENGTH - digits@.len(),
    {
        let d = random_digit();
        digits.push(d);
    }
    let r = pin_from_digits(&digits);
    assert forall|i: int| 0 <= i < r@.len() implies '0' <= #[trigger] r@[i] <= '9' by {
        assert(r@[i] == digit_char(digits@[i]));
    }
    r
}

/// Whether `supplied` is the PIN `stored`, character for character.
pub fn pin_matches(stored: &String, supplied: &str) -> (r: bool)
    ensures
        r == (stored@ == supplied@),
{
    let given: String = supplied.to_owned();
    *stored == given
}

} // verus!
