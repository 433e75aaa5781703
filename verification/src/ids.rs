//! Fresh identifiers.
use vstd::prelude::*;

verus! {

/// The digit of Crockford's base 32 for `d`.
pub open spec fn base32_digit(d: nat) -> char {
    "0123456789ABCDEFGHJKMNPQRSTVWXYZ"@[d as int]
}

/// The last `n` digits of `value` in Crockford's base 32.
pub open spec fn base32(value: nat, n: nat) -> Seq<char>
    decreases n,
{
    if n == 0 {
        Seq::empty()
    } else {
        base32(value / 32, (n - 1) as nat).push(base32_digit(value % 32))
    }
}

/// The text is one of the twenty-six digits of a ULID.
pub open spec fn is_ulid(text: Seq<char>) -> bool {
    exists|value: u128| text == #[trigger] base32(value as nat, 26)
}

/// `ulid::Ulid::new` makes a value from the time and from random bits: any value may come.
#[verifier::external_body]
fn fresh_ulid() -> (value: u128)
{
    ulid::Ulid::new().0
}

/// `ulid::Ulid::to_string` writes the value as twenty-six digits of Crockford's base 32.
#[verifier::external_body]
fn ulid_text(value: u128) -> (text: String)
    ensures
        text@ == base32(value as nat, 26),
{
    ulid::Ulid(value).to_string()
}

/// A fresh identifier.
pub fn forge_id() -> (text: String)
    ensures
        is_ulid(text@),
{
    ulid_text(fresh_ulid())
}

proof fn lemma_base32_length(value: nat, n: nat)
    ensures
        base32(value, n).len() == n,
    decreases n,
{
    if n > 0 {
        lemma_base32_length(value / 32, (n - 1) as nat);
    }
}

/// Every identifier has twenty-six characters.
pub proof fn ulids_have_one_length(text: Seq<char>)
    requires
        is_ulid(text),
    ensures
        text.len() == 26,
{
    let value = choose|value: u128| text == #[trigger] base32(value as nat, 26);
    lemma_base32_length(value as nat, 26);
}

} // verus!
