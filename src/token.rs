use rand::Rng;
use vstd::prelude::*;
use crate::text::push_char;

verus! {

/// The length of a challenge token.
pub const TOKEN_LEN: usize = 7;

/// An ASCII letter or digit.
pub open spec fn is_token_char(c: char) -> bool {
    ('A' <= c && c <= 'Z') || ('a' <= c && c <= 'z') || ('0' <= c && c <= '9')
}

pub open spec fn is_token(s: Seq<char>) -> bool {
    s.len() == TOKEN_LEN && forall|i: int| 0 <= i < s.len() ==> is_token_char(#[trigger] s[i])
}

/// Relies on rand's `Alphanumeric` distribution, drawn from the thread-local
/// generator: it yields a byte of `A-Z`, `a-z` or `0-9`.
#[verifier::external_body]
fn random_alphanumeric() -> (c: char)
    ensures
        is_token_char(c),
{
    char::from(rand::thread_rng().sample(rand::distributions::Alphanumeric))
}

/// A fresh challenge token: seven random letters and digits.
pub fn generate_token() -> (r: String)
    ensures
        is_token(r@),
{
    let mut token = String::new();
    let mut i: usize = 0;
    while i < TOKEN_LEN
        invariant
            i <= TOKEN_LEN,
            token@.len() == i,
            forall|k: int| 0 <= k < i ==> is_token_char(#[trigger] token@[k]),
        decreases TOKEN_LEN - i,
    {
        let c = random_alphanumeric();
        push_char(&mut token, c);
        i = i + 1;
    }
    token
}

} // verus!
