//! Which token the administrator has: the one that is configured, the one that
//! is stored, or a new one.

use rand::distributions::Alphanumeric;
use rand::Rng;
use vstd::prelude::*;

verus! {

/// The length of a token that is made here.
pub const TOKEN_LEN: usize = 48;

/// An ASCII letter or digit.
pub open spec fn is_alphanumeric(c: char) -> bool {
    ('a' <= c && c <= 'z') || ('A' <= c && c <= 'Z') || ('0' <= c && c <= '9')
}

/// `rand::Rng::sample` of `Alphanumeric` with the thread's generator: some
/// ASCII letter or digit.
#[verifier::external_body]
fn random_alphanumeric() -> (r: char)
    ensures
        is_alphanumeric(r),
{
    char::from(rand::thread_rng().sample(Alphanumeric))
}

/// The text has the length of a token and is made of letters and digits.
pub open spec fn is_fresh_token(t: Seq<char>) -> bool {
    t.len() == TOKEN_LEN && forall|i: int| 0 <= i < t.len() ==> is_alphanumeric(#[trigger] t[i])
}

/// The token that some characters make: all of them, in their order.
pub fn token_of(draws: &Vec<char>) -> (r: String)
    ensures
        r@ == draws@,
{
    let mut r: String = String::new();
    let mut i: usize = 0;
    while i < draws.len()
        invariant
            i <= draws.len(),
            r@ == draws@.take(i as int),
        decreases draws.len() - i,
    {
        r.push(draws[i]);
        i = i + 1;
        assert(r@ =~= draws@.take(i as int));
    }
    assert(draws@.take(draws@.len() as int) =~= draws@);
    r
}

/// Makes a token of characters that are drawn by chance. Which token comes of
/// which characters is what `token_of` says.
pub fn generate_token() -> (r: String)
    ensures
        is_fresh_token(r@),
{
    let mut draws: Vec<char> = Vec::new();
    while draws.len() < TOKEN_LEN
        invariant
            draws.len() <= TOKEN_LEN,
            forall|j: int| 0 <= j < draws.len() ==> is_alphanumeric(#[trigger] draws@[j]),
        decreases TOKEN_LEN - draws.len(),
    {
        draws.push(random_alphanumeric());
    }
    token_of(&draws)
}

/// Which token to use, and what to do about it.
#[derive(Debug, Clone)]
pub struct TokenChoice {
    pub token: String,
    /// The token is to be stored.
    pub store: bool,
    /// The token is new and has to be shown once.
    pub announce: bool,
}

/// Chooses the administrator's token. A configured one counts and replaces
/// what is stored; else a stored one counts, unless it is empty; else the token
/// `fresh` counts, is stored and shown.
pub fn choose_token(
    env_override: &Option<String>,
    stored: &Option<String>,
    fresh: String,
) -> (r: TokenChoice)
    ensures
        match env_override {
            Some(t) => r.token@ == t@ && r.store && !r.announce,
            None => match stored {
                Some(s) => if s@.len() > 0 {
                    r.token@ == s@ && !r.store && !r.announce
                } else {
                    r.token@ == fresh@ && r.store && r.announce
                },
                None => r.token@ == fresh@ && r.store && r.announce,
            },
        },
{
    match env_override {
        Some(t) => {
            return TokenChoice { token: t.clone(), store: true, announce: false };
        },
        None => {},
    }
    match stored {
        Some(s) => {
            if !s.as_str().is_empty() {
                return TokenChoice { token: s.clone(), store: false, announce: false };
            }
        },
        None => {},
    }
    TokenChoice { token: fresh, store: true, announce: true }
}

/// Chooses the administrator's token as `choose_token` does, with a new one
/// that is made here.
pub fn ensure_admin_token(env_override: &Option<String>, stored: &Option<String>) -> (r:
    TokenChoice)
    ensures
        match env_override {
            Some(t) => r.token@ == t@ && r.store && !r.announce,
            None => match stored {
                Some(s) => if s@.len() > 0 {
                    r.token@ == s@ && !r.store && !r.announce
                } else {
                    is_fresh_token(r.token@) && r.store && r.announce
                },
                None => is_fresh_token(r.token@) && r.store && r.announce,
            },
        },
{
    choose_token(env_override, stored, generate_token())
}

/// A token has forty-eight characters, all of them letters and digits.
pub proof fn tokens_are_letters_and_digits(t: Seq<char>, i: int)
    requires
        is_fresh_token(t),
        0 <= i < t.len(),
    ensures
        t.len() == 48,
        ('a' <= t[i] && t[i] <= 'z') || ('A' <= t[i] && t[i] <= 'Z') || ('0' <= t[i] && t[i]
            <= '9'),
{
    assert(is_alphanumeric(t[i]));
}

} // verus!
