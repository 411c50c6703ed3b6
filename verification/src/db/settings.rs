//! Settings, and a token that is easy to read aloud.

use rand::Rng;
use vstd::prelude::*;
use crate::auth::token::TokenChoice;

verus! {

/// The length of a token that is made here.
pub const TOKEN_LEN: usize = 48;

/// The characters of a token: capitals and digits without those that are
/// easily taken for another.
pub open spec fn alphabet() -> Seq<char> {
    "ABCDEFGHJKMNPQRSTVWXYZ23456789"@
}

/// `rand::Rng::gen_range` of the numbers below `bound` with the thread's
/// generator: some number below `bound`. It panics on an empty range.
#[verifier::external_body]
fn random_below(bound: usize) -> (r: usize)
    requires
        bound > 0,
    ensures
        r < bound,
{
    rand::thread_rng().gen_range(0..bound)
}

/// The text has the length of a token and is made of the characters of the
/// alphabet.
pub open spec fn is_readable_token(t: Seq<char>) -> bool {
    t.len() == TOKEN_LEN && forall|i: int| 0 <= i < t.len() ==> alphabet().contains(#[trigger] t[i])
}

/// The token that some numbers stand for: each for the character at its place
/// in the alphabet.
pub fn token_of(draws: &Vec<usize>) -> (r: String)
    requires
        forall|i: int| 0 <= i < draws.len() ==> (#[trigger] draws@[i]) < alphabet().len(),
    ensures
        r@ == Seq::new(draws@.len(), |i: int| alphabet()[draws@[i] as int]),
{
    let letters = crate::text::chars_of("ABCDEFGHJKMNPQRSTVWXYZ23456789");
    let mut r: String = String::new();
    let mut i: usize = 0;
    while i < draws.len()
        invariant
            i <= draws.len(),
            letters@ == alphabet(),
            forall|j: int| 0 <= j < draws.len() ==> (#[trigger] draws@[j]) < alphabet().len(),
            r@ == Seq::new(i as nat, |j: int| alphabet()[draws@[j] as int]),
        decreases draws.len() - i,
    {
        let k: usize = draws[i];
        let ghost before = r@;
        r.push(letters[k]);
        i = i + 1;
        assert(r@ =~= before.push(alphabet()[k as int]));
        assert(r@ =~= Seq::new(i as nat, |j: int| alphabet()[draws@[j] as int]));
    }
    r
}

/// Makes a token of numbers that are drawn by chance. Which token comes of
/// which numbers is what `token_of` says.
pub fn generate_token() -> (r: String)
    ensures
        is_readable_token(r@),
{
    proof {
        reveal_strlit("ABCDEFGHJKMNPQRSTVWXYZ23456789");
    }
    let letters = crate::text::chars_of("ABCDEFGHJKMNPQRSTVWXYZ23456789");
    let mut draws: Vec<usize> = Vec::new();
    while draws.len() < TOKEN_LEN
        invariant
            draws.len() <= TOKEN_LEN,
            letters@ == alphabet(),
            letters.len() > 0,
            forall|j: int| 0 <= j < draws.len() ==> (#[trigger] draws@[j]) < alphabet().len(),
        decreases TOKEN_LEN - draws.len(),
    {
        draws.push(random_below(letters.len()));
    }
    let r = token_of(&draws);
    assert forall|i: int| 0 <= i < r@.len() implies alphabet().contains(#[trigger] r@[i]) by {
        assert(r@[i] == alphabet()[draws@[i] as int]);
    }
    r
}

/// Chooses the administrator's token and says what to do about it: one that is
/// given is stored, else a stored one counts as it is, else the token `fresh`
/// counts, is stored and shown.
pub fn choose_token(explicit: &Option<String>, stored: &Option<String>, fresh: String) -> (r:
    TokenChoice)
    ensures
        match (explicit, stored) {
            (Some(t), _) => r.token@ == t@ && r.store && !r.announce,
            (None, Some(s)) => r.token@ == s@ && !r.store && !r.announce,
            (None, None) => r.token@ == fresh@ && r.store && r.announce,
        },
{
    match explicit {
        Some(t) => TokenChoice { token: t.clone(), store: true, announce: false },
        None => match stored {
            Some(s) => TokenChoice { token: s.clone(), store: false, announce: false },
            None => TokenChoice { token: fresh, store: true, announce: true },
        },
    }
}

/// Chooses the administrator's token as `choose_token` does, with a new one
/// that is made here.
pub fn choose_admin_token(explicit: &Option<String>, stored: &Option<String>) -> (r: TokenChoice)
    ensures
        match (explicit, stored) {
            (Some(t), _) => r.token@ == t@ && r.store && !r.announce,
            (None, Some(s)) => r.token@ == s@ && !r.store && !r.announce,
            (None, None) => is_readable_token(r.token@) && r.store && r.announce,
        },
{
    choose_token(explicit, stored, generate_token())
}

/// The administrator's token, and whether it is new: the one that is given,
/// else the one that is stored, else a new one. `choose_admin_token` says what
/// is to be stored.
pub fn ensure_admin_token(explicit: &Option<String>, stored: &Option<String>) -> (r: (String, bool))
    ensures
        match (explicit, stored) {
            (Some(t), _) => r.0@ == t@ && !r.1,
            (None, Some(s)) => r.0@ == s@ && !r.1,
            (None, None) => is_readable_token(r.0@) && r.1,
        },
{
    let choice = choose_admin_token(explicit, stored);
    (choice.token, choice.announce)
}

/// No token holds a character that is easily taken for another.
pub proof fn tokens_are_unambiguous(t: Seq<char>, i: int)
    requires
        is_readable_token(t),
        0 <= i < t.len(),
    ensures
        t[i] != 'I' && t[i] != 'L' && t[i] != 'O' && t[i] != '0' && t[i] != '1',
{
    reveal_strlit("ABCDEFGHJKMNPQRSTVWXYZ23456789");
    assert(alphabet().contains(t[i]));
}

/// A token is made of thirty characters, each of which stands once in the
/// alphabet, and has forty-eight of them.
pub proof fn tokens_have_many_characters(t: Seq<char>)
    requires
        is_readable_token(t),
    ensures
        t.len() == 48,
        alphabet().len() == 30,
        alphabet().no_duplicates(),
{
    reveal_strlit("ABCDEFGHJKMNPQRSTVWXYZ23456789");
}

} // verus!
