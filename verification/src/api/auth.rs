//! Authentication of the administrator by a bearer token.

use vstd::prelude::*;
use vstd::string::StrSliceExecFns;
use crate::api::auth_attempts::{
    after_failure, clean, record_failure, state_of, AttemptState, LOCKOUT_SECONDS,
};
use crate::api::reply::{Reply, ReplyModel};
use crate::text::{
    char_at, chars_of, decimal, find_char, lemma_char_at, lower, same_text_ignoring_case, show_unsigned,
    slice_text, trim, trim_bounds, trimmed,
};

verus! {

// ---------------------------------------------------------------------------
// The token
// ---------------------------------------------------------------------------

/// The token of an `Authorization` value: the trimmed text behind the first
/// space, where the scheme before it is `bearer` in any case and the token is
/// not empty.
pub open spec fn bearer_token(authorization: Seq<char>) -> Option<Seq<char>> {
    match char_at(authorization, ' ', 0) {
        None => None,
        Some(i) => {
            let token = trimmed(authorization.skip(i + 1));
            if lower(authorization.take(i)) == lower("bearer"@) && token.len() > 0 {
                Some(token)
            } else {
                None
            }
        },
    }
}

/// The bearer token of an `Authorization` value. `None` where the scheme is
/// another one, or where the token is missing or blank.
pub fn extract_bearer(authorization: &str) -> (r: Option<&str>)
    ensures
        match r {
            Some(t) => bearer_token(authorization@) == Some(t@),
            None => bearer_token(authorization@) is None,
        },
{
    let v = chars_of(authorization);
    match find_char(&v, ' ') {
        None => None,
        Some(i) => {
            let scheme = slice_text(&v, 0, i);
            assert(v@.subrange(0, i as int) =~= v@.take(i as int));
            if !same_text_ignoring_case(scheme.as_str(), "bearer") {
                return None;
            }
            let (lo, hi) = trim_bounds(&v, i + 1);
            if lo == hi {
                return None;
            }
            Some(authorization.substring_char(lo, hi))
        },
    }
}

/// Byte equality that looks at every byte, whatever it finds. Slices of
/// different length are never equal.
pub fn constant_time_eq(a: &[u8], b: &[u8]) -> (r: bool)
    ensures
        r == (a@ == b@),
{
    if a.len() != b.len() {
        return false;
    }
    let mut diff: u8 = 0;
    let mut i: usize = 0;
    while i < a.len()
        invariant
            i <= a.len(),
            a@.len() == b@.len(),
            diff == 0 <==> forall|j: int| 0 <= j < i ==> a@[j] == b@[j],
        decreases a.len() - i,
    {
        let x: u8 = a[i];
        let y: u8 = b[i];
        assert((diff | (x ^ y)) == 0 <==> diff == 0 && x == y) by (bit_vector);
        diff = diff | (x ^ y);
        i = i + 1;
    }
    if diff == 0 {
        assert(a@ =~= b@);
    }
    diff == 0
}

// ---------------------------------------------------------------------------
// The client
// ---------------------------------------------------------------------------

/// The text before the first comma.
pub open spec fn first_item(list: Seq<char>) -> Seq<char> {
    match char_at(list, ',', 0) {
        Some(i) => list.take(i),
        None => list,
    }
}

/// The address that a request counts for: the first one of its
/// `X-Forwarded-For` header, else that of the connection, else `unknown`.
pub open spec fn client_address(
    forwarded_for: Option<Seq<char>>,
    connection: Option<Seq<char>>,
) -> Seq<char> {
    let first = match forwarded_for {
        Some(f) => trimmed(first_item(f)),
        None => Seq::empty(),
    };
    if first.len() > 0 {
        first
    } else {
        match connection {
            Some(c) => c,
            None => "unknown"@,
        }
    }
}

/// The address that a request counts for.
pub fn client_ip(forwarded_for: &Option<String>, connection: &Option<String>) -> (r: String)
    ensures
        r@ == client_address(forwarded_for.deep_view(), connection.deep_view()),
{
    match forwarded_for {
        Some(f) => {
            let v = chars_of(f.as_str());
            let end: usize = match find_char(&v, ',') {
                Some(i) => i,
                None => v.len(),
            };
            let item = slice_text(&v, 0, end);
            assert(item@ =~= first_item(f@));
            let first = trim(item.as_str());
            if !first.as_str().is_empty() {
                return first;
            }
        },
        None => {},
    }
    match connection {
        Some(c) => c.clone(),
        None => "unknown".to_owned(),
    }
}

// ---------------------------------------------------------------------------
// The decision
// ---------------------------------------------------------------------------

/// What becomes of a request for the administrator.
#[derive(Debug, Clone, Copy, PartialEq, Eq, Structural)]
pub enum AuthDecision {
    /// The address is locked out, whatever token it presents.
    LockedOut { seconds_remaining: i64 },
    /// The token is the right one.
    Granted,
    /// There is no token, or not the right one.
    Denied,
}

/// The header presents the administrator's token.
pub open spec fn presents_token(authorization: Option<Seq<char>>, token: Seq<u8>) -> bool {
    match authorization {
        Some(a) => match bearer_token(a) {
            Some(t) => vstd::utf8::encode_utf8(t) == token,
            None => false,
        },
        None => false,
    }
}

/// The decision on a request at `now`. A lockout comes first: not even the
/// right token helps while it lasts.
pub open spec fn auth_decision(
    stored: Option<AttemptState>,
    authorization: Option<Seq<char>>,
    token: Seq<u8>,
    now: i64,
) -> AuthDecision {
    let until = state_of(stored).lockout_until;
    if until > now {
        AuthDecision::LockedOut { seconds_remaining: (until - now) as i64 }
    } else if presents_token(authorization, token) {
        AuthDecision::Granted
    } else {
        AuthDecision::Denied
    }
}

/// What is stored for the address after the decision: a lockout changes
/// nothing, a success clears it, a failure is counted.
pub open spec fn stored_after(
    stored: Option<AttemptState>,
    decision: AuthDecision,
    now: i64,
) -> Option<AttemptState> {
    match decision {
        AuthDecision::LockedOut { .. } => stored,
        AuthDecision::Granted => None,
        AuthDecision::Denied => Some(after_failure(state_of(stored), now)),
    }
}

/// Decides on a request for the administrator, and says what to store for its
/// address. `stored` is what is remembered of the address, `authorization` the
/// value of its header.
pub fn authorize(
    stored: Option<AttemptState>,
    authorization: &Option<String>,
    admin_token: &str,
    now: i64,
) -> (r: (AuthDecision, Option<AttemptState>))
    requires
        state_of(stored).failed_count < u32::MAX,
        state_of(stored).lockout_until - now <= i64::MAX,
        now + LOCKOUT_SECONDS <= i64::MAX,
    ensures
        r.0 == auth_decision(
            stored,
            authorization.deep_view(),
            vstd::utf8::encode_utf8(admin_token@),
            now,
        ),
        r.1 == stored_after(stored, r.0, now),
{
    let state = crate::api::auth_attempts::current_state(stored);
    if state.lockout_until > now {
        let seconds_remaining: i64 = state.lockout_until - now;
        return (AuthDecision::LockedOut { seconds_remaining }, stored);
    }
    let granted = match authorization {
        Some(a) => match extract_bearer(a.as_str()) {
            Some(t) => constant_time_eq(t.as_bytes(), admin_token.as_bytes()),
            None => false,
        },
        None => false,
    };
    if granted {
        (AuthDecision::Granted, None)
    } else {
        (AuthDecision::Denied, Some(record_failure(stored, now)))
    }
}

/// The answer to a request that is not let through; `None` where it is.
pub fn refusal(decision: AuthDecision) -> (r: Option<Reply>)
    requires
        decision matches AuthDecision::LockedOut { seconds_remaining } ==> seconds_remaining >= 0,
    ensures
        r.deep_view() == (match decision {
            AuthDecision::Granted => None,
            AuthDecision::LockedOut { seconds_remaining } => Some(
                ReplyModel {
                    status: 429,
                    body: "too many failed attempts"@,
                    header: Some(("retry-after"@, decimal(seconds_remaining as nat))),
                },
            ),
            AuthDecision::Denied => Some(
                ReplyModel {
                    status: 401,
                    body: "unauthorized"@,
                    header: Some(("www-authenticate"@, "Bearer realm=\"admin\""@)),
                },
            ),
        }),
{
    match decision {
        AuthDecision::Granted => None,
        AuthDecision::LockedOut { seconds_remaining } => {
            let wait = show_unsigned(seconds_remaining as u64);
            Some(Reply::with_header(429, "too many failed attempts", "retry-after", wait.as_str()))
        },
        AuthDecision::Denied => Some(
            Reply::with_header(401, "unauthorized", "www-authenticate", "Bearer realm=\"admin\""),
        ),
    }
}

// ---------------------------------------------------------------------------
// Laws
// ---------------------------------------------------------------------------

/// While an address is locked out, no request from it is let through and none
/// changes what is remembered of it, not even one with the right token.
pub proof fn lockout_beats_the_right_token(
    stored: Option<AttemptState>,
    authorization: Option<Seq<char>>,
    token: Seq<u8>,
    now: i64,
)
    requires
        state_of(stored).lockout_until > now,
    ensures
        auth_decision(stored, authorization, token, now) is LockedOut,
        stored_after(stored, auth_decision(stored, authorization, token, now), now) == stored,
{
}

/// Outside of a lockout a request is let through exactly when it presents the
/// token, and nothing is remembered against its address afterwards.
pub proof fn only_the_token_opens(
    stored: Option<AttemptState>,
    authorization: Option<Seq<char>>,
    token: Seq<u8>,
    now: i64,
)
    requires
        state_of(stored).lockout_until <= now,
    ensures
        auth_decision(stored, authorization, token, now) is Granted <==> presents_token(
            authorization,
            token,
        ),
        presents_token(authorization, token) ==> state_of(
            stored_after(stored, auth_decision(stored, authorization, token, now), now),
        ) == clean(),
{
}

/// A request without a usable `Authorization` value is never let through.
pub proof fn no_token_no_entry(stored: Option<AttemptState>, token: Seq<u8>, now: i64)
    ensures
        !(auth_decision(stored, None, token, now) is Granted),
{
}

/// A scheme that reads `bearer` in any case, a space and a token that is not
/// blank present that token, trimmed.
pub proof fn bearer_tokens_are_found(scheme: Seq<char>, token: Seq<char>)
    requires
        lower(scheme) == "bearer"@,
    ensures
        bearer_token(scheme + seq![' '] + token) == (if trimmed(token).len() > 0 {
            Some(trimmed(token))
        } else {
            None
        }),
{
    let all = scheme + seq![' '] + token;
    let n = scheme.len() as int;
    reveal_strlit("bearer");
    assert(lower("bearer"@) =~= "bearer"@);
    lemma_char_at(all, ' ', 0);
    assert(all[n] == ' ');
    let i = char_at(all, ' ', 0)->0;
    if i < n {
        assert(all[i] == scheme[i]);
        assert(lower(scheme)[i] == "bearer"@[i]);
    }
    assert(all.take(n) =~= scheme);
    assert(all.skip(n + 1) =~= token);
}

/// Another scheme presents nothing, and neither does a value without a space.
pub proof fn other_schemes_present_nothing(scheme: Seq<char>, rest: Seq<char>)
    requires
        forall|i: int| 0 <= i < scheme.len() ==> scheme[i] != ' ',
    ensures
        bearer_token(scheme) is None,
        lower(scheme) != lower("bearer"@) ==> bearer_token(scheme + seq![' '] + rest) is None,
{
    let all = scheme + seq![' '] + rest;
    let n = scheme.len() as int;
    lemma_char_at(scheme, ' ', 0);
    lemma_char_at(all, ' ', 0);
    assert(all[n] == ' ');
    let i = char_at(all, ' ', 0)->0;
    if i < n {
        assert(all[i] == scheme[i]);
    }
    assert(all.take(n) =~= scheme);
}

/// A request presents the token exactly where the token in its header has the
/// same bytes.
pub proof fn the_whole_token_has_to_match(authorization: Seq<char>, token: Seq<u8>)
    ensures
        presents_token(Some(authorization), token) <==> bearer_token(authorization) is Some
            && vstd::utf8::encode_utf8(bearer_token(authorization)->0) == token,
        !presents_token(None, token),
{
}

/// A request with a wrong token or none is counted against its address.
pub proof fn wrong_tokens_are_counted(
    stored: Option<AttemptState>,
    authorization: Option<Seq<char>>,
    token: Seq<u8>,
    now: i64,
)
    requires
        state_of(stored).lockout_until <= now,
        state_of(stored).failed_count < u32::MAX,
        !presents_token(authorization, token),
    ensures
        ({
            let r = stored_after(stored, auth_decision(stored, authorization, token, now), now);
            r is Some && r->0.failed_count == state_of(stored).failed_count + 1
        }),
{
}

/// A locked out address is told how long it has to wait.
pub proof fn lockouts_say_how_long(
    stored: AttemptState,
    authorization: Option<Seq<char>>,
    token: Seq<u8>,
    now: i64,
)
    requires
        stored.lockout_until > now,
        stored.lockout_until - now <= i64::MAX,
    ensures
        auth_decision(Some(stored), authorization, token, now) == (AuthDecision::LockedOut {
            seconds_remaining: (stored.lockout_until - now) as i64,
        }),
{
}

/// The first address that was forwarded for counts, whatever follows it; where
/// there is none, that of the connection does.
pub proof fn the_first_address_counts(
    first: Seq<char>,
    others: Seq<char>,
    connection: Seq<char>,
)
    requires
        forall|i: int| 0 <= i < first.len() ==> first[i] != ',',
    ensures
        trimmed(first).len() > 0 ==> client_address(Some(first), Some(connection)) == trimmed(first)
            && client_address(Some(first + seq![','] + others), Some(connection)) == trimmed(first),
        trimmed(first).len() == 0 ==> client_address(Some(first), Some(connection)) == connection
            && client_address(Some(first + seq![','] + others), Some(connection)) == connection,
        client_address(None, Some(connection)) == connection,
        client_address(None, None) == "unknown"@,
{
    let all = first + seq![','] + others;
    let n = first.len() as int;
    lemma_char_at(first, ',', 0);
    lemma_char_at(all, ',', 0);
    assert(all[n] == ',');
    let i = char_at(all, ',', 0)->0;
    if i < n {
        assert(all[i] == first[i]);
    }
    assert(all.take(n) =~= first);
}

} // verus!
