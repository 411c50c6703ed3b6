//! The canonical address of a new crawl target.
//!
//! Where a site redirects the address that the administrator typed without
//! changing its path, the address it redirects to is stored. A redirect that
//! changes the path is routing and is not followed.

use vstd::prelude::*;
use crate::crawler::fetcher::{is_success, success};
use crate::crawler::url_class::{normalize_url, normalized};
use crate::crawler::url_parts::{parse_url, url_path, url_text};
use crate::text::{chars_of, concat, slice_text, trim_end_char, trim_end_of};

verus! {

/// How long the detection may take, in seconds.
pub const DETECTION_TIMEOUT_SECS: u64 = 3;

/// `path` without one slash at its end.
pub open spec fn without_slash(path: Seq<char>) -> Seq<char> {
    if path.len() > 0 && path.last() == '/' {
        path.drop_last()
    } else {
        path
    }
}

/// The paths are the same but for a slash at the end.
pub open spec fn same_path(a: Seq<char>, b: Seq<char>) -> bool {
    without_slash(a) == without_slash(b)
}

fn strip_slash(path: &str) -> (r: String)
    ensures
        r@ == without_slash(path@),
{
    let v = chars_of(path);
    if v.len() > 0 && v[v.len() - 1] == '/' {
        let r = slice_text(&v, 0, v.len() - 1);
        assert(v@.subrange(0, v@.len() - 1) =~= v@.drop_last());
        r
    } else {
        path.to_owned()
    }
}

/// Whether two paths are the same but for a slash at the end.
pub fn paths_equivalent(a: &str, b: &str) -> (r: bool)
    ensures
        r == same_path(a@, b@),
{
    strip_slash(a) == strip_slash(b)
}

/// The canonical form of `input`, given the status and the address of the
/// answer that it led to: there is one where the answer is a success, the
/// address is another one, and the path is the same.
pub open spec fn canonical_prefix(input: Seq<char>, status: u16, final_url: Seq<char>) -> Option<
    Seq<char>,
> {
    if url_text(input) is None || !is_success(status) || url_text(final_url) is None || url_text(
        input,
    ) == url_text(final_url) || !same_path(url_path(input), url_path(final_url)) {
        None
    } else {
        normalized(final_url)
    }
}

/// Decides whether the address that `input` led to is its canonical form.
pub fn accept_redirect(input: &str, status: u16, final_url: &str) -> (r: Option<String>)
    ensures
        r.deep_view() == canonical_prefix(input@, status, final_url@),
{
    match parse_url(input) {
        None => None,
        Some(asked) => {
            if !success(status) {
                return None;
            }
            match parse_url(final_url) {
                None => None,
                Some(reached) => if asked.text == reached.text || !paths_equivalent(
                    asked.path.as_str(),
                    reached.path.as_str(),
                ) {
                    None
                } else {
                    normalize_url(final_url)
                },
            }
        },
    }
}

/// Whether an address can be asked for its canonical form at all.
pub fn can_detect(input: &str) -> (r: bool)
    ensures
        r == (url_text(input@) is Some),
{
    parse_url(input).is_some()
}

/// What became of the request for the canonical form of an address.
#[derive(Debug, Clone)]
pub enum Probe {
    /// There was no answer in time.
    Timeout,
    /// No connection could be made.
    ConnectError,
    /// The network failed otherwise, with this message.
    NetworkError(String),
    /// There was an answer, with this status, the text it is shown with, the
    /// address that it came from, and the path of that address.
    Answer { status: u16, status_text: String, final_url: String, final_path: String },
}

/// The paths are the same but for slashes at the end.
pub open spec fn same_path_but_slashes(a: Seq<char>, b: Seq<char>) -> bool {
    trim_end_of(a, '/') == trim_end_of(b, '/')
}

/// Why no other form of the address `input` is stored, in words.
pub open spec fn reason(input: Seq<char>, probe: Probe) -> Seq<char> {
    if url_text(input) is None {
        "unparseable URL"@
    } else {
        match probe {
            Probe::Timeout => "timeout"@,
            Probe::ConnectError => "connect error"@,
            Probe::NetworkError(m) => "network error: "@ + m@,
            Probe::Answer { status, status_text, final_url, final_path } => if !is_success(
                status,
            ) {
                "non-2xx final status: "@ + status_text@ + " at "@ + final_url@
            } else if url_text(input) == Some(final_url@) {
                "already canonical (no redirect)"@
            } else if !same_path_but_slashes(url_path(input), final_path@) {
                "path-changing redirect rejected: "@ + url_path(input) + " \u{2192} "@
                    + final_path@
            } else {
                "redirected to "@ + final_url@
                    + " but detection still returned None (unexpected)"@
            },
        }
    }
}

/// Says why no other form of the address `input` is stored.
pub fn diagnose(input: &str, probe: &Probe) -> (r: String)
    ensures
        r@ == reason(input@, *probe),
{
    match parse_url(input) {
        None => "unparseable URL".to_owned(),
        Some(asked) => match probe {
            Probe::Timeout => "timeout".to_owned(),
            Probe::ConnectError => "connect error".to_owned(),
            Probe::NetworkError(m) => concat("network error: ", m.as_str()),
            Probe::Answer { status, status_text, final_url, final_path } => {
                if !success(*status) {
                    let mut r: String = "non-2xx final status: ".to_owned();
                    r.push_str(status_text.as_str());
                    r.push_str(" at ");
                    r.push_str(final_url.as_str());
                    return r;
                }
                if asked.text == *final_url {
                    return "already canonical (no redirect)".to_owned();
                }
                let a = trim_end_char(asked.path.as_str(), '/');
                let b = trim_end_char(final_path.as_str(), '/');
                if a != b {
                    let mut r: String = "path-changing redirect rejected: ".to_owned();
                    r.push_str(asked.path.as_str());
                    r.push_str(" \u{2192} ");
                    r.push_str(final_path.as_str());
                    return r;
                }
                let mut r: String = "redirected to ".to_owned();
                r.push_str(final_url.as_str());
                r.push_str(" but detection still returned None (unexpected)");
                r
            },
        },
    }
}

/// Being the same path but for a slash at the end is an equivalence.
pub proof fn same_path_is_an_equivalence(a: Seq<char>, b: Seq<char>, c: Seq<char>)
    ensures
        same_path(a, a),
        same_path(a, b) ==> same_path(b, a),
        same_path(a, b) && same_path(b, c) ==> same_path(a, c),
{
}

/// A path and the same path with a slash behind it count as one; a path with
/// anything else behind it does not.
pub proof fn only_a_slash_is_tolerated(a: Seq<char>, rest: Seq<char>)
    requires
        a.len() > 0,
        a.last() != '/',
    ensures
        same_path(a, a.push('/')),
        rest.len() > 0 && rest != seq!['/'] ==> !same_path(a, a + rest),
{
    assert(a.push('/').drop_last() =~= a);
    if rest.len() > 0 && rest != seq!['/'] {
        let ab = a + rest;
        if same_path(a, ab) {
            assert(without_slash(ab).len() == a.len());
            assert(rest.len() == 1 && ab.last() == '/');
            assert(rest =~= seq!['/']);
        }
    }
}

/// A redirect that changes the path is never taken as canonical.
pub proof fn path_changes_are_not_followed(input: Seq<char>, status: u16, final_url: Seq<char>)
    requires
        !same_path(url_path(input), url_path(final_url)),
    ensures
        canonical_prefix(input, status, final_url) is None,
{
}

/// `b` is `a` with a slash behind it, where there was none.
pub open spec fn differ_by_a_slash(a: Seq<char>, b: Seq<char>) -> bool {
    b == a.push('/') && (a.len() > 0 ==> a.last() != '/')
}

/// A redirect to another address with the same path is followed: its canonical
/// form is stored.
pub proof fn redirects_on_the_same_path_are_followed(
    input: Seq<char>,
    status: u16,
    final_url: Seq<char>,
)
    requires
        url_text(input) is Some,
        url_text(final_url) is Some,
        url_text(input) != url_text(final_url),
        200 <= status < 300,
        differ_by_a_slash(url_path(input), url_path(final_url)) || differ_by_a_slash(
            url_path(final_url),
            url_path(input),
        ) || url_path(input) == url_path(final_url),
    ensures
        canonical_prefix(input, status, final_url) == normalized(final_url),
{
    let a = url_path(input);
    let b = url_path(final_url);
    assert(a.push('/').drop_last() =~= a);
    assert(b.push('/').drop_last() =~= b);
}

/// A failed request, an address that was not left and what is no URL give
/// nothing to store.
pub proof fn other_answers_are_not_followed(input: Seq<char>, status: u16, final_url: Seq<char>)
    ensures
        !(200 <= status < 300) ==> canonical_prefix(input, status, final_url) is None,
        url_text(input) == url_text(final_url) ==> canonical_prefix(input, status, final_url)
            is None,
        url_text(input) is None || url_text(final_url) is None ==> canonical_prefix(
            input,
            status,
            final_url,
        ) is None,
{
}

/// The reason that is given is the first that holds.
pub proof fn reasons_are_given_in_order(
    input: Seq<char>,
    status: u16,
    status_text: String,
    final_url: String,
    final_path: String,
    message: String,
)
    ensures
        ({
            let answer = Probe::Answer { status, status_text, final_url, final_path };
            &&& url_text(input) is None ==> reason(input, answer) == "unparseable URL"@
            &&& url_text(input) is Some && !(200 <= status < 300) ==> reason(input, answer)
                == "non-2xx final status: "@ + status_text@ + " at "@ + final_url@
            &&& url_text(input) == Some(final_url@) && 200 <= status < 300 ==> reason(input, answer)
                == "already canonical (no redirect)"@
            &&& url_text(input) is Some ==> reason(input, Probe::Timeout) == "timeout"@ && reason(
                input,
                Probe::ConnectError,
            ) == "connect error"@ && reason(input, Probe::NetworkError(message))
                == "network error: "@ + message@
        }),
{
}

/// Slashes at the end of a path do not count as a change when a reason is given.
pub proof fn slashes_are_no_reason(path: Seq<char>)
    ensures
        same_path_but_slashes(path, path.push('/')),
        same_path_but_slashes(path, path),
{
    assert(path.push('/').drop_last() =~= path);
}

/// A redirect to a path that differs by more than slashes at the end is named
/// with both paths; any other redirect with where it led.
pub proof fn redirects_are_named(
    input: Seq<char>,
    status: u16,
    status_text: String,
    final_url: String,
    final_path: String,
)
    requires
        url_text(input) is Some,
        url_text(input) != Some(final_url@),
        200 <= status < 300,
    ensures
        ({
            let answer = Probe::Answer { status, status_text, final_url, final_path };
            if trim_end_of(url_path(input), '/') != trim_end_of(final_path@, '/') {
                reason(input, answer) == "path-changing redirect rejected: "@ + url_path(input)
                    + " \u{2192} "@ + final_path@
            } else {
                reason(input, answer) == "redirected to "@ + final_url@
                    + " but detection still returned None (unexpected)"@
            }
        }),
{
}

/// An address is given three seconds to answer with its canonical form.
pub proof fn detection_waits_three_seconds()
    ensures
        DETECTION_TIMEOUT_SECS == 3,
{
}

} // verus!
