//! Fetching a page: the request that is sent and what the answer means.

use vstd::prelude::*;
use crate::crawler::error::{CrawlError, CrawlResult};
use crate::text::{
    contains_text, decimal, holds_text, lower, numbers_are_read_back, parse_unsigned, stands_at,
    to_lower, trim, trimmed, unsigned_value,
};
use crate::time::{seconds, Duration};

verus! {

/// One page to fetch, with the validators of the version that is known.
#[derive(Debug, Clone)]
pub struct FetchRequest {
    pub url: String,
    pub etag: Option<String>,
    pub last_modified: Option<String>,
}

/// What a fetch came to.
#[derive(Debug, Clone)]
pub enum FetchOutcome {
    /// A successful answer with an HTML body.
    Fresh {
        status: u16,
        body: String,
        etag: Option<String>,
        last_modified: Option<String>,
        /// The address after redirects.
        final_url: String,
    },
    /// 304 Not Modified.
    NotModified,
    /// 429 Too Many Requests. Only a wait given in seconds is understood.
    RateLimited { retry_after: Option<Duration> },
    /// Any other status that is not a success.
    OtherStatus { status: u16 },
}

/// The status line and the headers of an answer, as far as they matter.
#[derive(Debug, Clone)]
pub struct ResponseHead {
    pub status: u16,
    pub content_type: Option<String>,
    pub etag: Option<String>,
    pub last_modified: Option<String>,
    pub retry_after: Option<String>,
    /// The address after redirects.
    pub final_url: String,
}

/// What to do once the head of an answer is known.
#[derive(Debug)]
pub enum HeadDecision {
    /// The outcome is known without the body.
    Done(FetchOutcome),
    /// The body is a page: read it.
    ReadBody,
}

// ---------------------------------------------------------------------------
// Retry-After
// ---------------------------------------------------------------------------

/// The seconds that a `Retry-After` value gives, where it gives seconds.
pub open spec fn retry_seconds(value: Seq<char>) -> Option<nat> {
    unsigned_value(trimmed(value), u64::MAX as nat)
}

/// Reads a `Retry-After` value. `None` for a date or anything else that is not
/// a whole number of seconds.
pub fn parse_retry_after(value: &str) -> (r: Option<Duration>)
    ensures
        match r {
            Some(d) => retry_seconds(value@) is Some && d@ == seconds(retry_seconds(value@)->0),
            None => retry_seconds(value@) is None,
        },
{
    let t = trim(value);
    match parse_unsigned(t.as_str(), u64::MAX) {
        Some(n) => Some(Duration::from_secs(n)),
        None => None,
    }
}

// ---------------------------------------------------------------------------
// Requests
// ---------------------------------------------------------------------------

/// The headers of a request: the user agent, and a validator where one is
/// known of the page.
pub open spec fn conditional_headers(
    user_agent: Seq<char>,
    etag: Option<Seq<char>>,
    last_modified: Option<Seq<char>>,
) -> Seq<(Seq<char>, Seq<char>)> {
    let agent = seq![("user-agent"@, user_agent)];
    let match_ = match etag {
        Some(e) => seq![("if-none-match"@, e)],
        None => Seq::empty(),
    };
    let since = match last_modified {
        Some(l) => seq![("if-modified-since"@, l)],
        None => Seq::empty(),
    };
    agent + match_ + since
}

/// The headers to send with a request.
pub fn request_headers(user_agent: &str, req: &FetchRequest) -> (r: Vec<(String, String)>)
    ensures
        r.deep_view() == conditional_headers(
            user_agent@,
            req.etag.deep_view(),
            req.last_modified.deep_view(),
        ),
{
    let mut r: Vec<(String, String)> = Vec::new();
    r.push(("user-agent".to_owned(), user_agent.to_owned()));
    match &req.etag {
        Some(e) => {
            r.push(("if-none-match".to_owned(), e.clone()));
        },
        None => {},
    }
    match &req.last_modified {
        Some(l) => {
            r.push(("if-modified-since".to_owned(), l.clone()));
        },
        None => {},
    }
    assert(r.deep_view() =~= conditional_headers(
        user_agent@,
        req.etag.deep_view(),
        req.last_modified.deep_view(),
    ));
    r
}

// ---------------------------------------------------------------------------
// Answers
// ---------------------------------------------------------------------------

/// `status` tells of success.
pub open spec fn is_success(status: u16) -> bool {
    200 <= status < 300
}

pub fn success(status: u16) -> (r: bool)
    ensures
        r == is_success(status),
{
    200 <= status && status < 300
}

/// The content type of an answer; empty where it gives none.
pub open spec fn content_type_text(content_type: Option<Seq<char>>) -> Seq<char> {
    match content_type {
        Some(c) => c,
        None => Seq::empty(),
    }
}

/// The answer's content type speaks of HTML.
pub open spec fn is_html(content_type: Option<Seq<char>>) -> bool {
    holds_text(lower(content_type_text(content_type)), "html"@)
}

/// Decides from the head of an answer what the fetch came to: 304 and 429
/// have outcomes of their own, any other failure is only its status, and a
/// success that is not HTML is an error.
pub fn classify_head(head: &ResponseHead) -> (r: CrawlResult<HeadDecision>)
    ensures
        head.status == 304 ==> r matches Ok(HeadDecision::Done(FetchOutcome::NotModified)),
        head.status == 429 ==> (r matches Ok(
            HeadDecision::Done(FetchOutcome::RateLimited { retry_after }),
        ) && match head.retry_after {
            Some(v) => match retry_seconds(v@) {
                Some(n) => retry_after is Some && retry_after->0@ == seconds(n),
                None => retry_after is None,
            },
            None => retry_after is None,
        }),
        head.status != 304 && head.status != 429 && !is_success(head.status) ==> (r matches Ok(
            HeadDecision::Done(FetchOutcome::OtherStatus { status }),
        ) && status == head.status),
        is_success(head.status) && is_html(head.content_type.deep_view()) ==> r matches Ok(
            HeadDecision::ReadBody,
        ),
        is_success(head.status) && !is_html(head.content_type.deep_view()) ==> (r matches Err(
            CrawlError::NotHtml(c),
        ) && c@ == content_type_text(head.content_type.deep_view())),
{
    if head.status == 304 {
        return Ok(HeadDecision::Done(FetchOutcome::NotModified));
    }
    if head.status == 429 {
        let retry_after = match &head.retry_after {
            Some(v) => parse_retry_after(v.as_str()),
            None => None,
        };
        return Ok(HeadDecision::Done(FetchOutcome::RateLimited { retry_after }));
    }
    if !success(head.status) {
        return Ok(HeadDecision::Done(FetchOutcome::OtherStatus { status: head.status }));
    }
    let content_type = match &head.content_type {
        Some(c) => c.clone(),
        None => String::new(),
    };
    let low = to_lower(content_type.as_str());
    if contains_text(low.as_str(), "html") {
        Ok(HeadDecision::ReadBody)
    } else {
        Err(CrawlError::NotHtml(content_type))
    }
}

/// The outcome of a fetch whose body was read.
pub fn fresh_page(head: ResponseHead, body: String) -> (r: FetchOutcome)
    ensures
        r == (FetchOutcome::Fresh {
            status: head.status,
            body,
            etag: head.etag,
            last_modified: head.last_modified,
            final_url: head.final_url,
        }),
{
    FetchOutcome::Fresh {
        status: head.status,
        body,
        etag: head.etag,
        last_modified: head.last_modified,
        final_url: head.final_url,
    }
}

// ---------------------------------------------------------------------------
// Plain text
// ---------------------------------------------------------------------------

/// The text that bytes decode to as UTF-8, what is invalid being replaced.
pub uninterp spec fn lossy_text(bytes: Seq<u8>) -> Seq<char>;

/// `String::from_utf8_lossy`.
#[verifier::external_body]
fn decode_lossy(bytes: &[u8]) -> (r: String)
    ensures
        r@ == lossy_text(bytes@),
{
    String::from_utf8_lossy(bytes).into_owned()
}

/// The part of a body that is kept: no more than `max_bytes`.
pub open spec fn capped(bytes: Seq<u8>, max_bytes: nat) -> Seq<u8> {
    if bytes.len() > max_bytes {
        bytes.take(max_bytes as int)
    } else {
        bytes
    }
}

/// The text of a body, whatever its content type; longer bodies are cut at
/// `max_bytes`. `None` where the status is not a success.
pub fn raw_text(status: u16, bytes: Vec<u8>, max_bytes: usize) -> (r: Option<String>)
    ensures
        r.deep_view() == (if is_success(status) {
            Some(lossy_text(capped(bytes@, max_bytes as nat)))
        } else {
            None
        }),
{
    if !success(status) {
        return None;
    }
    let mut kept = bytes;
    if kept.len() > max_bytes {
        kept.truncate(max_bytes);
        assert(kept@ =~= bytes@.take(max_bytes as int));
    }
    Some(decode_lossy(kept.as_slice()))
}

// ---------------------------------------------------------------------------
// Laws
// ---------------------------------------------------------------------------

/// What is known of a page goes with the request for it: its tag and the time of
/// its last change, each under its own header and only where it is known.
pub proof fn known_validators_are_sent(agent: Seq<char>, etag: Seq<char>, modified: Seq<char>)
    ensures
        ({
            let both = conditional_headers(agent, Some(etag), Some(modified));
            &&& both.len() == 3
            &&& both[0] == ("user-agent"@, agent)
            &&& both[1] == ("if-none-match"@, etag)
            &&& both[2] == ("if-modified-since"@, modified)
        }),
        ({
            let one = conditional_headers(agent, Some(etag), None);
            one.len() == 2 && one[0] == ("user-agent"@, agent) && one[1] == (
                "if-none-match"@,
                etag,
            )
        }),
        ({
            let one = conditional_headers(agent, None, Some(modified));
            one.len() == 2 && one[0] == ("user-agent"@, agent) && one[1] == (
                "if-modified-since"@,
                modified,
            )
        }),
        conditional_headers(agent, None, None).len() == 1,
        conditional_headers(agent, None, None)[0] == ("user-agent"@, agent),
{
}

/// A content type speaks of HTML wherever the word stands in it, in any case.
pub proof fn html_is_recognised(before: Seq<char>, word: Seq<char>, behind: Seq<char>)
    requires
        lower(word) == "html"@,
    ensures
        is_html(Some(before + word + behind)),
        !is_html(None),
{
    let all = before + word + behind;
    let i = before.len() as int;
    reveal_strlit("html");
    assert(lower(word).len() == word.len());
    assert(lower(all).subrange(i, i + 4) =~= "html"@) by {
        assert forall|k: int| 0 <= k < 4 implies lower(all)[i + k] == "html"@[k] by {
            assert(all[i + k] == word[k]);
            assert(lower(word)[k] == "html"@[k]);
        }
    }
    assert(stands_at(lower(all), "html"@, i));
    assert(lower(Seq::<char>::empty()).len() == 0);
}

/// A wait of whole seconds is read, white space around it aside.
pub proof fn waits_in_seconds_are_read(secs: nat, value: Seq<char>)
    requires
        secs <= u64::MAX,
        trimmed(value) == decimal(secs),
    ensures
        retry_seconds(value) == Some(secs),
{
    numbers_are_read_back(secs, u64::MAX as nat);
}

/// Success is a status from 200 up to 299.
pub proof fn successes_are_the_two_hundreds(status: u16)
    ensures
        is_success(status) <==> status / 100 == 2,
{
}

/// A body is kept as it is up to its limit, and cut there.
pub proof fn bodies_are_cut_at_the_limit(bytes: Seq<u8>, max_bytes: nat)
    ensures
        bytes.len() <= max_bytes ==> capped(bytes, max_bytes) == bytes,
        bytes.len() > max_bytes ==> capped(bytes, max_bytes).len() == max_bytes,
        capped(bytes, max_bytes).is_prefix_of(bytes),
{
    let c = capped(bytes, max_bytes);
    assert(bytes.subrange(0, c.len() as int) =~= c);
}

} // verus!
