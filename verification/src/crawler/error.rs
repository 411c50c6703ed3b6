//! What can go wrong while crawling.

use vstd::prelude::*;
use crate::text::{decimal, show_unsigned};
use crate::time::Duration;

verus! {

/// A failed crawl step. Failures of the network, the database, the index and
/// the file system carry the message that came with them.
#[derive(Debug)]
pub enum CrawlError {
    Http(String),
    UrlParse(String),
    RobotsDisallowed(String),
    NotHtml(String),
    IndexFull { used: u64, max: u64 },
    /// The server answered 429 Too Many Requests.
    RateLimited { retry_after: Option<Duration> },
    Db(String),
    Tantivy(String),
    Io(String),
    Other(String),
}

pub type CrawlResult<T> = Result<T, CrawlError>;

/// How the standard library shows an optional span of seconds and nanoseconds
/// for debugging.
pub uninterp spec fn shown_wait(wait: Option<(u64, u32)>) -> Seq<char>;

/// The `Debug` form of an `Option<std::time::Duration>`.
#[verifier::external_body]
fn show_wait(wait: Option<(u64, u32)>) -> (r: String)
    requires
        wait is Some ==> (wait->0).1 < 1_000_000_000,
    ensures
        r@ == shown_wait(wait),
{
    format!("{:?}", wait.map(|(secs, nanos)| std::time::Duration::new(secs, nanos)))
}

impl CrawlError {
    /// The message shown for the error.
    pub open spec fn message_text(self) -> Seq<char> {
        match self {
            CrawlError::Http(m) => "HTTP error: "@ + m@,
            CrawlError::UrlParse(m) => "URL parse error: "@ + m@,
            CrawlError::RobotsDisallowed(url) => "robots.txt disallows "@ + url@,
            CrawlError::NotHtml(content_type) => "not HTML: "@ + content_type@,
            CrawlError::IndexFull { used, max } => "index full: used="@ + decimal(used as nat)
                + ", max="@ + decimal(max as nat),
            CrawlError::RateLimited { retry_after } => "rate limited (retry after "@ + shown_wait(
                match retry_after {
                    Some(d) => Some(
                        ((d@ / 1_000_000_000) as u64, (d@ % 1_000_000_000) as u32),
                    ),
                    None => None,
                },
            ) + ")"@,
            CrawlError::Db(m) => "database error: "@ + m@,
            CrawlError::Tantivy(m) => "tantivy error: "@ + m@,
            CrawlError::Io(m) => "I/O error: "@ + m@,
            CrawlError::Other(m) => m@,
        }
    }

    /// The message shown for the error.
    pub fn message(&self) -> (r: String)
        ensures
            r@ == self.message_text(),
    {
        match self {
            CrawlError::Http(m) => labelled("HTTP error: ", m.as_str()),
            CrawlError::UrlParse(m) => labelled("URL parse error: ", m.as_str()),
            CrawlError::RobotsDisallowed(url) => labelled("robots.txt disallows ", url.as_str()),
            CrawlError::NotHtml(content_type) => labelled("not HTML: ", content_type.as_str()),
            CrawlError::IndexFull { used, max } => {
                let mut r: String = "index full: used=".to_owned();
                let u = show_unsigned(*used);
                r.push_str(u.as_str());
                r.push_str(", max=");
                let m = show_unsigned(*max);
                r.push_str(m.as_str());
                r
            },
            CrawlError::RateLimited { retry_after } => {
                let wait = match retry_after {
                    Some(d) => Some((d.as_secs(), d.subsec_nanos())),
                    None => None,
                };
                let shown = show_wait(wait);
                let mut r: String = "rate limited (retry after ".to_owned();
                r.push_str(shown.as_str());
                r.push_str(")");
                r
            },
            CrawlError::Db(m) => labelled("database error: ", m.as_str()),
            CrawlError::Tantivy(m) => labelled("tantivy error: ", m.as_str()),
            CrawlError::Io(m) => labelled("I/O error: ", m.as_str()),
            CrawlError::Other(m) => m.clone(),
        }
    }
}

fn labelled(label: &str, message: &str) -> (r: String)
    ensures
        r@ == label@ + message@,
{
    crate::text::concat(label, message)
}

/// The message of an error says what failed, and then what is known of it.
pub proof fn messages_say_what_failed(m: String, used: u64, max: u64)
    ensures
        CrawlError::Http(m).message_text() == "HTTP error: "@ + m@,
        CrawlError::UrlParse(m).message_text() == "URL parse error: "@ + m@,
        CrawlError::RobotsDisallowed(m).message_text() == "robots.txt disallows "@ + m@,
        CrawlError::NotHtml(m).message_text() == "not HTML: "@ + m@,
        CrawlError::Db(m).message_text() == "database error: "@ + m@,
        CrawlError::Tantivy(m).message_text() == "tantivy error: "@ + m@,
        CrawlError::Io(m).message_text() == "I/O error: "@ + m@,
        CrawlError::Other(m).message_text() == m@,
        (CrawlError::IndexFull { used, max }).message_text() == "index full: used="@ + decimal(
            used as nat,
        ) + ", max="@ + decimal(max as nat),
{
}

} // verus!
