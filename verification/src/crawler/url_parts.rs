//! URLs as the `url` crate reads and writes them.
//!
//! A URL is held as text. Every function here parses the text it is given with
//! `url::Url::parse`, reads or changes that one parsed value, and hands plain
//! values back. What the crate computes has a name below.
//!
//! Not every text that the crate writes is one that it reads: a host label of
//! some hundred characters outside ASCII has a name in ASCII that is too long to
//! be decoded again. So what is said of a text that was written is said of web
//! URLs that can be read again.

use url::Url;
use vstd::prelude::*;

verus! {

/// The serialization of the URL that `input` parses to.
pub uninterp spec fn url_text(input: Seq<char>) -> Option<Seq<char>>;

/// Why `input` does not parse, where it does not.
pub uninterp spec fn url_error(input: Seq<char>) -> Seq<char>;

/// The scheme of the URL that `input` parses to.
pub uninterp spec fn url_scheme(input: Seq<char>) -> Seq<char>;

/// The host of the URL that `input` parses to.
pub uninterp spec fn url_host(input: Seq<char>) -> Option<Seq<char>>;

/// The explicit port of the URL that `input` parses to.
pub uninterp spec fn url_port(input: Seq<char>) -> Option<u16>;

/// The path of the URL that `input` parses to.
pub uninterp spec fn url_path(input: Seq<char>) -> Seq<char>;

/// The query of the URL that `input` parses to.
pub uninterp spec fn url_query(input: Seq<char>) -> Option<Seq<char>>;

/// The decoded query pairs of the URL that `input` parses to.
pub uninterp spec fn url_query_pairs(input: Seq<char>) -> Seq<(Seq<char>, Seq<char>)>;

/// The fragment of the URL that `input` parses to.
pub uninterp spec fn url_fragment(input: Seq<char>) -> Option<Seq<char>>;

/// The user name of the URL that `input` parses to; empty where it has none.
pub uninterp spec fn url_username(input: Seq<char>) -> Seq<char>;

/// The password of the URL that `input` parses to.
pub uninterp spec fn url_password(input: Seq<char>) -> Option<Seq<char>>;

/// The text of the URL that `input` parses to, without fragment, user name,
/// password and query, and with `port` for a port.
pub uninterp spec fn url_cleared(input: Seq<char>, port: Option<u16>) -> Option<Seq<char>>;

/// The text of the URL that `input` parses to, without fragment, user name and
/// password, with `port` for a port and the encoding of `pairs` for a query.
pub uninterp spec fn url_with_pairs(
    input: Seq<char>,
    port: Option<u16>,
    pairs: Seq<(Seq<char>, Seq<char>)>,
) -> Option<Seq<char>>;

/// The URL that `reference` resolves to against what `base` parses to.
pub uninterp spec fn url_join(base: Seq<char>, reference: Seq<char>) -> Option<Seq<char>>;

/// `url` is an absolute http or https URL.
pub open spec fn is_web_url(url: Seq<char>) -> bool {
    url_text(url) is Some && (url_scheme(url) == "http"@ || url_scheme(url) == "https"@)
}

/// `port` is none, or the one that the URL has.
pub open spec fn is_port_of(port: Option<u16>, input: Seq<char>) -> bool {
    port is None || port == url_port(input)
}

/// Where `text` can be read, it has the scheme of `input`. Where it is read as
/// a web URL, it is read as it was written: with that port and with neither
/// fragment nor user name nor password.
pub open spec fn is_written_from(text: Seq<char>, input: Seq<char>, port: Option<u16>) -> bool {
    &&& url_text(text) is Some ==> url_scheme(text) == url_scheme(input)
    &&& is_web_url(text) ==> {
        &&& url_text(text) == Some(text)
        &&& url_port(text) == port
        &&& url_fragment(text) is None
        &&& url_username(text) == Seq::<char>::empty()
        &&& url_password(text) is None
    }
}

/// A web URL that was written without a query is read without one, and writing
/// it once more changes nothing.
pub open spec fn is_written_cleared(text: Seq<char>, port: Option<u16>) -> bool {
    is_web_url(text) ==> {
        &&& url_query(text) is None
        &&& url_query_pairs(text) == Seq::<(Seq<char>, Seq<char>)>::empty()
        &&& url_cleared(text, port) == Some(text)
    }
}

/// A web URL that was written with `pairs` is read with them, and writing it
/// once more changes nothing.
pub open spec fn is_written_with(
    text: Seq<char>,
    port: Option<u16>,
    pairs: Seq<(Seq<char>, Seq<char>)>,
) -> bool {
    is_web_url(text) ==> {
        &&& url_query(text) is Some
        &&& url_query_pairs(text) == pairs
        &&& url_with_pairs(text, port, pairs) == Some(text)
    }
}

/// What the engine reads of a parsed URL.
pub struct UrlParts {
    /// The URL as it serializes.
    pub text: String,
    pub scheme: String,
    pub host: Option<String>,
    /// The port, where it is not the default one of the scheme.
    pub port: Option<u16>,
    pub path: String,
    pub query: Option<String>,
    /// The query's pairs, percent-decoded, in order.
    pub pairs: Vec<(String, String)>,
    pub fragment: Option<String>,
    pub username: String,
    pub password: Option<String>,
}

/// `url::Url::parse`, with the getters `as_str`, `scheme`, `host_str`, `port`,
/// `path`, `query`, `query_pairs`, `fragment`, `username` and `password` of what
/// it returns. The result is `None` where `input` does not parse; otherwise each
/// field is what its getter gives for `input`. Without a query there are no
/// pairs.
#[verifier::external_body]
pub(crate) fn parse_url(input: &str) -> (r: Option<UrlParts>)
    ensures
        match r {
            Some(u) => {
                &&& url_text(input@) == Some(u.text@)
                &&& u.scheme@ == url_scheme(input@)
                &&& u.host.deep_view() == url_host(input@)
                &&& u.port == url_port(input@)
                &&& u.path@ == url_path(input@)
                &&& u.query.deep_view() == url_query(input@)
                &&& u.pairs.deep_view() == url_query_pairs(input@)
                &&& u.query is None ==> u.pairs.len() == 0
                &&& u.fragment.deep_view() == url_fragment(input@)
                &&& u.username@ == url_username(input@)
                &&& u.password.deep_view() == url_password(input@)
            },
            None => url_text(input@) is None,
        },
{
    let url = Url::parse(input).ok()?;
    Some(UrlParts {
        text: url.as_str().to_string(),
        scheme: url.scheme().to_string(),
        host: url.host_str().map(|h| h.to_string()),
        port: url.port(),
        path: url.path().to_string(),
        query: url.query().map(|q| q.to_string()),
        pairs: url.query_pairs().map(|(k, v)| (k.into_owned(), v.into_owned())).collect(),
        fragment: url.fragment().map(|f| f.to_string()),
        username: url.username().to_string(),
        password: url.password().map(|p| p.to_string()),
    })
}

/// The message of the error that `Url::parse` gives for `input`; empty where
/// it parses.
#[verifier::external_body]
pub(crate) fn read_url_error(input: &str) -> (r: String)
    ensures
        r@ == url_error(input@),
{
    Url::parse(input).err().map(|e| e.to_string()).unwrap_or_default()
}

/// The text of what `input` parses to, after `Url::set_fragment` and
/// `Url::set_password` with none, `Url::set_username` with an empty name,
/// `Url::set_port` with `port` and `Url::set_query` with none. A URL that cannot
/// have a user name, a password or a port keeps what it has. `None` where
/// `input` does not parse.
///
/// Where the text can be read again it has the scheme of `input`; where that
/// makes it a web URL it is read as it was written, and clearing it once more
/// changes nothing.
#[verifier::external_body]
pub(crate) fn clear_url(input: &str, port: Option<u16>) -> (r: Option<String>)
    requires
        is_port_of(port, input@),
    ensures
        r.deep_view() == url_cleared(input@, port),
        r is Some <==> url_text(input@) is Some,
        r is Some ==> is_written_from(r->0@, input@, port),
        r is Some ==> is_written_cleared(r->0@, port),
{
    let mut url = Url::parse(input).ok()?;
    url.set_fragment(None);
    let _ = url.set_username("");
    let _ = url.set_password(None);
    let _ = url.set_port(port);
    url.set_query(None);
    Some(url.to_string())
}

/// The text of what `input` parses to, after `Url::set_fragment` and
/// `Url::set_password` with none, `Url::set_username` with an empty name,
/// `Url::set_port` with `port`, and `Url::query_pairs_mut`, cleared and then
/// extended by `pairs` in order. A URL that cannot have a user name, a password
/// or a port keeps what it has. `None` where `input` does not parse.
///
/// Where the text can be read again it has the scheme of `input`; where that
/// makes it a web URL it is read as it was written, the pairs as they were
/// given, and writing them once more changes nothing.
#[verifier::external_body]
pub(crate) fn write_pairs(
    input: &str,
    port: Option<u16>,
    pairs: &Vec<(String, String)>,
) -> (r: Option<String>)
    requires
        is_port_of(port, input@),
        url_query(input@) is Some,
    ensures
        r.deep_view() == url_with_pairs(input@, port, pairs.deep_view()),
        r is Some <==> url_text(input@) is Some,
        r is Some ==> is_written_from(r->0@, input@, port),
        r is Some ==> is_written_with(r->0@, port, pairs.deep_view()),
{
    let mut url = Url::parse(input).ok()?;
    url.set_fragment(None);
    let _ = url.set_username("");
    let _ = url.set_password(None);
    let _ = url.set_port(port);
    url.query_pairs_mut().clear().extend_pairs(pairs);
    Some(url.to_string())
}

/// `Url::join` of `reference` with what `base` parses to; `None` where `base`
/// does not parse or the reference does not resolve.
#[verifier::external_body]
pub(crate) fn join_url(base: &str, reference: &str) -> (r: Option<String>)
    ensures
        r.deep_view() == url_join(base@, reference@),
{
    let url = Url::parse(base).ok()?.join(reference).ok()?;
    Some(url.to_string())
}

} // verus!
