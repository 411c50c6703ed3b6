//! What the engine serves to browsers and to other machines.

use vstd::prelude::*;
use crate::api::reply::{Reply, ReplyModel};
use crate::text::{chars_of, holds_text, same_text, stands_at, trim_end_char, trim_end_of};

verus! {

// ---------------------------------------------------------------------------
// Static files
// ---------------------------------------------------------------------------

/// The media type that is guessed from the name of a file.
pub uninterp spec fn media_type(name: Seq<char>) -> Seq<char>;

/// `mime_guess::from_path` and `MimeGuess::first_or_octet_stream`, printed. The
/// crate goes by the extension that `std::path::Path` finds in the name.
#[verifier::external_body]
fn guess_media_type(name: &str) -> (r: String)
    ensures
        r@ == media_type(name@),
{
    mime_guess::from_path(name).first_or_octet_stream().to_string()
}

/// One file that the engine serves.
#[derive(Debug, Clone)]
pub struct StaticAsset {
    pub name: String,
    pub data: Vec<u8>,
}

/// The files that the engine serves.
#[derive(Debug, Clone)]
pub struct StaticAssets {
    pub files: Vec<StaticAsset>,
}

/// A file as it is served.
#[derive(Debug)]
pub struct ServedAsset {
    pub data: Vec<u8>,
    pub content_type: String,
}

/// The position of the file `name` at or behind `i`.
pub open spec fn asset_at(files: Seq<StaticAsset>, name: Seq<char>, i: int) -> Option<int>
    decreases files.len() - i,
{
    if i < 0 || i >= files.len() {
        None
    } else if files[i].name@ == name {
        Some(i)
    } else {
        asset_at(files, name, i + 1)
    }
}

impl StaticAssets {
    /// The file `name` with its media type; an answer that says so where there
    /// is none.
    pub fn serve_asset(&self, name: &str) -> (r: Result<ServedAsset, Reply>)
        ensures
            match r {
                Ok(a) => asset_at(self.files@, name@, 0) is Some && a.data@
                    == self.files@[asset_at(self.files@, name@, 0)->0].data@ && a.content_type@
                    == media_type(name@),
                Err(reply) => asset_at(self.files@, name@, 0) is None && reply.deep_view() == (
                ReplyModel { status: 404, body: "not found"@, header: None }),
            },
    {
        let mut i: usize = 0;
        while i < self.files.len()
            invariant
                i <= self.files.len(),
                asset_at(self.files@, name@, 0) == asset_at(self.files@, name@, i as int),
            decreases self.files.len() - i,
        {
            if same_text(self.files[i].name.as_str(), name) {
                let source = &self.files[i].data;
                let mut data: Vec<u8> = Vec::new();
                let mut k: usize = 0;
                while k < source.len()
                    invariant
                        k <= source.len(),
                        data@ == source@.take(k as int),
                    decreases source.len() - k,
                {
                    data.push(source[k]);
                    assert(source@.take(k + 1) =~= source@.take(k as int).push(
                        source@[k as int],
                    ));
                    k = k + 1;
                }
                assert(source@.take(source@.len() as int) =~= source@);
                return Ok(ServedAsset { data, content_type: guess_media_type(name) });
            }
            i = i + 1;
        }
        Err(Reply::plain(404, "not found"))
    }
}

// ---------------------------------------------------------------------------
// robots.txt
// ---------------------------------------------------------------------------

/// The robots rules of the engine itself. Its pages of results are endless and
/// thin, so crawlers are kept from them and from the programming interface.
pub fn robots_txt() -> (r: Reply)
    ensures
        r.deep_view() == (ReplyModel {
            status: 200,
            body:
                "User-agent: *\nAllow: /$\nDisallow: /api/\nDisallow: /admin\nDisallow: /mcp\nDisallow: /*?\n"@,
            header: Some(("content-type"@, "text/plain; charset=utf-8"@)),
        }),
{
    Reply::with_header(
        200,
        "User-agent: *\nAllow: /$\nDisallow: /api/\nDisallow: /admin\nDisallow: /mcp\nDisallow: /*?\n",
        "content-type",
        "text/plain; charset=utf-8",
    )
}

// ---------------------------------------------------------------------------
// OpenSearch
// ---------------------------------------------------------------------------

/// A character as it is written in HTML and XML.
pub open spec fn escaped_char(c: char) -> Seq<char> {
    if c == '&' {
        "&amp;"@
    } else if c == '<' {
        "&lt;"@
    } else if c == '>' {
        "&gt;"@
    } else if c == '"' {
        "&quot;"@
    } else if c == '\'' {
        "&#39;"@
    } else {
        seq![c]
    }
}

/// A text as it is written in HTML and XML.
pub open spec fn escaped(s: Seq<char>) -> Seq<char>
    decreases s.len(),
{
    if s.len() == 0 {
        Seq::empty()
    } else {
        escaped(s.drop_last()) + escaped_char(s.last())
    }
}

/// Writes a text so that it can stand in HTML and XML.
pub fn html_escape(s: &str) -> (r: String)
    ensures
        r@ == escaped(s@),
{
    let v = chars_of(s);
    let mut r: String = String::new();
    let mut i: usize = 0;
    assert(v@.take(0) =~= Seq::<char>::empty());
    while i < v.len()
        invariant
            i <= v.len(),
            r@ == escaped(v@.take(i as int)),
        decreases v.len() - i,
    {
        let c: char = v[i];
        assert(v@.take(i + 1).drop_last() =~= v@.take(i as int));
        if c == '&' {
            r.push_str("&amp;");
        } else if c == '<' {
            r.push_str("&lt;");
        } else if c == '>' {
            r.push_str("&gt;");
        } else if c == '"' {
            r.push_str("&quot;");
        } else if c == '\'' {
            r.push_str("&#39;");
        } else {
            let ghost before = r@;
            r.push(c);
            assert(r@ =~= before + seq![c]);
        }
        i = i + 1;
    }
    assert(v@.take(v@.len() as int) =~= v@);
    r
}

/// The description by which browsers learn how the engine at `base` is
/// searched.
pub open spec fn opensearch_text(base: Seq<char>) -> Seq<char> {
    "<?xml version=\"1.0\" encoding=\"UTF-8\"?>\n<OpenSearchDescription xmlns=\"http://a9.com/-/spec/opensearch/1.1/\">\n  <ShortName>Community Search</ShortName>\n  <Description>Self-hosted, federated peer-to-peer search</Description>\n  <InputEncoding>UTF-8</InputEncoding>\n  <Url type=\"text/html\" method=\"get\" template=\""@
        + base + "/?q={searchTerms}\"/>\n  <Url type=\"application/json\" method=\"get\" template=\""@
        + base + "/api/search?q={searchTerms}\"/>\n</OpenSearchDescription>\n"@
}

/// The description by which browsers learn how this engine is searched.
/// Without an address of its own the engine describes itself relative to the
/// site it is found on.
pub fn opensearch(self_url: &str) -> (r: Reply)
    ensures
        r.deep_view() == (ReplyModel {
            status: 200,
            body: opensearch_text(escaped(trim_end_of(self_url@, '/'))),
            header: Some(("content-type"@, "application/opensearchdescription+xml"@)),
        }),
{
    let trimmed = trim_end_char(self_url, '/');
    let base = html_escape(trimmed.as_str());
    let mut body: String =
        "<?xml version=\"1.0\" encoding=\"UTF-8\"?>\n<OpenSearchDescription xmlns=\"http://a9.com/-/spec/opensearch/1.1/\">\n  <ShortName>Community Search</ShortName>\n  <Description>Self-hosted, federated peer-to-peer search</Description>\n  <InputEncoding>UTF-8</InputEncoding>\n  <Url type=\"text/html\" method=\"get\" template=\"".to_owned();
    body.push_str(base.as_str());
    body.push_str("/?q={searchTerms}\"/>\n  <Url type=\"application/json\" method=\"get\" template=\"");
    body.push_str(base.as_str());
    body.push_str("/api/search?q={searchTerms}\"/>\n</OpenSearchDescription>\n");
    Reply::with_header(
        200,
        body.as_str(),
        "content-type",
        "application/opensearchdescription+xml",
    )
}

proof fn lemma_escaped_char(c: char, i: int)
    requires
        0 <= i < escaped_char(c).len(),
    ensures
        escaped_char(c)[i] != '<' && escaped_char(c)[i] != '>' && escaped_char(c)[i] != '"',
{
    reveal_strlit("&amp;");
    reveal_strlit("&lt;");
    reveal_strlit("&gt;");
    reveal_strlit("&quot;");
    reveal_strlit("&#39;");
}

/// An escaped text can neither open or close an element nor end an attribute.
pub proof fn escaped_text_is_inert(s: Seq<char>, i: int)
    requires
        0 <= i < escaped(s).len(),
    ensures
        escaped(s)[i] != '<' && escaped(s)[i] != '>' && escaped(s)[i] != '"',
    decreases s.len(),
{
    let front = escaped(s.drop_last());
    if i < front.len() {
        escaped_text_is_inert(s.drop_last(), i);
    } else {
        lemma_escaped_char(s.last(), i - front.len());
    }
}

/// Escaping goes character by character: only those that mean something in HTML
/// and XML are written otherwise, each as its entity.
pub proof fn texts_are_escaped_by_character(a: Seq<char>, b: Seq<char>, c: char)
    ensures
        escaped(a + b) == escaped(a) + escaped(b),
        escaped(seq![c]) == escaped_char(c),
        escaped_char('&') == "&amp;"@,
        escaped_char('<') == "&lt;"@,
        escaped_char('>') == "&gt;"@,
        escaped_char('"') == "&quot;"@,
        escaped_char('\'') == "&#39;"@,
        c != '&' && c != '<' && c != '>' && c != '"' && c != '\'' ==> escaped_char(c) == seq![c],
    decreases b.len(),
{
    let one = seq![c];
    assert(one.drop_last() =~= Seq::<char>::empty());
    assert(escaped(one.drop_last()) + escaped_char(c) =~= escaped_char(c));
    if b.len() == 0 {
        assert(a + b =~= a);
        assert(escaped(a) + escaped(b) =~= escaped(a));
    } else {
        texts_are_escaped_by_character(a, b.drop_last(), c);
        assert((a + b).drop_last() =~= a + b.drop_last());
        assert((a + b).last() == b.last());
        assert(escaped(a + b) =~= escaped(a) + escaped(b));
    }
}

/// The first file of a name is served, and none where there is none.
pub proof fn files_are_found_by_name(files: Seq<StaticAsset>, name: Seq<char>, from: int)
    requires
        0 <= from <= files.len(),
    ensures
        match asset_at(files, name, from) {
            Some(i) => from <= i < files.len() && files[i].name@ == name && forall|j: int|
                from <= j < i ==> (#[trigger] files[j]).name@ != name,
            None => forall|j: int| from <= j < files.len() ==> (#[trigger] files[j]).name@ != name,
        },
    decreases files.len() - from,
{
    if from < files.len() && files[from].name@ != name {
        files_are_found_by_name(files, name, from + 1);
    }
}

/// The description of the engine gives its address twice: for people and for
/// programs.
pub proof fn descriptions_name_the_address(base: Seq<char>)
    ensures
        holds_text(opensearch_text(base), base + "/?q={searchTerms}"@),
        holds_text(opensearch_text(base), base + "/api/search?q={searchTerms}"@),
{
    reveal_strlit("/?q={searchTerms}");
    reveal_strlit("/api/search?q={searchTerms}");
    reveal_strlit("/?q={searchTerms}\"/>\n  <Url type=\"application/json\" method=\"get\" template=\"");
    reveal_strlit("/api/search?q={searchTerms}\"/>\n</OpenSearchDescription>\n");
    let text = opensearch_text(base);
    let head = "<?xml version=\"1.0\" encoding=\"UTF-8\"?>\n<OpenSearchDescription xmlns=\"http://a9.com/-/spec/opensearch/1.1/\">\n  <ShortName>Community Search</ShortName>\n  <Description>Self-hosted, federated peer-to-peer search</Description>\n  <InputEncoding>UTF-8</InputEncoding>\n  <Url type=\"text/html\" method=\"get\" template=\""@;
    let middle = "/?q={searchTerms}\"/>\n  <Url type=\"application/json\" method=\"get\" template=\""@;
    let i = head.len() as int;
    let p = base + "/?q={searchTerms}"@;
    assert(text.subrange(i, i + p.len()) =~= p);
    assert(stands_at(text, p, i));
    let k = (head + base + middle).len() as int;
    let q = base + "/api/search?q={searchTerms}"@;
    assert(text.subrange(k, k + q.len()) =~= q);
    assert(stands_at(text, q, k));
}

} // verus!
