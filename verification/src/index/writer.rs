//! Documents of the index and the journal of what a commit makes durable.

use vstd::prelude::*;
use crate::crawler::url_parts::{parse_url, url_host, url_text};
use crate::text::{lower, to_lower};

verus! {

/// A page as it is handed to the index.
pub struct Document<'a> {
    pub collection: &'a str,
    pub url: &'a str,
    pub title: &'a str,
    pub body: &'a str,
    pub indexed_at: i64,
    /// The collection's identifier, kept for the journal only.
    pub collection_id: &'a str,
    /// The content's fingerprint, kept for the journal only.
    pub content_hash: &'a str,
}

/// One page that waits for a commit, or that a commit made durable.
#[derive(Debug, Clone)]
pub struct JournalEntry {
    pub collection_id: String,
    pub url: String,
    pub content_hash: String,
}

pub struct EntryModel {
    pub collection_id: Seq<char>,
    pub url: Seq<char>,
    pub content_hash: Seq<char>,
}

impl DeepView for JournalEntry {
    type V = EntryModel;

    open spec fn deep_view(&self) -> EntryModel {
        EntryModel {
            collection_id: self.collection_id@,
            url: self.url@,
            content_hash: self.content_hash@,
        }
    }
}

impl<'a> Document<'a> {
    /// What the journal keeps of the document.
    pub open spec fn entry(self) -> EntryModel {
        EntryModel {
            collection_id: self.collection_id@,
            url: self.url@,
            content_hash: self.content_hash@,
        }
    }
}

/// The host under which a page at `url` can be searched: lowercase, and empty
/// where there is none.
pub open spec fn search_host(url: Seq<char>) -> Seq<char> {
    match (url_text(url), url_host(url)) {
        (Some(_), Some(h)) => lower(h),
        _ => Seq::empty(),
    }
}

/// The host under which a page at `url` can be searched.
pub fn host_field(url: &str) -> (r: String)
    ensures
        r@ == search_host(url@),
{
    match parse_url(url) {
        Some(u) => match u.host {
            Some(h) => to_lower(h.as_str()),
            None => String::new(),
        },
        None => String::new(),
    }
}

/// The pages written since the last commit, in order.
pub struct Journal {
    pending: Vec<JournalEntry>,
}

impl View for Journal {
    type V = Seq<EntryModel>;

    closed spec fn view(&self) -> Seq<EntryModel> {
        self.pending.deep_view()
    }
}

impl Journal {
    pub fn new() -> (r: Journal)
        ensures
            r@ == Seq::<EntryModel>::empty(),
    {
        let r = Journal { pending: Vec::new() };
        assert(r@ =~= Seq::<EntryModel>::empty());
        r
    }

    /// Notes that a document was written to the index.
    pub fn upsert(&mut self, d: &Document)
        ensures
            final(self)@ == old(self)@.push(d.entry()),
    {
        let entry = JournalEntry {
            collection_id: d.collection_id.to_owned(),
            url: d.url.to_owned(),
            content_hash: d.content_hash.to_owned(),
        };
        let ghost before = self@;
        self.pending.push(entry);
        assert(self@ =~= before.push(d.entry()));
    }

    /// The outcome of a commit. Where the index confirmed it, the pages that
    /// just became durable are handed out and nothing is pending any more;
    /// where it failed, everything stays pending.
    pub fn commit(&mut self, confirmed: bool) -> (r: Option<Vec<JournalEntry>>)
        ensures
            confirmed ==> r is Some && r->0.deep_view() == old(self)@ && final(self)@ == Seq::<
                EntryModel,
            >::empty(),
            !confirmed ==> r is None && final(self)@ == old(self)@,
    {
        if confirmed {
            let mut taken: Vec<JournalEntry> = Vec::new();
            std::mem::swap(&mut taken, &mut self.pending);
            assert(self@ =~= Seq::<EntryModel>::empty());
            Some(taken)
        } else {
            None
        }
    }

    pub fn len(&self) -> (r: usize)
        ensures
            r == self@.len(),
    {
        self.pending.len()
    }
}

/// A page can be searched under the host of its URL, in small letters, and what
/// has no host under none.
pub proof fn pages_are_found_by_their_host(url: Seq<char>, host: Seq<char>)
    ensures
        url_text(url) is Some && url_host(url) == Some(host) ==> search_host(url) == lower(host),
        url_text(url) is None || url_host(url) is None ==> search_host(url).len() == 0,
{
}

/// The journal keeps what names a page and what it was: its collection, its URL
/// and its fingerprint.
pub proof fn journals_name_pages(d: Document<'_>)
    ensures
        d.entry().collection_id == d.collection_id@,
        d.entry().url == d.url@,
        d.entry().content_hash == d.content_hash@,
{
}

} // verus!
