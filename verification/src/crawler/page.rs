//! Crawling one page: from the answer of the server to the rows, the index
//! job, the suggested hosts and the links that follow from it.

use vstd::prelude::*;
use crate::crawler::error::{CrawlError, CrawlResult};
use crate::crawler::fetcher::{FetchOutcome, FetchRequest};
use crate::crawler::parser::{
    extract_canonical, extract_links, page_canonical, page_links, page_text, page_title, parse_text,
    ExtractedLink, LinkModel, ParsedPage,
};
use crate::crawler::url_class::{
    all_settled, host_of, in_prefix, is_blacklisted_outlink_host, is_in_prefix, is_settled,
    normalize_url, normalized, url_bare_host, url_blacklisted,
};
use crate::db::crawled_pages::{
    after_entry, stored_row, CrawledPageRow, IndexedModel, PageRowModel,
};
use crate::db::outlink_hosts::{ExampleModel, OutlinkExample};
use crate::hash::{content_hash, page_fingerprint};
use crate::index::indexer::{IndexJob, JobModel};
use crate::text::copy_opt;

verus! {

/// What a page is crawled for.
#[derive(Debug, Clone)]
pub struct PageContext {
    pub collection_id: String,
    pub crawl_target_id: String,
    /// The prefix that tells links to follow from links out.
    pub url_prefix: String,
    /// The collection's name, which goes into the index.
    pub collection_name: String,
}

/// What crawling one page came to.
#[derive(Debug, Clone)]
pub struct PageResult {
    /// Canonical URLs found on the page that fall under the prefix.
    pub in_prefix_links: Vec<String>,
    /// Whether the page was sent to the index.
    pub indexed: bool,
    /// Whether the server said that nothing changed.
    pub not_modified: bool,
}

/// One link out of the prefix, to be counted for its host.
#[derive(Debug, Clone)]
pub struct OutlinkHit {
    pub host: String,
    pub example: OutlinkExample,
}

pub struct HitModel {
    pub host: Seq<char>,
    pub example: ExampleModel,
}

impl DeepView for OutlinkHit {
    type V = HitModel;

    open spec fn deep_view(&self) -> HitModel {
        HitModel { host: self.host@, example: self.example.deep_view() }
    }
}

/// What is to be done about a fetched page: the job to send to the index, if
/// any, then the row to store and the links out to count, then the result.
#[derive(Debug)]
pub struct PagePlan {
    pub row: CrawledPageRow,
    pub job: Option<IndexJob>,
    pub hits: Vec<OutlinkHit>,
    pub result: PageResult,
}

pub struct PlanModel {
    pub row: PageRowModel,
    pub job: Option<JobModel>,
    pub hits: Seq<HitModel>,
    pub in_prefix_links: Seq<Seq<char>>,
    pub indexed: bool,
    pub not_modified: bool,
}

impl View for PagePlan {
    type V = PlanModel;

    open spec fn view(&self) -> PlanModel {
        PlanModel {
            row: self.row@,
            job: self.job.deep_view(),
            hits: self.hits.deep_view(),
            in_prefix_links: self.result.in_prefix_links.deep_view(),
            indexed: self.result.indexed,
            not_modified: self.result.not_modified,
        }
    }
}

// ---------------------------------------------------------------------------
// Before the fetch
// ---------------------------------------------------------------------------

/// Refuses a page that the site's robots rules disallow.
pub fn check_robots(allowed: bool, url: &str) -> (r: CrawlResult<()>)
    ensures
        allowed ==> r is Ok,
        !allowed ==> (r matches Err(CrawlError::RobotsDisallowed(u)) && u@ == url@),
{
    if allowed {
        Ok(())
    } else {
        Err(CrawlError::RobotsDisallowed(url.to_owned()))
    }
}

/// The validators of the version that is known of a page: its tag and the time
/// of its last change.
pub open spec fn known_validators(prior: Option<PageRowModel>) -> (
    Option<Seq<char>>,
    Option<Seq<char>>,
) {
    match prior {
        Some(p) => (p.etag, p.last_modified),
        None => (None, None),
    }
}

/// The request for a page: with the validators of the version that is known.
pub fn page_request(url: &str, prior: &Option<CrawledPageRow>) -> (r: FetchRequest)
    ensures
        r.url@ == url@,
        r.etag.deep_view() == (match prior {
            Some(p) => p.etag.deep_view(),
            None => None,
        }),
        r.last_modified.deep_view() == (match prior {
            Some(p) => p.last_modified.deep_view(),
            None => None,
        }),
        (r.etag.deep_view(), r.last_modified.deep_view()) == known_validators(prior.deep_view()),
{
    match prior {
        Some(p) => FetchRequest {
            url: url.to_owned(),
            etag: copy_opt(&p.etag),
            last_modified: copy_opt(&p.last_modified),
        },
        None => FetchRequest { url: url.to_owned(), etag: None, last_modified: None },
    }
}

// ---------------------------------------------------------------------------
// Pages without new content
// ---------------------------------------------------------------------------

/// The row for an answer without a page: what was known stays, with the new
/// status and time.
pub open spec fn carried_row(
    url: Seq<char>,
    ctx: PageContext,
    prior: Option<PageRowModel>,
    status: i64,
    now: i64,
) -> PageRowModel {
    PageRowModel {
        id: 0,
        collection_id: ctx.collection_id@,
        crawl_target_id: ctx.crawl_target_id@,
        url,
        etag: match prior {
            Some(p) => p.etag,
            None => None,
        },
        last_modified: match prior {
            Some(p) => p.last_modified,
            None => None,
        },
        content_hash: match prior {
            Some(p) => p.content_hash,
            None => None,
        },
        last_status: Some(status),
        last_crawled_at: now,
        indexed_content_hash: match prior {
            Some(p) => p.indexed_content_hash,
            None => None,
        },
    }
}

/// The plan for an answer without a page: only the row is stored.
pub open spec fn carried_plan(
    url: Seq<char>,
    ctx: PageContext,
    prior: Option<PageRowModel>,
    status: i64,
    not_modified: bool,
    now: i64,
) -> PlanModel {
    PlanModel {
        row: carried_row(url, ctx, prior, status, now),
        job: None,
        hits: Seq::empty(),
        in_prefix_links: Seq::empty(),
        indexed: false,
        not_modified,
    }
}

fn carry_forward(
    url: &str,
    ctx: &PageContext,
    prior: &Option<CrawledPageRow>,
    status: i64,
    not_modified: bool,
    now_unix: i64,
) -> (r: PagePlan)
    ensures
        r@ == carried_plan(url@, *ctx, prior.deep_view(), status, not_modified, now_unix),
{
    let (etag, last_modified, content_hash, indexed_content_hash) = match prior {
        Some(p) => (
            copy_opt(&p.etag),
            copy_opt(&p.last_modified),
            copy_opt(&p.content_hash),
            copy_opt(&p.indexed_content_hash),
        ),
        None => (None, None, None, None),
    };
    let row = CrawledPageRow {
        id: 0,
        collection_id: ctx.collection_id.clone(),
        crawl_target_id: ctx.crawl_target_id.clone(),
        url: url.to_owned(),
        etag,
        last_modified,
        content_hash,
        last_status: Some(status),
        last_crawled_at: now_unix,
        indexed_content_hash,
    };
    let r = PagePlan {
        row,
        job: None,
        hits: Vec::new(),
        result: PageResult { in_prefix_links: Vec::new(), indexed: false, not_modified },
    };
    assert(r@.hits =~= Seq::<HitModel>::empty());
    assert(r@.in_prefix_links =~= Seq::<Seq<char>>::empty());
    r
}

// ---------------------------------------------------------------------------
// Where fresh content belongs
// ---------------------------------------------------------------------------

/// `candidate` is another address than the one that was asked for, and one
/// that may be crawled.
pub open spec fn is_alias(url: Seq<char>, candidate: Seq<char>, prefix: Seq<char>) -> bool {
    Some(candidate) != normalized(url) && in_prefix(candidate, prefix)
}

/// The address that the server redirected to, where the content belongs there.
pub open spec fn redirect_target(url: Seq<char>, final_url: Seq<char>, prefix: Seq<char>) -> Option<
    Seq<char>,
> {
    match normalized(final_url) {
        Some(c) => if is_alias(url, c, prefix) {
            Some(c)
        } else {
            None
        },
        None => None,
    }
}

/// The address that the page names as canonical, where the content belongs
/// there and the redirect did not already lead to it.
pub open spec fn canonical_target(
    url: Seq<char>,
    canonical: Option<Seq<char>>,
    redirect: Option<Seq<char>>,
    prefix: Seq<char>,
) -> Option<Seq<char>> {
    match canonical {
        Some(c) => match normalized(c) {
            Some(n) => if redirect != Some(n) && is_alias(url, n, prefix) {
                Some(n)
            } else {
                None
            },
            None => None,
        },
        None => None,
    }
}

/// The address under which the content is indexed: the redirect's first, then
/// the canonical one, then the one that was asked for.
pub open spec fn index_address(
    url: Seq<char>,
    redirect: Option<Seq<char>>,
    canonical: Option<Seq<char>>,
) -> Seq<char> {
    match redirect {
        Some(r) => r,
        None => match canonical {
            Some(c) => c,
            None => url,
        },
    }
}

fn is_other_address(url: &str, candidate: &String, prefix: &str) -> (r: bool)
    ensures
        r == is_alias(url@, candidate@, prefix@),
{
    let same = match normalize_url(url) {
        Some(n) => n == *candidate,
        None => false,
    };
    !same && is_in_prefix(candidate.as_str(), prefix)
}

fn find_redirect(url: &str, final_url: &str, prefix: &str) -> (r: Option<String>)
    ensures
        r.deep_view() == redirect_target(url@, final_url@, prefix@),
        r is Some ==> is_settled(r->0@),
{
    match normalize_url(final_url) {
        Some(c) => if is_other_address(url, &c, prefix) {
            Some(c)
        } else {
            None
        },
        None => None,
    }
}

fn find_canonical(
    url: &str,
    canonical: &Option<String>,
    redirect: &Option<String>,
    prefix: &str,
) -> (r: Option<String>)
    ensures
        r.deep_view() == canonical_target(
            url@,
            canonical.deep_view(),
            redirect.deep_view(),
            prefix@,
        ),
        r is Some ==> is_settled(r->0@),
{
    match canonical {
        Some(c) => match normalize_url(c.as_str()) {
            Some(n) => {
                let redirected = match redirect {
                    Some(r) => *r == n,
                    None => false,
                };
                if !redirected && is_other_address(url, &n, prefix) {
                    Some(n)
                } else {
                    None
                }
            },
            None => None,
        },
        None => None,
    }
}

// ---------------------------------------------------------------------------
// Links
// ---------------------------------------------------------------------------

/// The canonical URLs of the links that fall under the prefix, in their order.
pub open spec fn links_in_prefix(links: Seq<LinkModel>, prefix: Seq<char>) -> Seq<Seq<char>>
    decreases links.len(),
{
    if links.len() == 0 {
        Seq::empty()
    } else {
        let front = links_in_prefix(links.drop_last(), prefix);
        match normalized(links.last().0) {
            Some(n) => if in_prefix(n, prefix) {
                front.push(n)
            } else {
                front
            },
            None => front,
        }
    }
}

/// Where the link leads under the prefix, its canonical form is among those that
/// are followed.
pub open spec fn is_followed(link: Seq<char>, prefix: Seq<char>, followed: Seq<Seq<char>>) -> bool {
    match normalized(link) {
        Some(n) => in_prefix(n, prefix) ==> followed.contains(n),
        None => true,
    }
}

/// Where the link leads out of the prefix to a host that is not blacklisted, it
/// is counted for that host, with its canonical form, its text and the page.
pub open spec fn is_counted(
    source: Seq<char>,
    link: LinkModel,
    prefix: Seq<char>,
    hits: Seq<HitModel>,
) -> bool {
    match normalized(link.0) {
        Some(n) => !in_prefix(n, prefix) && !url_blacklisted(n) && url_bare_host(n) is Some
            ==> hits.contains(
            HitModel {
                host: url_bare_host(n)->0,
                example: ExampleModel { source_url: source, target_url: n, link_text: link.1 },
            },
        ),
        None => true,
    }
}

/// What a link on the page `source` counts for: its host, where it is a URL
/// outside of the prefix with a host that is not blacklisted.
pub open spec fn outlink_of(source: Seq<char>, link: LinkModel, prefix: Seq<char>) -> Option<
    HitModel,
> {
    match normalized(link.0) {
        None => None,
        Some(n) => if in_prefix(n, prefix) || url_blacklisted(n) {
            None
        } else {
            match url_bare_host(n) {
                None => None,
                Some(host) => Some(
                    HitModel {
                        host,
                        example: ExampleModel {
                            source_url: source,
                            target_url: n,
                            link_text: link.1,
                        },
                    },
                ),
            }
        },
    }
}

/// What the links on the page `source` count for, in their order.
pub open spec fn outlinks(source: Seq<char>, links: Seq<LinkModel>, prefix: Seq<char>) -> Seq<
    HitModel,
>
    decreases links.len(),
{
    if links.len() == 0 {
        Seq::empty()
    } else {
        let front = outlinks(source, links.drop_last(), prefix);
        match outlink_of(source, links.last(), prefix) {
            Some(h) => front.push(h),
            None => front,
        }
    }
}

fn classify_links(
    url: &str,
    links: &Vec<ExtractedLink>,
    prefix: &str,
    in_prefix_links: &mut Vec<String>,
    hits: &mut Vec<OutlinkHit>,
)
    requires
        old(hits).len() == 0,
        all_settled(old(in_prefix_links).deep_view()),
    ensures
        all_settled(final(in_prefix_links).deep_view()),
        final(in_prefix_links).deep_view() == old(in_prefix_links).deep_view() + links_in_prefix(
            links.deep_view(),
            prefix@,
        ),
        final(hits).deep_view() == outlinks(url@, links.deep_view(), prefix@),
        forall|i: int|
            0 <= i < links.len() ==> is_followed(
                (#[trigger] links@[i]).url@,
                prefix@,
                final(in_prefix_links).deep_view(),
            ),
        forall|i: int|
            0 <= i < links.len() ==> is_counted(
                url@,
                (#[trigger] links@[i]).deep_view(),
                prefix@,
                final(hits).deep_view(),
            ),
{
    let ghost all = links.deep_view();
    let ghost start = in_prefix_links.deep_view();
    let mut i: usize = 0;
    assert(all.take(0) =~= Seq::<LinkModel>::empty());
    assert(hits.deep_view() =~= Seq::<HitModel>::empty());
    assert(start + Seq::<Seq<char>>::empty() =~= start);
    while i < links.len()
        invariant
            i <= links.len(),
            all == links.deep_view(),
            all_settled(in_prefix_links.deep_view()),
            in_prefix_links.deep_view() == start + links_in_prefix(all.take(i as int), prefix@),
            hits.deep_view() == outlinks(url@, all.take(i as int), prefix@),
        decreases links.len() - i,
    {
        let ghost links_before = in_prefix_links.deep_view();
        let ghost hits_before = hits.deep_view();
        let link = &links[i];
        proof {
            assert(all[i as int] == link.deep_view());
            assert(all.take(i + 1).drop_last() =~= all.take(i as int));
        }
        match normalize_url(link.url.as_str()) {
            None => {},
            Some(n) => if is_in_prefix(n.as_str(), prefix) {
                in_prefix_links.push(n);
                proof {
                    assert(in_prefix_links.deep_view() =~= links_before.push(n@));
                    assert(start + links_in_prefix(all.take(i + 1), prefix@) =~= (start
                        + links_in_prefix(all.take(i as int), prefix@)).push(n@));
                }
            } else if !is_blacklisted_outlink_host(n.as_str()) {
                match host_of(n.as_str()) {
                    None => {},
                    Some(host) => {
                        let hit = OutlinkHit {
                            host,
                            example: OutlinkExample {
                                source_url: url.to_owned(),
                                target_url: n,
                                link_text: link.text.clone(),
                            },
                        };
                        hits.push(hit);
                        assert(hits.deep_view() =~= hits_before.push(hit.deep_view()));
                    },
                }
            },
        }
        i = i + 1;
    }
    assert(all.take(all.len() as int) =~= all);
    proof {
        let followed = links_in_prefix(all, prefix@);
        let out = in_prefix_links.deep_view();
        assert forall|j: int| 0 <= j < links.len() implies is_followed(
            (#[trigger] links@[j]).url@,
            prefix@,
            out,
        ) by {
            assert(all[j] == links@[j].deep_view());
            links_under_the_prefix_are_followed(all, prefix@, j);
            if let Some(n) = normalized(links@[j].url@) {
                if in_prefix(n, prefix@) {
                    let k = choose|k: int| 0 <= k < followed.len() && followed[k] == n;
                    assert(out[start.len() + k] == n);
                }
            }
        }
        assert forall|j: int| 0 <= j < links.len() implies is_counted(
            url@,
            (#[trigger] links@[j]).deep_view(),
            prefix@,
            hits.deep_view(),
        ) by {
            assert(all[j] == links@[j].deep_view());
            links_out_are_counted(url@, all, prefix@, j);
        }
    }
}

// ---------------------------------------------------------------------------
// Fresh pages
// ---------------------------------------------------------------------------

/// An optional URL as a list.
pub open spec fn listed(url: Option<Seq<char>>) -> Seq<Seq<char>> {
    match url {
        Some(u) => seq![u],
        None => Seq::empty(),
    }
}

/// The head of a fresh answer.
pub struct FreshHead {
    pub status: u16,
    pub etag: Option<String>,
    pub last_modified: Option<String>,
    pub final_url: String,
}

/// What a fresh page holds: its title and text, its links, and the address it
/// names as canonical.
pub struct FreshContent {
    pub page: ParsedPage,
    pub links: Vec<ExtractedLink>,
    pub canonical: Option<String>,
}

/// The fingerprint of the content was committed for the URL before.
pub open spec fn already_committed(prior: Option<PageRowModel>, hash: Seq<char>) -> bool {
    match prior {
        Some(p) => p.indexed_content_hash == Some(hash),
        None => false,
    }
}

/// The plan for a fresh page. The content goes to the index unless the same
/// content was committed before; addresses that the page is an alias of are
/// followed before its links.
pub open spec fn fresh_plan(
    url: Seq<char>,
    ctx: PageContext,
    prior: Option<PageRowModel>,
    head: FreshHead,
    title: Seq<char>,
    text: Seq<char>,
    links: Seq<LinkModel>,
    canonical: Option<Seq<char>>,
    now: i64,
) -> PlanModel {
    let prefix = ctx.url_prefix@;
    let hash = page_fingerprint(title, text);
    let redirect = redirect_target(url, head.final_url@, prefix);
    let canon = canonical_target(url, canonical, redirect, prefix);
    let known = already_committed(prior, hash);
    PlanModel {
        row: PageRowModel {
            id: 0,
            collection_id: ctx.collection_id@,
            crawl_target_id: ctx.crawl_target_id@,
            url,
            etag: head.etag.deep_view(),
            last_modified: head.last_modified.deep_view(),
            content_hash: Some(hash),
            last_status: Some(head.status as i64),
            last_crawled_at: now,
            indexed_content_hash: match prior {
                Some(p) => p.indexed_content_hash,
                None => None,
            },
        },
        job: if known {
            None
        } else {
            Some(
                JobModel {
                    collection_name: ctx.collection_name@,
                    url: index_address(url, redirect, canon),
                    title,
                    body: text,
                    indexed_at: now,
                    collection_id: ctx.collection_id@,
                    content_hash: hash,
                },
            )
        },
        hits: outlinks(url, links, prefix),
        in_prefix_links: listed(redirect) + listed(canon) + links_in_prefix(links, prefix),
        indexed: !known,
        not_modified: false,
    }
}

/// Plans a fresh page from what it holds.
pub fn plan_fresh(
    url: &str,
    ctx: &PageContext,
    prior: &Option<CrawledPageRow>,
    head: FreshHead,
    content: FreshContent,
    now_unix: i64,
) -> (r: PagePlan)
    ensures
        r@ == fresh_plan(
            url@,
            *ctx,
            prior.deep_view(),
            head,
            content.page.title@,
            content.page.text@,
            content.links.deep_view(),
            content.canonical.deep_view(),
            now_unix,
        ),
        all_settled(r@.in_prefix_links),
        forall|i: int|
            0 <= i < content.links.len() ==> is_followed(
                (#[trigger] content.links@[i]).url@,
                ctx.url_prefix@,
                r@.in_prefix_links,
            ),
        r.job matches Some(job) ==> {
            &&& job.title@ == content.page.title@
            &&& job.body@ == content.page.text@
            &&& job.collection_name@ == ctx.collection_name@
            &&& job.collection_id@ == ctx.collection_id@
            &&& job.indexed_at == now_unix
            &&& job.content_hash@ == page_fingerprint(job.title@, job.body@)
        },
{
    let prefix = ctx.url_prefix.as_str();
    let hash = content_hash(content.page.title.as_str(), content.page.text.as_str());
    let redirect = find_redirect(url, head.final_url.as_str(), prefix);
    let canon = find_canonical(url, &content.canonical, &redirect, prefix);
    let known = match prior {
        Some(p) => match &p.indexed_content_hash {
            Some(h) => *h == hash,
            None => false,
        },
        None => false,
    };

    let mut in_prefix_links: Vec<String> = Vec::new();
    match &redirect {
        Some(r) => {
            in_prefix_links.push(r.clone());
        },
        None => {},
    }
    match &canon {
        Some(c) => {
            in_prefix_links.push(c.clone());
        },
        None => {},
    }
    assert(in_prefix_links.deep_view() =~= listed(redirect.deep_view()) + listed(
        canon.deep_view(),
    ));
    let mut hits: Vec<OutlinkHit> = Vec::new();
    classify_links(url, &content.links, prefix, &mut in_prefix_links, &mut hits);

    let index_url = match redirect {
        Some(r) => r,
        None => match canon {
            Some(c) => c,
            None => url.to_owned(),
        },
    };
    let job = if known {
        None
    } else {
        Some(
            IndexJob {
                collection_name: ctx.collection_name.clone(),
                url: index_url,
                title: content.page.title,
                body: content.page.text,
                indexed_at: now_unix,
                collection_id: ctx.collection_id.clone(),
                content_hash: hash.clone(),
            },
        )
    };
    let row = CrawledPageRow {
        id: 0,
        collection_id: ctx.collection_id.clone(),
        crawl_target_id: ctx.crawl_target_id.clone(),
        url: url.to_owned(),
        etag: head.etag,
        last_modified: head.last_modified,
        content_hash: Some(hash),
        last_status: Some(head.status as i64),
        last_crawled_at: now_unix,
        indexed_content_hash: match prior {
            Some(p) => copy_opt(&p.indexed_content_hash),
            None => None,
        },
    };
    PagePlan {
        row,
        job,
        hits,
        result: PageResult { in_prefix_links, indexed: !known, not_modified: false },
    }
}

/// Decides what an answer means for a page. A refusal for too many requests
/// is handed up with the wait it asks for; nothing is stored then. An
/// unchanged page and a failed one only store what was known, with the new
/// status. A fresh page is parsed and planned.
pub fn plan_page(
    url: &str,
    ctx: &PageContext,
    prior: &Option<CrawledPageRow>,
    outcome: FetchOutcome,
    now_unix: i64,
) -> (r: CrawlResult<PagePlan>)
    ensures
        match outcome {
            FetchOutcome::RateLimited { retry_after } => r matches Err(
                CrawlError::RateLimited { retry_after: w },
            ) && w == retry_after,
            FetchOutcome::NotModified => r is Ok && (r->Ok_0)@ == carried_plan(
                url@,
                *ctx,
                prior.deep_view(),
                304,
                true,
                now_unix,
            ),
            FetchOutcome::OtherStatus { status } => r is Ok && (r->Ok_0)@ == carried_plan(
                url@,
                *ctx,
                prior.deep_view(),
                status as i64,
                false,
                now_unix,
            ),
            FetchOutcome::Fresh { status, body, etag, last_modified, final_url } => r is Ok && (
            r->Ok_0)@ == fresh_plan(
                url@,
                *ctx,
                prior.deep_view(),
                (FreshHead { status, etag, last_modified, final_url }),
                page_title(body@),
                page_text(body@),
                page_links(body@, final_url@),
                page_canonical(body@, final_url@),
                now_unix,
            ),
        },
        r matches Ok(plan) ==> !(plan.result.indexed && plan.result.not_modified),
        r is Ok ==> all_settled((r->Ok_0)@.in_prefix_links),
        match (r, outcome) {
            (Ok(plan), FetchOutcome::Fresh { body, final_url, .. }) => {
                let links = page_links(body@, final_url@);
                &&& match plan.job {
                    Some(job) => job.title@ == page_title(body@) && job.body@ == page_text(body@)
                        && job.collection_name@ == ctx.collection_name@ && job.indexed_at
                        == now_unix && job.content_hash@ == page_fingerprint(
                        job.title@,
                        job.body@,
                    ),
                    None => true,
                }
                &&& forall|i: int|
                    0 <= i < links.len() ==> is_followed(
                        (#[trigger] links[i]).0,
                        ctx.url_prefix@,
                        plan@.in_prefix_links,
                    )
            },
            _ => true,
        },
{
    match outcome {
        FetchOutcome::RateLimited { retry_after } => Err(CrawlError::RateLimited { retry_after }),
        FetchOutcome::NotModified => Ok(carry_forward(url, ctx, prior, 304, true, now_unix)),
        FetchOutcome::OtherStatus { status } => Ok(
            carry_forward(url, ctx, prior, status as i64, false, now_unix),
        ),
        FetchOutcome::Fresh { status, body, etag, last_modified, final_url } => {
            let content = FreshContent {
                page: parse_text(body.as_str()),
                links: extract_links(body.as_str(), final_url.as_str()),
                canonical: extract_canonical(body.as_str(), final_url.as_str()),
            };
            let head = FreshHead { status, etag, last_modified, final_url };
            Ok(plan_fresh(url, ctx, prior, head, content, now_unix))
        },
    }
}

// ---------------------------------------------------------------------------
// Laws
// ---------------------------------------------------------------------------

/// Content is indexed under the address that was asked for or under one that
/// may be crawled: a site cannot have content indexed outside of its prefix.
pub proof fn index_address_stays_in_prefix(
    url: Seq<char>,
    final_url: Seq<char>,
    canonical: Option<Seq<char>>,
    prefix: Seq<char>,
)
    ensures
        ({
            let redirect = redirect_target(url, final_url, prefix);
            let canon = canonical_target(url, canonical, redirect, prefix);
            let address = index_address(url, redirect, canon);
            address == url || in_prefix(address, prefix)
        }),
{
}

proof fn lemma_links_in_prefix(links: Seq<LinkModel>, prefix: Seq<char>)
    ensures
        forall|i: int|
            0 <= i < links_in_prefix(links, prefix).len() ==> in_prefix(
                #[trigger] links_in_prefix(links, prefix)[i],
                prefix,
            ),
    decreases links.len(),
{
    if links.len() > 0 {
        lemma_links_in_prefix(links.drop_last(), prefix);
        let front = links_in_prefix(links.drop_last(), prefix);
        let all = links_in_prefix(links, prefix);
        assert forall|i: int| 0 <= i < all.len() implies in_prefix(#[trigger] all[i], prefix) by {
            if i < front.len() {
                assert(all[i] == front[i]);
            }
        }
    }
}

/// Every link that a plan hands on for crawling falls under the prefix.
pub proof fn planned_links_are_in_prefix(
    url: Seq<char>,
    ctx: PageContext,
    prior: Option<PageRowModel>,
    head: FreshHead,
    title: Seq<char>,
    text: Seq<char>,
    links: Seq<LinkModel>,
    canonical: Option<Seq<char>>,
    now: i64,
)
    ensures
        ({
            let plan = fresh_plan(url, ctx, prior, head, title, text, links, canonical, now);
            forall|i: int|
                0 <= i < plan.in_prefix_links.len() ==> in_prefix(
                    #[trigger] plan.in_prefix_links[i],
                    ctx.url_prefix@,
                )
        }),
{
    lemma_links_in_prefix(links, ctx.url_prefix@);
}

/// No link under the prefix and no blacklisted host is ever counted as a link
/// out, and what is counted names the page it was found on.
pub proof fn outlinks_leave_the_prefix(source: Seq<char>, links: Seq<LinkModel>, prefix: Seq<char>)
    ensures
        forall|i: int|
            0 <= i < outlinks(source, links, prefix).len() ==> {
                let hit = #[trigger] outlinks(source, links, prefix)[i];
                &&& !in_prefix(hit.example.target_url, prefix)
                &&& !url_blacklisted(hit.example.target_url)
                &&& url_bare_host(hit.example.target_url) == Some(hit.host)
                &&& hit.example.source_url == source
            },
    decreases links.len(),
{
    if links.len() > 0 {
        outlinks_leave_the_prefix(source, links.drop_last(), prefix);
        let front = outlinks(source, links.drop_last(), prefix);
        let all = outlinks(source, links, prefix);
        assert forall|i: int| 0 <= i < all.len() implies ({
            let hit = #[trigger] all[i];
            &&& !in_prefix(hit.example.target_url, prefix)
            &&& !url_blacklisted(hit.example.target_url)
            &&& url_bare_host(hit.example.target_url) == Some(hit.host)
            &&& hit.example.source_url == source
        }) by {
            if i < front.len() {
                assert(all[i] == front[i]);
            }
        }
    }
}

/// A page is sent to the index exactly when its content is not the content
/// that was last committed for its URL. Content that was fetched but never
/// committed is sent again.
pub proof fn uncommitted_content_is_indexed(
    url: Seq<char>,
    ctx: PageContext,
    prior: Option<PageRowModel>,
    head: FreshHead,
    title: Seq<char>,
    text: Seq<char>,
    links: Seq<LinkModel>,
    canonical: Option<Seq<char>>,
    now: i64,
)
    ensures
        ({
            let plan = fresh_plan(url, ctx, prior, head, title, text, links, canonical, now);
            let committed = match prior {
                Some(p) => p.indexed_content_hash,
                None => None,
            };
            &&& plan.indexed == (plan.job is Some)
            &&& plan.indexed == (committed != Some(page_fingerprint(title, text)))
            &&& plan.row.indexed_content_hash == committed
        }),
{
}

/// What survives a crash. Where the content of a page was sent to the index,
/// the next crawl that finds the same content sends it again as long as no
/// commit was noted in the page's row, and does not once one was.
pub proof fn commits_decide_what_is_sent_again(
    url: Seq<char>,
    ctx: PageContext,
    prior: Option<PageRowModel>,
    head: FreshHead,
    title: Seq<char>,
    text: Seq<char>,
    links: Seq<LinkModel>,
    canonical: Option<Seq<char>>,
    now: i64,
    later: i64,
)
    requires
        fresh_plan(url, ctx, prior, head, title, text, links, canonical, now).job is Some,
        fresh_plan(url, ctx, prior, head, title, text, links, canonical, now).job->0.url == url,
    ensures
        ({
            let plan = fresh_plan(url, ctx, prior, head, title, text, links, canonical, now);
            let job = plan.job->0;
            let crashed = stored_row(prior, plan.row);
            let committed = after_entry(
                crashed,
                IndexedModel {
                    collection_id: job.collection_id,
                    url: job.url,
                    content_hash: job.content_hash,
                },
            );
            &&& fresh_plan(
                url,
                ctx,
                Some(crashed),
                head,
                title,
                text,
                links,
                canonical,
                later,
            ).job is Some
            &&& fresh_plan(
                url,
                ctx,
                Some(committed),
                head,
                title,
                text,
                links,
                canonical,
                later,
            ).job is None
        }),
{
}

/// Every link of a page whose canonical form falls under the prefix is followed
/// under that form.
pub proof fn links_under_the_prefix_are_followed(links: Seq<LinkModel>, prefix: Seq<char>, i: int)
    requires
        0 <= i < links.len(),
    ensures
        match normalized(links[i].0) {
            Some(n) => in_prefix(n, prefix) ==> links_in_prefix(links, prefix).contains(n),
            None => true,
        },
    decreases links.len(),
{
    let front = links_in_prefix(links.drop_last(), prefix);
    let all = links_in_prefix(links, prefix);
    if i < links.len() - 1 {
        links_under_the_prefix_are_followed(links.drop_last(), prefix, i);
        if let Some(n) = normalized(links[i].0) {
            if in_prefix(n, prefix) {
                let k = choose|k: int| 0 <= k < front.len() && front[k] == n;
                assert(all[k] == n);
            }
        }
    } else if let Some(n) = normalized(links[i].0) {
        if in_prefix(n, prefix) {
            assert(all[front.len() as int] == n);
        }
    }
}

/// One link is followed where its canonical form falls under the prefix, and
/// nothing else is. What is followed of two lists of links is what is followed
/// of the first and then what is followed of the second.
pub proof fn links_are_followed_in_order(
    link: LinkModel,
    a: Seq<LinkModel>,
    b: Seq<LinkModel>,
    prefix: Seq<char>,
)
    ensures
        links_in_prefix(seq![link], prefix) == (match normalized(link.0) {
            Some(n) => if in_prefix(n, prefix) {
                seq![n]
            } else {
                Seq::empty()
            },
            None => Seq::empty(),
        }),
        links_in_prefix(a + b, prefix) == links_in_prefix(a, prefix) + links_in_prefix(b, prefix),
    decreases b.len(),
{
    let one = seq![link];
    assert(one.drop_last() =~= Seq::<LinkModel>::empty());
    assert(one.last() == link);
    assert(links_in_prefix(one.drop_last(), prefix) =~= Seq::<Seq<char>>::empty());
    if b.len() == 0 {
        assert(a + b =~= a);
        assert(links_in_prefix(a, prefix) + links_in_prefix(b, prefix) =~= links_in_prefix(
            a,
            prefix,
        ));
    } else {
        links_are_followed_in_order(link, a, b.drop_last(), prefix);
        assert((a + b).drop_last() =~= a + b.drop_last());
        assert((a + b).last() == b.last());
        assert(links_in_prefix(a + b, prefix) =~= links_in_prefix(a, prefix) + links_in_prefix(
            b,
            prefix,
        ));
    }
}

/// A plan hands on where the page was found, where it says it belongs, and then
/// what its links lead to; nothing that it found under the prefix is missing.
pub proof fn plans_follow_what_was_found(
    url: Seq<char>,
    ctx: PageContext,
    prior: Option<PageRowModel>,
    head: FreshHead,
    title: Seq<char>,
    text: Seq<char>,
    links: Seq<LinkModel>,
    canonical: Option<Seq<char>>,
    now: i64,
    i: int,
)
    requires
        0 <= i < links.len(),
    ensures
        ({
            let followed = fresh_plan(
                url,
                ctx,
                prior,
                head,
                title,
                text,
                links,
                canonical,
                now,
            ).in_prefix_links;
            let prefix = ctx.url_prefix@;
            let found = normalized(head.final_url@);
            let named = match canonical {
                Some(c) => normalized(c),
                None => None,
            };
            &&& match normalized(links[i].0) {
                Some(n) => in_prefix(n, prefix) ==> followed.contains(n),
                None => true,
            }
            &&& found is Some && found != normalized(url) && in_prefix(found->0, prefix) ==> followed[0]
                == found->0
            &&& named is Some && named != normalized(url) && in_prefix(named->0, prefix)
                ==> followed.contains(named->0)
            &&& followed.len() <= links.len() + 2
        }),
{
    let prefix = ctx.url_prefix@;
    let redirect = redirect_target(url, head.final_url@, prefix);
    let canon = canonical_target(url, canonical, redirect, prefix);
    let of_links = links_in_prefix(links, prefix);
    let followed = listed(redirect) + listed(canon) + of_links;
    links_under_the_prefix_are_followed(links, prefix, i);
    lemma_no_more_than_links(links, prefix);
    let at = (listed(redirect) + listed(canon)).len() as int;
    if let Some(n) = normalized(links[i].0) {
        if in_prefix(n, prefix) {
            let k = choose|k: int| 0 <= k < of_links.len() && of_links[k] == n;
            assert(followed[at + k] == n);
        }
    }
    if redirect is Some {
        assert(followed[0] == redirect->0);
    }
    if canon is Some {
        assert(followed[listed(redirect).len() as int] == canon->0);
    }
}

proof fn lemma_no_more_than_links(links: Seq<LinkModel>, prefix: Seq<char>)
    ensures
        links_in_prefix(links, prefix).len() <= links.len(),
    decreases links.len(),
{
    if links.len() > 0 {
        lemma_no_more_than_links(links.drop_last(), prefix);
    }
}

/// Every link of a page out of the prefix to a host that is not blacklisted is
/// counted for that host.
pub proof fn links_out_are_counted(
    source: Seq<char>,
    links: Seq<LinkModel>,
    prefix: Seq<char>,
    i: int,
)
    requires
        0 <= i < links.len(),
    ensures
        match normalized(links[i].0) {
            Some(n) => !in_prefix(n, prefix) && !url_blacklisted(n) && url_bare_host(n) is Some
                ==> outlinks(source, links, prefix).contains(
                HitModel {
                    host: url_bare_host(n)->0,
                    example: ExampleModel {
                        source_url: source,
                        target_url: n,
                        link_text: links[i].1,
                    },
                },
            ),
            None => true,
        },
    decreases links.len(),
{
    let front = outlinks(source, links.drop_last(), prefix);
    let all = outlinks(source, links, prefix);
    if let Some(hit) = outlink_of(source, links[i], prefix) {
        if i < links.len() - 1 {
            links_out_are_counted(source, links.drop_last(), prefix, i);
            let k = choose|k: int| 0 <= k < front.len() && front[k] == hit;
            assert(all[k] == hit);
        } else {
            assert(all[front.len() as int] == hit);
        }
    }
}

/// One link counts once at most, and what counts of two lists of links is what
/// counts of the first and then what counts of the second.
pub proof fn links_out_are_counted_in_order(
    source: Seq<char>,
    link: LinkModel,
    a: Seq<LinkModel>,
    b: Seq<LinkModel>,
    prefix: Seq<char>,
)
    ensures
        outlinks(source, seq![link], prefix).len() <= 1,
        outlinks(source, a + b, prefix) == outlinks(source, a, prefix) + outlinks(
            source,
            b,
            prefix,
        ),
    decreases b.len(),
{
    let one = seq![link];
    assert(one.drop_last() =~= Seq::<LinkModel>::empty());
    assert(outlinks(source, one.drop_last(), prefix).len() == 0);
    if b.len() == 0 {
        assert(a + b =~= a);
        assert(outlinks(source, a, prefix) + outlinks(source, b, prefix) =~= outlinks(
            source,
            a,
            prefix,
        ));
    } else {
        links_out_are_counted_in_order(source, link, a, b.drop_last(), prefix);
        assert((a + b).drop_last() =~= a + b.drop_last());
        assert((a + b).last() == b.last());
        assert(outlinks(source, a + b, prefix) =~= outlinks(source, a, prefix) + outlinks(
            source,
            b,
            prefix,
        ));
    }
}

/// What goes to the index is the page that was fetched: its title and its text,
/// under the name of the collection and with the time of the crawl. Its
/// fingerprint is that of the title and the text that go there, and so is the
/// one that is noted for the page.
pub proof fn the_page_itself_is_indexed(
    url: Seq<char>,
    ctx: PageContext,
    prior: Option<PageRowModel>,
    head: FreshHead,
    title: Seq<char>,
    text: Seq<char>,
    links: Seq<LinkModel>,
    canonical: Option<Seq<char>>,
    now: i64,
)
    ensures
        ({
            let plan = fresh_plan(url, ctx, prior, head, title, text, links, canonical, now);
            &&& plan.job matches Some(job) ==> {
                &&& job.title == title
                &&& job.body == text
                &&& job.collection_name == ctx.collection_name@
                &&& job.collection_id == ctx.collection_id@
                &&& job.indexed_at == now
                &&& job.content_hash == page_fingerprint(job.title, job.body)
                &&& plan.row.content_hash == Some(job.content_hash)
            }
            &&& plan.row.content_hash == Some(page_fingerprint(title, text))
            &&& !plan.not_modified
        }),
{
}

/// Content is indexed where it was found, if that is another address under the
/// prefix; else where the page says that it belongs, if that is one; else under
/// the address that was asked for.
pub proof fn content_is_indexed_where_it_belongs(
    url: Seq<char>,
    ctx: PageContext,
    prior: Option<PageRowModel>,
    head: FreshHead,
    title: Seq<char>,
    text: Seq<char>,
    links: Seq<LinkModel>,
    canonical: Option<Seq<char>>,
    now: i64,
)
    ensures
        ({
            let plan = fresh_plan(url, ctx, prior, head, title, text, links, canonical, now);
            let prefix = ctx.url_prefix@;
            let found = normalized(head.final_url@);
            let named = match canonical {
                Some(c) => normalized(c),
                None => None,
            };
            let moved = found is Some && found != normalized(url) && in_prefix(found->0, prefix);
            let renamed = named is Some && named != normalized(url) && in_prefix(named->0, prefix);
            plan.job matches Some(job) ==> {
                &&& moved ==> job.url == found->0
                &&& !moved && renamed ==> job.url == named->0
                &&& !moved && !renamed ==> job.url == url
            }
        }),
{
}

/// What is noted of a fresh page is what its answer said, under the address
/// that was asked for, at the time of the crawl.
pub proof fn fresh_answers_are_noted(
    url: Seq<char>,
    ctx: PageContext,
    prior: Option<PageRowModel>,
    head: FreshHead,
    title: Seq<char>,
    text: Seq<char>,
    links: Seq<LinkModel>,
    canonical: Option<Seq<char>>,
    now: i64,
)
    ensures
        ({
            let row = fresh_plan(url, ctx, prior, head, title, text, links, canonical, now).row;
            &&& row.url == url
            &&& row.collection_id == ctx.collection_id@
            &&& row.crawl_target_id == ctx.crawl_target_id@
            &&& row.etag == head.etag.deep_view()
            &&& row.last_modified == head.last_modified.deep_view()
            &&& row.last_status == Some(head.status as i64)
            &&& row.last_crawled_at == now
        }),
{
}

/// An answer without a page changes nothing of what is known of the page but
/// its status and the time of the crawl; nothing is indexed or followed.
pub proof fn answers_without_a_page_keep_what_is_known(
    url: Seq<char>,
    ctx: PageContext,
    prior: Option<PageRowModel>,
    status: i64,
    not_modified: bool,
    now: i64,
)
    ensures
        ({
            let plan = carried_plan(url, ctx, prior, status, not_modified, now);
            &&& plan.row.url == url
            &&& plan.row.collection_id == ctx.collection_id@
            &&& plan.row.crawl_target_id == ctx.crawl_target_id@
            &&& plan.row.last_status == Some(status)
            &&& plan.row.last_crawled_at == now
            &&& match prior {
                Some(p) => plan.row.etag == p.etag && plan.row.last_modified == p.last_modified
                    && plan.row.content_hash == p.content_hash && plan.row.indexed_content_hash
                    == p.indexed_content_hash,
                None => plan.row.etag is None && plan.row.last_modified is None
                    && plan.row.content_hash is None && plan.row.indexed_content_hash is None,
            }
            &&& plan.job is None && !plan.indexed
            &&& plan.hits.len() == 0
            &&& plan.in_prefix_links.len() == 0
            &&& plan.not_modified == not_modified
        }),
{
}

/// A page that was crawled before is asked for with the validators of the answer
/// that was stored then: a fresh answer's own, or those that an answer without a
/// page left in place.
pub proof fn validators_of_the_last_answer_are_sent(
    url: Seq<char>,
    ctx: PageContext,
    prior: Option<PageRowModel>,
    head: FreshHead,
    title: Seq<char>,
    text: Seq<char>,
    links: Seq<LinkModel>,
    canonical: Option<Seq<char>>,
    status: i64,
    not_modified: bool,
    now: i64,
)
    ensures
        ({
            let fresh = fresh_plan(url, ctx, prior, head, title, text, links, canonical, now).row;
            known_validators(Some(stored_row(prior, fresh))) == (
                head.etag.deep_view(),
                head.last_modified.deep_view(),
            )
        }),
        ({
            let kept = carried_plan(url, ctx, prior, status, not_modified, now).row;
            known_validators(Some(stored_row(prior, kept))) == known_validators(prior)
        }),
        known_validators(None) == (None::<Seq<char>>, None::<Seq<char>>),
{
}

} // verus!
