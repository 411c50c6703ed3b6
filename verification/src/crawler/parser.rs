//! What the crawler takes from an HTML page: its links, its canonical address,
//! its title and its visible text.

use vstd::prelude::*;
use crate::crawler::html::{
    html_descendants, html_select, select_elements, select_nodes, DomNode, ElementModel, NodeModel,
    SelectedElement,
};
use crate::crawler::url_parts::{is_web_url, join_url, parse_url, url_join, url_text};
use crate::text::{
    chars_of, holds_text, join, joined, lower, parts_are_joined_in_order, parts_are_kept, same_text,
    stands_at, stands_at_chars, starts_with, to_lower, trim, trimmed,
};

verus! {

/// A link of a page: its absolute URL and its visible text.
#[derive(Debug, Clone, PartialEq, Eq)]
pub struct ExtractedLink {
    pub url: String,
    pub text: String,
}

pub type LinkModel = (Seq<char>, Seq<char>);

impl DeepView for ExtractedLink {
    type V = LinkModel;

    open spec fn deep_view(&self) -> LinkModel {
        (self.url@, self.text@)
    }
}

/// What a page holds for the index.
#[derive(Debug, Clone, PartialEq, Eq)]
pub struct ParsedPage {
    pub title: String,
    pub text: String,
}

// ---------------------------------------------------------------------------
// Links
// ---------------------------------------------------------------------------

/// `href` starts a mail, a script or a call, whatever the case of its letters.
pub open spec fn is_not_navigation(href: Seq<char>) -> bool {
    ||| "mailto:"@.is_prefix_of(lower(href))
    ||| "javascript:"@.is_prefix_of(lower(href))
    ||| "tel:"@.is_prefix_of(lower(href))
}

/// The web URL that the trimmed `href` leads to from `base`, if any.
pub open spec fn link_target(base: Seq<char>, href: Seq<char>) -> Option<Seq<char>> {
    if href.len() == 0 || href[0] == '#' || is_not_navigation(href) {
        None
    } else {
        match url_join(base, href) {
            None => None,
            Some(u) => if is_web_url(u) {
                Some(u)
            } else {
                None
            },
        }
    }
}

/// The link that an anchor with the attribute `href` makes on a page at `base`.
pub open spec fn anchor_link(base: Seq<char>, anchor: ElementModel) -> Option<LinkModel> {
    if anchor.0.len() == 0 {
        None
    } else {
        match anchor.0[0] {
            None => None,
            Some(href) => match link_target(base, trimmed(href)) {
                None => None,
                Some(u) => Some((u, trimmed(anchor.1))),
            },
        }
    }
}

/// The links that the anchors of a page at `base` make, in their order.
pub open spec fn anchor_links(base: Seq<char>, anchors: Seq<ElementModel>) -> Seq<LinkModel>
    decreases anchors.len(),
{
    if anchors.len() == 0 {
        Seq::empty()
    } else {
        let front = anchor_links(base, anchors.drop_last());
        match anchor_link(base, anchors.last()) {
            None => front,
            Some(link) => front.push(link),
        }
    }
}

/// The links of the page `html` fetched from `base`.
pub open spec fn page_links(html: Seq<char>, base: Seq<char>) -> Seq<LinkModel> {
    if url_text(base) is None {
        Seq::empty()
    } else {
        match html_select(html, "a[href]"@, seq!["href"@]) {
            None => Seq::empty(),
            Some(anchors) => anchor_links(base, anchors),
        }
    }
}

fn web_url(url: &str) -> (r: bool)
    ensures
        r == is_web_url(url@),
{
    match parse_url(url) {
        None => false,
        Some(u) => same_text(u.scheme.as_str(), "http") || same_text(u.scheme.as_str(), "https"),
    }
}

fn not_navigation(href: &str) -> (r: bool)
    ensures
        r == is_not_navigation(href@),
{
    let l = to_lower(href);
    starts_with(l.as_str(), "mailto:") || starts_with(l.as_str(), "javascript:") || starts_with(
        l.as_str(),
        "tel:",
    )
}

fn resolve_href(base: &str, href: &str) -> (r: Option<String>)
    ensures
        r.deep_view() == link_target(base@, href@),
{
    let v = chars_of(href);
    if v.len() == 0 || v[0] == '#' || not_navigation(href) {
        None
    } else {
        match join_url(base, href) {
            None => None,
            Some(u) => if web_url(u.as_str()) {
                Some(u)
            } else {
                None
            },
        }
    }
}

/// The links that the anchors of a page at `base_url` make. Anchors without a
/// usable address, with only a fragment, or that leave the web are passed over.
pub fn links_of_anchors(anchors: &Vec<SelectedElement>, base_url: &str) -> (r: Vec<ExtractedLink>)
    ensures
        r.deep_view() == anchor_links(base_url@, anchors.deep_view()),
{
    let ghost all = anchors.deep_view();
    let mut r: Vec<ExtractedLink> = Vec::new();
    let mut i: usize = 0;
    assert(r.deep_view() =~= Seq::<LinkModel>::empty());
    assert(all.take(0) =~= Seq::<ElementModel>::empty());
    while i < anchors.len()
        invariant
            i <= anchors.len(),
            all == anchors.deep_view(),
            r.deep_view() == anchor_links(base_url@, all.take(i as int)),
        decreases anchors.len() - i,
    {
        let ghost before = r.deep_view();
        let el = &anchors[i];
        proof {
            assert(all.take(i + 1).drop_last() =~= all.take(i as int));
            assert(all[i as int] == el.deep_view());
        }
        if el.attrs.len() > 0 {
            assert(el.attrs.deep_view()[0] == el.attrs@[0].deep_view());
            match &el.attrs[0] {
                None => {},
                Some(href) => {
                    let t = trim(href.as_str());
                    match resolve_href(base_url, t.as_str()) {
                        None => {},
                        Some(url) => {
                            let text = trim(el.text.as_str());
                            r.push(ExtractedLink { url, text });
                            assert(r.deep_view() =~= before.push((url@, text@)));
                        },
                    }
                },
            }
        }
        i = i + 1;
    }
    assert(all.take(all.len() as int) =~= all);
    r
}

/// All absolute http and https links in the anchors of `html`, resolved
/// against `base_url`. Mail, script and telephone links, links that are only a
/// fragment, and empty ones are passed over. There are none where `base_url`
/// is not a URL.
pub fn extract_links(html: &str, base_url: &str) -> (r: Vec<ExtractedLink>)
    ensures
        r.deep_view() == page_links(html@, base_url@),
{
    let none: Vec<ExtractedLink> = Vec::new();
    assert(none.deep_view() =~= Seq::<LinkModel>::empty());
    if parse_url(base_url).is_none() {
        return none;
    }
    let names = vec!["href"];
    assert(names.deep_view() =~= seq!["href"@]);
    match select_elements(html, "a[href]", &names) {
        None => none,
        Some(anchors) => links_of_anchors(&anchors, base_url),
    }
}

// ---------------------------------------------------------------------------
// Canonical address
// ---------------------------------------------------------------------------

/// The characters that separate the tokens of an HTML token list.
pub open spec fn is_ascii_white_space(c: char) -> bool {
    c == ' ' || c == '\t' || c == '\n' || c == '\x0C' || c == '\r'
}

/// `word` stands at position `i` of `s`, white space or an end on either side.
pub open spec fn token_at(s: Seq<char>, word: Seq<char>, i: int) -> bool {
    &&& stands_at(s, word, i)
    &&& i == 0 || is_ascii_white_space(s[i - 1])
    &&& i + word.len() == s.len() || is_ascii_white_space(s[i + word.len()])
}

/// One of the tokens of `list` is `canonical`, whatever the case of its letters.
pub open spec fn names_canonical(list: Seq<char>) -> bool {
    exists|i: int| #[trigger] token_at(lower(list), "canonical"@, i)
}

/// What one link element says of the page's canonical address.
pub enum CanonicalHint {
    /// Nothing: the next one is asked.
    Pass,
    /// There is none, whatever the following elements say.
    Stop,
    /// It is this one.
    Found(Seq<char>),
}

/// What a link element with the attributes `rel` and `href` says of the
/// canonical address of a page at `base`.
pub open spec fn canonical_hint(base: Seq<char>, link: ElementModel) -> CanonicalHint {
    if link.0.len() < 2 {
        CanonicalHint::Stop
    } else {
        match link.0[0] {
            None => CanonicalHint::Stop,
            Some(rel) => if !names_canonical(rel) {
                CanonicalHint::Pass
            } else {
                match link.0[1] {
                    None => CanonicalHint::Stop,
                    Some(href) => if trimmed(href).len() == 0 {
                        CanonicalHint::Pass
                    } else {
                        match url_join(base, trimmed(href)) {
                            None => CanonicalHint::Stop,
                            Some(u) => if is_web_url(u) {
                                CanonicalHint::Found(u)
                            } else {
                                CanonicalHint::Pass
                            },
                        }
                    },
                }
            },
        }
    }
}

/// The address that the link elements from the `i`-th on give.
pub open spec fn first_canonical(base: Seq<char>, links: Seq<ElementModel>, i: int) -> Option<
    Seq<char>,
>
    decreases links.len() - i,
{
    if i < 0 || i >= links.len() {
        None
    } else {
        match canonical_hint(base, links[i]) {
            CanonicalHint::Pass => first_canonical(base, links, i + 1),
            CanonicalHint::Stop => None,
            CanonicalHint::Found(u) => Some(u),
        }
    }
}

/// The canonical address that the page `html` fetched from `base` names.
pub open spec fn page_canonical(html: Seq<char>, base: Seq<char>) -> Option<Seq<char>> {
    if url_text(base) is None {
        None
    } else {
        match html_select(html, "link[rel][href]"@, seq!["rel"@, "href"@]) {
            None => None,
            Some(links) => first_canonical(base, links, 0),
        }
    }
}

fn ascii_white_space(c: char) -> (r: bool)
    ensures
        r == is_ascii_white_space(c),
{
    c == ' ' || c == '\t' || c == '\n' || c == '\x0C' || c == '\r'
}

/// Whether the token list `rel` names `canonical`.
pub fn rel_names_canonical(rel: &str) -> (r: bool)
    ensures
        r == names_canonical(rel@),
{
    let low = to_lower(rel);
    let v = chars_of(low.as_str());
    let w = chars_of("canonical");
    let mut i: usize = 0;
    while i < v.len()
        invariant
            i <= v.len(),
            v@ == lower(rel@),
            w@ == "canonical"@,
            forall|j: int| 0 <= j < i ==> !#[trigger] token_at(v@, w@, j),
        decreases v.len() - i,
    {
        if stands_at_chars(&v, &w, i) && (i == 0 || ascii_white_space(v[i - 1])) {
            let end: usize = i + w.len();
            if end == v.len() || ascii_white_space(v[end]) {
                assert(token_at(v@, w@, i as int));
                return true;
            }
        }
        i = i + 1;
    }
    proof {
        reveal_strlit("canonical");
    }
    false
}

/// The address that the link elements of a page at `base_url` give, each read
/// with its `rel` and `href`.
pub fn canonical_of_links(links: &Vec<SelectedElement>, base_url: &str) -> (r: Option<String>)
    ensures
        r.deep_view() == first_canonical(base_url@, links.deep_view(), 0),
{
    let ghost all = links.deep_view();
    let mut i: usize = 0;
    while i < links.len()
        invariant
            i <= links.len(),
            all == links.deep_view(),
            first_canonical(base_url@, all, 0) == first_canonical(base_url@, all, i as int),
        decreases links.len() - i,
    {
        let el = &links[i];
        assert(all[i as int] == el.deep_view());
        if el.attrs.len() < 2 {
            return None;
        }
        assert(el.attrs.deep_view()[0] == el.attrs@[0].deep_view());
        assert(el.attrs.deep_view()[1] == el.attrs@[1].deep_view());
        match &el.attrs[0] {
            None => {
                return None;
            },
            Some(rel) => if rel_names_canonical(rel.as_str()) {
                match &el.attrs[1] {
                    None => {
                        return None;
                    },
                    Some(href) => {
                        let t = trim(href.as_str());
                        if !t.as_str().is_empty() {
                            match join_url(base_url, t.as_str()) {
                                None => {
                                    return None;
                                },
                                Some(u) => if web_url(u.as_str()) {
                                    return Some(u);
                                },
                            }
                        }
                    },
                }
            },
        }
        i = i + 1;
    }
    None
}

/// The address of the first canonical link of `html` that has one on the web,
/// resolved against `base_url`. `rel` is a token list, so `canonical` is
/// matched as a whole word. Links with an empty address or one that leaves the
/// web are passed over. `None` where no link is left, or where an address
/// before it does not resolve.
pub fn extract_canonical(html: &str, base_url: &str) -> (r: Option<String>)
    ensures
        r.deep_view() == page_canonical(html@, base_url@),
{
    if parse_url(base_url).is_none() {
        return None;
    }
    let names = vec!["rel", "href"];
    assert(names.deep_view() =~= seq!["rel"@, "href"@]);
    match select_elements(html, "link[rel][href]", &names) {
        None => None,
        Some(links) => canonical_of_links(&links, base_url),
    }
}

// ---------------------------------------------------------------------------
// Text
// ---------------------------------------------------------------------------

/// The text of the first title element, trimmed.
pub open spec fn first_title(titles: Option<Seq<ElementModel>>) -> Seq<char> {
    match titles {
        None => Seq::empty(),
        Some(t) => if t.len() == 0 {
            Seq::empty()
        } else {
            trimmed(t[0].1)
        },
    }
}

/// The piece of visible text that a node adds: its trimmed text, where it is a
/// text node, has any, and no ancestor is marked.
pub open spec fn visible_piece(node: NodeModel) -> Option<Seq<char>> {
    match node.0 {
        None => None,
        Some(t) => if node.1.contains(Some(true)) || trimmed(t).len() == 0 {
            None
        } else {
            Some(trimmed(t))
        },
    }
}

/// The pieces of visible text of some nodes, in their order.
pub open spec fn visible_pieces(nodes: Seq<NodeModel>) -> Seq<Seq<char>>
    decreases nodes.len(),
{
    if nodes.len() == 0 {
        Seq::empty()
    } else {
        let front = visible_pieces(nodes.drop_last());
        match visible_piece(nodes.last()) {
            None => front,
            Some(t) => front.push(t),
        }
    }
}

/// The visible text below the first body element.
pub open spec fn first_body_text(bodies: Option<Seq<Seq<NodeModel>>>) -> Seq<char> {
    match bodies {
        None => Seq::empty(),
        Some(b) => if b.len() == 0 {
            Seq::empty()
        } else {
            joined(visible_pieces(b[0]), " "@)
        },
    }
}

/// The title of the page `html`.
pub open spec fn page_title(html: Seq<char>) -> Seq<char> {
    first_title(html_select(html, "title"@, Seq::empty()))
}

/// The visible text of the page `html`.
pub open spec fn page_text(html: Seq<char>) -> Seq<char> {
    first_body_text(html_descendants(html, "body"@, "script, style, noscript"@))
}

/// The title among the title elements of a page.
pub fn title_of(titles: &Option<Vec<SelectedElement>>) -> (r: String)
    ensures
        r@ == first_title(titles.deep_view()),
{
    match titles {
        None => String::new(),
        Some(t) => if t.len() == 0 {
            String::new()
        } else {
            assert(t.deep_view()[0] == t@[0].deep_view());
            trim(t[0].text.as_str())
        },
    }
}

fn has_mark(marks: &Vec<Option<bool>>) -> (r: bool)
    ensures
        r == marks.deep_view().contains(Some(true)),
{
    let mut i: usize = 0;
    while i < marks.len()
        invariant
            i <= marks.len(),
            forall|j: int| 0 <= j < i ==> #[trigger] marks@[j] != Some(true),
        decreases marks.len() - i,
    {
        match marks[i] {
            Some(true) => {
                assert(marks.deep_view()[i as int] == Some(true));
                return true;
            },
            _ => {},
        }
        i = i + 1;
    }
    assert forall|j: int| 0 <= j < marks.deep_view().len() implies marks.deep_view()[j] != Some(
        true,
    ) by {
        assert(marks@[j] != Some(true));
    }
    false
}

/// The pieces of visible text of some nodes, in their order.
pub fn visible_texts(nodes: &Vec<DomNode>) -> (r: Vec<String>)
    ensures
        r.deep_view() == visible_pieces(nodes.deep_view()),
{
    let ghost all = nodes.deep_view();
    let mut r: Vec<String> = Vec::new();
    let mut i: usize = 0;
    assert(r.deep_view() =~= Seq::<Seq<char>>::empty());
    assert(all.take(0) =~= Seq::<NodeModel>::empty());
    while i < nodes.len()
        invariant
            i <= nodes.len(),
            all == nodes.deep_view(),
            r.deep_view() == visible_pieces(all.take(i as int)),
        decreases nodes.len() - i,
    {
        let ghost before = r.deep_view();
        let node = &nodes[i];
        proof {
            assert(all.take(i + 1).drop_last() =~= all.take(i as int));
            assert(all[i as int] == node.deep_view());
        }
        match &node.text {
            None => {},
            Some(t) => if !has_mark(&node.marks) {
                let piece = trim(t.as_str());
                if !piece.as_str().is_empty() {
                    r.push(piece);
                    assert(r.deep_view() =~= before.push(piece@));
                }
            },
        }
        i = i + 1;
    }
    assert(all.take(all.len() as int) =~= all);
    r
}

/// The visible text of a page, from the nodes below its body elements.
pub fn body_text_of(bodies: &Option<Vec<Vec<DomNode>>>) -> (r: String)
    ensures
        r@ == first_body_text(bodies.deep_view()),
{
    match bodies {
        None => String::new(),
        Some(b) => if b.len() == 0 {
            String::new()
        } else {
            assert(b.deep_view()[0] == b@[0].deep_view());
            let pieces = visible_texts(&b[0]);
            join(&pieces, " ")
        },
    }
}

/// The title of the page `html` and its visible text: the text nodes of the
/// body, without what stands in script, style and noscript elements.
pub fn parse_text(html: &str) -> (r: ParsedPage)
    ensures
        r.title@ == page_title(html@),
        r.text@ == page_text(html@),
{
    let names: Vec<&str> = Vec::new();
    assert(names.deep_view() =~= Seq::<Seq<char>>::empty());
    let titles = select_elements(html, "title", &names);
    let bodies = select_nodes(html, "body", "script, style, noscript");
    ParsedPage { title: title_of(&titles), text: body_text_of(&bodies) }
}

// ---------------------------------------------------------------------------
// Laws
// ---------------------------------------------------------------------------

proof fn lemma_anchor_links_lead_to_the_web(base: Seq<char>, anchors: Seq<ElementModel>)
    ensures
        forall|i: int|
            0 <= i < anchor_links(base, anchors).len() ==> is_web_url(
                (#[trigger] anchor_links(base, anchors)[i]).0,
            ),
    decreases anchors.len(),
{
    if anchors.len() > 0 {
        lemma_anchor_links_lead_to_the_web(base, anchors.drop_last());
        let all = anchor_links(base, anchors);
        let front = anchor_links(base, anchors.drop_last());
        assert forall|i: int| 0 <= i < all.len() implies is_web_url((#[trigger] all[i]).0) by {
            if i < front.len() {
                assert(all[i] == front[i]);
            }
        }
    }
}

/// Every link that is taken from a page is an absolute http or https URL.
pub proof fn links_lead_to_the_web(html: Seq<char>, base: Seq<char>)
    ensures
        forall|i: int|
            0 <= i < page_links(html, base).len() ==> is_web_url(
                (#[trigger] page_links(html, base)[i]).0,
            ),
{
    match html_select(html, "a[href]"@, seq!["href"@]) {
        None => {},
        Some(anchors) => lemma_anchor_links_lead_to_the_web(base, anchors),
    }
}

proof fn lemma_first_canonical(base: Seq<char>, links: Seq<ElementModel>, i: int)
    ensures
        first_canonical(base, links, i) matches Some(u) ==> is_web_url(u),
    decreases links.len() - i,
{
    if 0 <= i < links.len() {
        lemma_first_canonical(base, links, i + 1);
    }
}

/// A canonical address is an absolute http or https URL.
pub proof fn canonical_addresses_are_on_the_web(html: Seq<char>, base: Seq<char>)
    ensures
        page_canonical(html, base) matches Some(u) ==> is_web_url(u),
{
    match html_select(html, "link[rel][href]"@, seq!["rel"@, "href"@]) {
        None => {},
        Some(links) => lemma_first_canonical(base, links, 0),
    }
}

/// Text below a marked element adds nothing: with all such nodes taken out the
/// pieces of visible text are the same.
pub proof fn marked_text_is_invisible(nodes: Seq<NodeModel>)
    ensures
        visible_pieces(nodes) == visible_pieces(
            nodes.filter(|n: NodeModel| !n.1.contains(Some(true))),
        ),
    decreases nodes.len(),
{
    let keep = |n: NodeModel| !n.1.contains(Some(true));
    if nodes.len() == 0 {
        nodes.lemma_filter_len(keep);
        assert(nodes.filter(keep) =~= nodes);
    } else {
        let front = nodes.drop_last();
        marked_text_is_invisible(front);
        assert(nodes =~= front.push(nodes.last()));
        front.lemma_filter_push(nodes.last(), keep);
        if keep(nodes.last()) {
            assert(nodes.filter(keep).drop_last() =~= front.filter(keep));
        }
    }
}

/// `href`, trimmed, leads from `base` to the web URL `target`: it is neither
/// empty nor a fragment of the page itself, nor a mail, a script or a call.
pub open spec fn leads_to(base: Seq<char>, href: Seq<char>, target: Seq<char>) -> bool {
    let h = trimmed(href);
    &&& h.len() > 0
    &&& h[0] != '#'
    &&& !"mailto:"@.is_prefix_of(lower(h))
    &&& !"javascript:"@.is_prefix_of(lower(h))
    &&& !"tel:"@.is_prefix_of(lower(h))
    &&& url_join(base, h) == Some(target)
    &&& is_web_url(target)
}

/// Every anchor that leads to a web URL makes a link there, with its trimmed
/// text.
pub proof fn every_anchor_makes_a_link(
    base: Seq<char>,
    anchors: Seq<ElementModel>,
    i: int,
    target: Seq<char>,
)
    requires
        0 <= i < anchors.len(),
        anchors[i].0.len() > 0,
        anchors[i].0[0] is Some,
        leads_to(base, anchors[i].0[0]->0, target),
    ensures
        anchor_links(base, anchors).contains((target, trimmed(anchors[i].1))),
    decreases anchors.len(),
{
    let link = (target, trimmed(anchors[i].1));
    let front = anchor_links(base, anchors.drop_last());
    let all = anchor_links(base, anchors);
    if i < anchors.len() - 1 {
        every_anchor_makes_a_link(base, anchors.drop_last(), i, target);
        let k = choose|k: int| 0 <= k < front.len() && front[k] == link;
        assert(all[k] == link);
    } else {
        assert(all[front.len() as int] == link);
    }
}

/// One anchor makes one link at most, and only where it leads to a web URL; of
/// two lists of anchors, the links of the first come first.
pub proof fn links_are_taken_in_order(
    base: Seq<char>,
    anchor: ElementModel,
    a: Seq<ElementModel>,
    b: Seq<ElementModel>,
)
    ensures
        anchor_links(base, seq![anchor]).len() <= 1,
        anchor_links(base, seq![anchor]).len() == 1 ==> anchor.0.len() > 0 && anchor.0[0] is Some
            && leads_to(base, anchor.0[0]->0, anchor_links(base, seq![anchor])[0].0),
        anchor_links(base, a + b) == anchor_links(base, a) + anchor_links(base, b),
    decreases b.len(),
{
    let one = seq![anchor];
    assert(one.drop_last() =~= Seq::<ElementModel>::empty());
    assert(one.last() == anchor);
    assert(anchor_links(base, one.drop_last()) =~= Seq::<LinkModel>::empty());
    if b.len() == 0 {
        assert(a + b =~= a);
        assert(anchor_links(base, a) + anchor_links(base, b) =~= anchor_links(base, a));
    } else {
        links_are_taken_in_order(base, anchor, a, b.drop_last());
        assert((a + b).drop_last() =~= a + b.drop_last());
        assert((a + b).last() == b.last());
        assert(anchor_links(base, a + b) =~= anchor_links(base, a) + anchor_links(base, b));
    }
}

/// Every anchor of a page that leads to a web URL makes a link of the page.
pub proof fn pages_give_all_their_links(
    html: Seq<char>,
    base: Seq<char>,
    i: int,
    target: Seq<char>,
)
    requires
        url_text(base) is Some,
        ({
            let anchors = html_select(html, "a[href]"@, seq!["href"@]);
            &&& anchors is Some
            &&& 0 <= i < anchors->0.len()
            &&& anchors->0[i].0.len() > 0
            &&& anchors->0[i].0[0] is Some
            &&& leads_to(base, anchors->0[i].0[0]->0, target)
        }),
    ensures
        ({
            let anchors = html_select(html, "a[href]"@, seq!["href"@])->0;
            page_links(html, base).contains((target, trimmed(anchors[i].1)))
        }),
{
    let anchors = html_select(html, "a[href]"@, seq!["href"@])->0;
    every_anchor_makes_a_link(base, anchors, i, target);
}

/// A word is found in a token list wherever white space or an end surrounds it,
/// whatever the case of its letters.
pub proof fn tokens_are_found(before: Seq<char>, word: Seq<char>, behind: Seq<char>)
    requires
        lower(word) == "canonical"@,
        before.len() == 0 || is_ascii_white_space(before.last()),
        behind.len() == 0 || is_ascii_white_space(behind[0]),
    ensures
        names_canonical(before + word + behind),
{
    let all = before + word + behind;
    let i = before.len() as int;
    let w = "canonical"@;
    assert(lower(word).len() == word.len());
    assert(lower(all).subrange(i, i + w.len()) =~= w) by {
        assert forall|k: int| 0 <= k < w.len() implies lower(all)[i + k] == w[k] by {
            assert(all[i + k] == word[k]);
            assert(lower(word)[k] == w[k]);
        }
    }
    if i > 0 {
        assert(lower(all)[i - 1] == before.last());
    }
    if behind.len() > 0 {
        assert(lower(all)[i + w.len()] == behind[0]);
    }
    assert(token_at(lower(all), w, i));
}

/// A link element names the web URL `target` as the canonical address of a page
/// at `base`.
pub open spec fn names_address(base: Seq<char>, link: ElementModel, target: Seq<char>) -> bool {
    &&& link.0.len() >= 2
    &&& link.0[0] is Some && names_canonical(link.0[0]->0)
    &&& link.0[1] is Some && trimmed(link.0[1]->0).len() > 0
    &&& url_join(base, trimmed(link.0[1]->0)) == Some(target)
    &&& is_web_url(target)
}

/// A link element is of another kind.
pub open spec fn is_other_link(link: ElementModel) -> bool {
    link.0.len() >= 2 && link.0[0] is Some && !names_canonical(link.0[0]->0)
}

/// The first canonical link counts, and other links do not.
pub proof fn the_first_canonical_link_counts(
    base: Seq<char>,
    links: Seq<ElementModel>,
    i: int,
    target: Seq<char>,
    from: int,
)
    requires
        0 <= from <= i < links.len(),
        names_address(base, links[i], target),
        forall|j: int| from <= j < i ==> is_other_link(#[trigger] links[j]),
    ensures
        first_canonical(base, links, from) == Some(target),
    decreases i - from,
{
    if from < i {
        assert(is_other_link(links[from]));
        the_first_canonical_link_counts(base, links, i, target, from + 1);
    }
}

/// A page without a canonical link names no address.
pub proof fn other_links_name_no_address(base: Seq<char>, links: Seq<ElementModel>, from: int)
    requires
        0 <= from <= links.len(),
        forall|j: int| from <= j < links.len() ==> is_other_link(#[trigger] links[j]),
    ensures
        first_canonical(base, links, from) is None,
    decreases links.len() - from,
{
    if from < links.len() {
        assert(is_other_link(links[from]));
        other_links_name_no_address(base, links, from + 1);
    }
}

/// The node is visible text: not below a marked element, and not blank.
pub open spec fn is_visible(node: NodeModel) -> bool {
    node.0 is Some && !node.1.contains(Some(true)) && trimmed(node.0->0).len() > 0
}

/// Every visible text adds its trimmed text, and nothing else adds anything; of
/// two lists of nodes, the texts of the first come first.
pub proof fn visible_text_is_taken_in_order(
    node: NodeModel,
    a: Seq<NodeModel>,
    b: Seq<NodeModel>,
)
    ensures
        visible_pieces(seq![node]) == (if is_visible(node) {
            seq![trimmed(node.0->0)]
        } else {
            Seq::empty()
        }),
        visible_pieces(a + b) == visible_pieces(a) + visible_pieces(b),
    decreases b.len(),
{
    let one = seq![node];
    assert(one.drop_last() =~= Seq::<NodeModel>::empty());
    assert(one.last() == node);
    assert(visible_pieces(one.drop_last()) =~= Seq::<Seq<char>>::empty());
    if b.len() == 0 {
        assert(a + b =~= a);
        assert(visible_pieces(a) + visible_pieces(b) =~= visible_pieces(a));
    } else {
        visible_text_is_taken_in_order(node, a, b.drop_last());
        assert((a + b).drop_last() =~= a + b.drop_last());
        assert((a + b).last() == b.last());
        assert(visible_pieces(a + b) =~= visible_pieces(a) + visible_pieces(b));
    }
}

proof fn lemma_visible_piece(nodes: Seq<NodeModel>, i: int)
    requires
        0 <= i < nodes.len(),
        is_visible(nodes[i]),
    ensures
        visible_pieces(nodes).contains(trimmed(nodes[i].0->0)),
    decreases nodes.len(),
{
    let t = trimmed(nodes[i].0->0);
    let front = visible_pieces(nodes.drop_last());
    let all = visible_pieces(nodes);
    if i < nodes.len() - 1 {
        lemma_visible_piece(nodes.drop_last(), i);
        let k = choose|k: int| 0 <= k < front.len() && front[k] == t;
        assert(all[k] == t);
    } else {
        assert(all[front.len() as int] == t);
    }
}

/// Every visible text of the first body of a page stands in the text that is
/// taken from it.
pub proof fn visible_text_is_taken(bodies: Seq<Seq<NodeModel>>, i: int)
    requires
        bodies.len() > 0,
        0 <= i < bodies[0].len(),
        is_visible(bodies[0][i]),
    ensures
        holds_text(first_body_text(Some(bodies)), trimmed(bodies[0][i].0->0)),
{
    let pieces = visible_pieces(bodies[0]);
    lemma_visible_piece(bodies[0], i);
    let k = choose|k: int| 0 <= k < pieces.len() && pieces[k] == trimmed(bodies[0][i].0->0);
    parts_are_kept(pieces, " "@, k);
}

/// The texts that are taken from two halves of a body stand behind each other
/// with a space between.
pub proof fn visible_texts_are_set_apart(a: Seq<NodeModel>, b: Seq<NodeModel>)
    requires
        visible_pieces(a).len() > 0,
        visible_pieces(b).len() > 0,
    ensures
        first_body_text(Some(seq![a + b])) == first_body_text(Some(seq![a])) + " "@
            + first_body_text(Some(seq![b])),
{
    if b.len() > 0 {
        visible_text_is_taken_in_order(b[0], a, b);
    }
    parts_are_joined_in_order(visible_pieces(a), visible_pieces(b), " "@);
}

/// The title of a page is the trimmed text of its first title element, however
/// many follow.
pub proof fn the_first_title_counts(title: ElementModel, others: Seq<ElementModel>)
    ensures
        first_title(Some(seq![title] + others)) == trimmed(title.1),
        first_title(Some(Seq::empty())).len() == 0,
{
    assert((seq![title] + others)[0] == title);
}

/// The title of a page comes from its first title element, and its text holds
/// every visible text below its body: what stands in scripts, styles and
/// fallbacks for missing scripts is not visible.
pub proof fn pages_give_their_title_and_text(
    html: Seq<char>,
    titles: Seq<ElementModel>,
    bodies: Seq<Seq<NodeModel>>,
    i: int,
)
    requires
        html_select(html, "title"@, Seq::empty()) == Some(titles),
        html_descendants(html, "body"@, "script, style, noscript"@) == Some(bodies),
        bodies.len() > 0,
        0 <= i < bodies[0].len(),
    ensures
        titles.len() > 0 ==> page_title(html) == trimmed(titles[0].1),
        is_visible(bodies[0][i]) ==> holds_text(page_text(html), trimmed(bodies[0][i].0->0)),
{
    if is_visible(bodies[0][i]) {
        visible_text_is_taken(bodies, i);
    }
}

/// The canonical address of a page is what its first canonical link names.
pub proof fn pages_name_their_address(
    html: Seq<char>,
    base: Seq<char>,
    links: Seq<ElementModel>,
    i: int,
    target: Seq<char>,
)
    requires
        url_text(base) is Some,
        html_select(html, "link[rel][href]"@, seq!["rel"@, "href"@]) == Some(links),
        0 <= i < links.len(),
        names_address(base, links[i], target),
        forall|j: int| 0 <= j < i ==> is_other_link(#[trigger] links[j]),
    ensures
        page_canonical(html, base) == Some(target),
{
    the_first_canonical_link_counts(base, links, i, target, 0);
}

/// A link element says nothing that counts: it is of another kind, gives no
/// address, or one that is not on the web.
pub open spec fn is_passed_over(base: Seq<char>, link: ElementModel) -> bool {
    &&& link.0.len() >= 2
    &&& link.0[0] is Some
    &&& !names_canonical(link.0[0]->0) || (link.0[1] is Some && (trimmed(link.0[1]->0).len() == 0
        || (url_join(base, trimmed(link.0[1]->0)) is Some && !is_web_url(
        url_join(base, trimmed(link.0[1]->0))->0,
    ))))
}

/// Links that say nothing that counts are passed over, up to the first one that
/// names an address.
pub proof fn unusable_links_are_passed_over(
    base: Seq<char>,
    links: Seq<ElementModel>,
    i: int,
    target: Seq<char>,
    from: int,
)
    requires
        0 <= from <= i <= links.len(),
        forall|j: int| from <= j < i ==> is_passed_over(base, #[trigger] links[j]),
    ensures
        i < links.len() && names_address(base, links[i], target) ==> first_canonical(
            base,
            links,
            from,
        ) == Some(target),
        i == links.len() ==> first_canonical(base, links, from) is None,
    decreases i - from,
{
    if from < i {
        assert(is_passed_over(base, links[from]));
        unusable_links_are_passed_over(base, links, i, target, from + 1);
    }
}

/// A token list without the word names no canonical address: neither does a word
/// that only holds it.
pub proof fn longer_words_are_other_words(list: Seq<char>)
    ensures
        !holds_text(lower(list), "canonical"@) ==> !names_canonical(list),
        names_canonical(list) ==> exists|i: int|
            0 <= i && i + 9 <= list.len() && (i == 0 || is_ascii_white_space(
                lower(list)[i - 1],
            )) && (i + 9 == list.len() || is_ascii_white_space(lower(list)[i + 9]))
                && #[trigger] stands_at(lower(list), "canonical"@, i),
{
    reveal_strlit("canonical");
    if names_canonical(list) {
        let i = choose|i: int| #[trigger] token_at(lower(list), "canonical"@, i);
        assert(stands_at(lower(list), "canonical"@, i));
    }
}

/// Mails, scripts and calls are told by how they start, in any case.
pub proof fn other_schemes_are_no_navigation(start: Seq<char>, rest: Seq<char>)
    ensures
        lower(start) == "mailto:"@ || lower(start) == "javascript:"@ || lower(start) == "tel:"@
            ==> is_not_navigation(start + rest),
{
    let all = start + rest;
    assert(lower(all).subrange(0, start.len() as int) =~= lower(start));
}

/// Tokens are split at a tab, a line feed, a form feed, a carriage return and a
/// space, and at nothing else.
pub proof fn tokens_are_split_at_white_space(c: char)
    ensures
        is_ascii_white_space(c) <==> {
            let code: u32 = c as u32;
            code == 9 || code == 10 || code == 12 || code == 13 || code == 32
        },
{
}

} // verus!
