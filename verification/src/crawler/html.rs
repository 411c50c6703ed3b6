//! HTML documents as the `scraper` crate reads them.

use scraper::{ElementRef, Html, Selector};
use vstd::prelude::*;

verus! {

/// What the engine reads of an element: the attributes it asked for, and the
/// text inside.
pub struct SelectedElement {
    pub attrs: Vec<Option<String>>,
    pub text: String,
}

pub type ElementModel = (Seq<Option<Seq<char>>>, Seq<char>);

impl DeepView for SelectedElement {
    type V = ElementModel;

    open spec fn deep_view(&self) -> ElementModel {
        (self.attrs.deep_view(), self.text@)
    }
}

/// A node below some element: its text, where it is a text node, and for each
/// of its ancestors whether it matches a selector, where it is an element.
pub struct DomNode {
    pub text: Option<String>,
    pub marks: Vec<Option<bool>>,
}

pub type NodeModel = (Option<Seq<char>>, Seq<Option<bool>>);

impl DeepView for DomNode {
    type V = NodeModel;

    open spec fn deep_view(&self) -> NodeModel {
        (self.text.deep_view(), self.marks.deep_view())
    }
}

/// The elements of the document `html` that match `selector`, each with the
/// values of `attrs` and its text; `None` where the selector is not one.
pub uninterp spec fn html_select(
    html: Seq<char>,
    selector: Seq<char>,
    attrs: Seq<Seq<char>>,
) -> Option<Seq<ElementModel>>;

/// For each element of the document `html` that matches `root`, the nodes
/// below it, their ancestors marked by `mark`; `None` where one of the
/// selectors is not one.
pub uninterp spec fn html_descendants(
    html: Seq<char>,
    root: Seq<char>,
    mark: Seq<char>,
) -> Option<Seq<Seq<NodeModel>>>;

/// `scraper::Html::parse_document` and `Html::select`. Of each element, in the order
/// in which the crate keeps them, the result holds `attr` of each name in `attrs`, in the order of the
/// names, and the concatenation of `ElementRef::text`.
#[verifier::external_body]
pub(crate) fn select_elements(html: &str, selector: &str, attrs: &Vec<&str>) -> (r: Option<
    Vec<SelectedElement>,
>)
    ensures
        r.deep_view() == html_select(html@, selector@, attrs.deep_view()),
        r is Some ==> forall|i: int|
            0 <= i < r->0.len() ==> (#[trigger] (r->0)@[i]).attrs.len() == attrs.len(),
{
    let selector = Selector::parse(selector).ok()?;
    let document = Html::parse_document(html);
    let elements = document.select(&selector).map(|el| SelectedElement {
        attrs: attrs.iter().map(|a| el.value().attr(a).map(|v| v.to_string())).collect(),
        text: el.text().collect(),
    });
    Some(elements.collect())
}

/// `scraper::Html::parse_document` and `Html::select` of `root`. Of each element the
/// result holds its `descendants`, in the order in which the crate walks them: the text of a text node,
/// and for every one of its `ancestors` that is an element, whether
/// `Selector::matches` holds of it for `mark`.
#[verifier::external_body]
pub(crate) fn select_nodes(html: &str, root: &str, mark: &str) -> (r: Option<Vec<Vec<DomNode>>>)
    ensures
        r.deep_view() == html_descendants(html@, root@, mark@),
{
    let root = Selector::parse(root).ok()?;
    let mark = Selector::parse(mark).ok()?;
    let document = Html::parse_document(html);
    let nodes = document.select(&root).map(|el| el.descendants().map(|n| DomNode {
        text: n.value().as_text().map(|t| t.to_string()),
        marks: n.ancestors().map(|a| ElementRef::wrap(a).map(|e| mark.matches(&e))).collect(),
    }).collect());
    Some(nodes.collect())
}

} // verus!
