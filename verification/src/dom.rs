//! An HTML page parsed by scraper, and the questions the library asks of it.
//!
//! An element is named by its index among the nodes of the parsed tree. Every answer is a
//! function of the page's text and of the question alone, and has a name of its own below.
//! This holds because scraper is built with its `deterministic` feature: each element then keeps
//! its attributes in source order (an `IndexMap`), where without the feature they sit in a
//! randomly seeded hash map and the serialized HTML could order them differently per parse.
use scraper::{ElementRef, Html, Selector};
use vstd::prelude::*;

verus! {

#[verifier::external_type_specification]
#[verifier::external_body]
pub struct ExHtml(Html);

/// The tree that `scraper::Html::parse_document` builds from a text (attributes in source
/// order, with the `deterministic` feature).
pub uninterp spec fn parsed_html(source: Seq<char>) -> Html;

/// The elements that `scraper::Selector` text `selector` matches, in the order scraper gives
/// them: among the whole page (`scope` is `None`) or below element `scope`. `None` where the
/// selector text is refused or `scope` names no element.
pub uninterp spec fn html_select(source: Seq<char>, scope: Option<usize>, selector: Seq<char>) -> Option<Seq<usize>>;

/// The value of attribute `name` of an element; `None` where it has none or `element` names no
/// element.
pub uninterp spec fn html_attr(source: Seq<char>, element: usize, name: Seq<char>) -> Option<Seq<char>>;

/// The HTML inside an element, as scraper serializes it, with each element's attributes in
/// source order (the `deterministic` feature).
pub uninterp spec fn html_inner(source: Seq<char>, element: usize) -> Option<Seq<char>>;

/// The text nodes below an element, in document order.
pub uninterp spec fn html_texts(source: Seq<char>, element: usize) -> Option<Seq<Seq<char>>>;

/// The child nodes of an element: the index of each child that is an element, `None` for each
/// text, comment or other node.
pub uninterp spec fn html_children(source: Seq<char>, element: usize) -> Option<Seq<Option<usize>>>;

/// Calls `scraper::Html::parse_document`; the tree is named `parsed_html` of the text.
#[verifier::external_body]
fn parse_document(source: &str) -> (r: Html)
    ensures
        r == parsed_html(source@),
{
    Html::parse_document(source)
}

/// A parsed page together with its text.
pub struct Page {
    source: String,
    dom: Html,
}

impl View for Page {
    type V = Seq<char>;

    closed spec fn view(&self) -> Seq<char> {
        self.source@
    }
}

impl Page {
    #[verifier::type_invariant]
    closed spec fn parsed_from_source(&self) -> bool {
        self.dom == parsed_html(self.source@)
    }

    /// Parses a whole HTML document.
    pub fn parse(source: &str) -> (r: Page)
        ensures
            r@ == source@,
    {
        let dom = parse_document(source);
        Page { source: source.to_owned(), dom }
    }

    /// Calls `scraper::Selector::parse`, then `Html::select` or `ElementRef::select`; the
    /// elements are named by their index among the tree's nodes.
    #[verifier::external_body]
    pub(crate) fn select(&self, scope: Option<usize>, selector: &str) -> (r: Option<Vec<usize>>)
        ensures
            match r {
                Some(v) => html_select(self@, scope, selector@) == Some(v@),
                None => html_select(self@, scope, selector@) is None,
            },
    {
        let selector = Selector::parse(selector).ok()?;
        let found: Vec<ElementRef> = match scope {
            None => self.dom.select(&selector).collect(),
            Some(i) => ElementRef::wrap(self.dom.tree.nodes().nth(i)?)?.select(&selector).collect(),
        };
        Some(found.iter().map(|e| self.dom.tree.nodes().position(|n| n.id() == e.id()).unwrap()).collect())
    }

    /// Calls `scraper::node::Element::attr` on the element with that index.
    #[verifier::external_body]
    pub(crate) fn attr(&self, element: usize, name: &str) -> (r: Option<String>)
        ensures
            match r {
                Some(v) => html_attr(self@, element, name@) == Some(v@),
                None => html_attr(self@, element, name@) is None,
            },
    {
        let e = ElementRef::wrap(self.dom.tree.nodes().nth(element)?)?;
        Some(e.value().attr(name)?.to_owned())
    }

    /// Calls `scraper::ElementRef::inner_html` on the element with that index.
    #[verifier::external_body]
    pub(crate) fn inner_html(&self, element: usize) -> (r: Option<String>)
        ensures
            match r {
                Some(v) => html_inner(self@, element) == Some(v@),
                None => html_inner(self@, element) is None,
            },
    {
        Some(ElementRef::wrap(self.dom.tree.nodes().nth(element)?)?.inner_html())
    }

    /// Calls `scraper::ElementRef::text` on the element with that index.
    #[verifier::external_body]
    pub(crate) fn texts(&self, element: usize) -> (r: Option<Vec<String>>)
        ensures
            match r {
                Some(v) => html_texts(self@, element) == Some(v.deep_view()),
                None => html_texts(self@, element) is None,
            },
    {
        let e = ElementRef::wrap(self.dom.tree.nodes().nth(element)?)?;
        Some(e.text().map(|t| t.to_owned()).collect())
    }

    /// Calls `ego_tree::NodeRef::children` on the element with that index, through
    /// `scraper::ElementRef`; each child that is an element is named by its index.
    #[verifier::external_body]
    pub(crate) fn children(&self, element: usize) -> (r: Option<Vec<Option<usize>>>)
        ensures
            match r {
                Some(v) => html_children(self@, element) == Some(v@),
                None => html_children(self@, element) is None,
            },
    {
        let e = ElementRef::wrap(self.dom.tree.nodes().nth(element)?)?;
        let nodes = || self.dom.tree.nodes();
        Some(e.children().map(|c| ElementRef::wrap(c).map(|_| nodes().position(|n| n.id() == c.id()).unwrap())).collect())
    }
}

} // verus!
