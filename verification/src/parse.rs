//! The pagination of a listing: where its next page is.
use crate::dom::{html_attr, html_select, Page};
use crate::table::{
    attr_of, finds_none, finds_some, first_having, first_having_of, lemma_first_having_finds,
    lemma_first_having_none, required_attr, required_in, required_match, ScrapeError,
};
use vstd::prelude::*;

verus! {

/// The address of the next page: the `href` of the first link of the `p.nexus-pagination`
/// block that holds a `b` whose title ends with `Pagedown`; `None` where no link does.
pub open spec fn next_href(src: Seq<char>) -> Result<Option<Seq<char>>, ScrapeError> {
    match required_match(html_select(src, None, "p.nexus-pagination"@)) {
        Err(e) => Err(e),
        Ok(p) => match html_select(src, Some(p), "a"@) {
            None => Err(ScrapeError::BadQuery),
            Some(links) => match first_having(src, links, "b[title$=Pagedown]"@, 0) {
                Err(e) => Err(e),
                Ok(None) => Ok(None),
                Ok(Some(a)) => match required_attr(src, a, "href"@) {
                    Err(e) => Err(e),
                    Ok(h) => Ok(Some(h)),
                },
            },
        },
    }
}

/// The query string of the next page of a listing, such as `?inclbookmarked=0&incldead=1`.
pub fn parse_next_href(html: &str) -> (r: Result<Option<String>, ScrapeError>)
    ensures
        match r {
            Ok(Some(h)) => next_href(html@) == Ok::<Option<Seq<char>>, ScrapeError>(Some(h@)),
            Ok(None) => next_href(html@) == Ok::<Option<Seq<char>>, ScrapeError>(None),
            Err(e) => next_href(html@) == Err::<Option<Seq<char>>, ScrapeError>(e),
        },
{
    let page = Page::parse(html);
    let pages = match required_in(&page, None, "p.nexus-pagination") {
        Err(e) => return Err(e),
        Ok(p) => p,
    };
    let links = match page.select(Some(pages), "a") {
        None => return Err(ScrapeError::BadQuery),
        Some(v) => v,
    };
    match first_having_of(&page, &links, "b[title$=Pagedown]") {
        Err(e) => Err(e),
        Ok(None) => Ok(None),
        Ok(Some(a)) => match attr_of(&page, a, "href") {
            Err(e) => Err(e),
            Ok(h) => Ok(Some(h)),
        },
    }
}

/// On a page whose first `p.nexus-pagination` block has the links `links`, the next page is the
/// `href` of the first of these links, from the very first on, that holds a `b` whose title
/// ends with `Pagedown`, wherever it stands among them.
pub proof fn lemma_next_is_first_pagedown_link(src: Seq<char>, block: usize, links: Seq<usize>, k: int)
    requires
        html_select(src, None, "p.nexus-pagination"@) matches Some(ps) && ps.len() > 0 && ps[0] == block,
        html_select(src, Some(block), "a"@) == Some(links),
        0 <= k < links.len(),
        forall|j: int| 0 <= j < k ==> #[trigger] finds_none(src, links[j], "b[title$=Pagedown]"@),
        finds_some(src, links[k], "b[title$=Pagedown]"@),
    ensures
        next_href(src) == match html_attr(src, links[k], "href"@) {
            Some(h) => Ok::<Option<Seq<char>>, ScrapeError>(Some(h)),
            None => Err(ScrapeError::MissingAttribute),
        },
{
    lemma_first_having_finds(src, links, "b[title$=Pagedown]"@, 0, k);
}

/// On a page whose first `p.nexus-pagination` block has no link holding a `b` whose title ends
/// with `Pagedown`, there is no next page.
pub proof fn lemma_no_pagedown_link_no_next(src: Seq<char>, block: usize, links: Seq<usize>)
    requires
        html_select(src, None, "p.nexus-pagination"@) matches Some(ps) && ps.len() > 0 && ps[0] == block,
        html_select(src, Some(block), "a"@) == Some(links),
        forall|j: int| 0 <= j < links.len() ==> #[trigger] finds_none(src, links[j], "b[title$=Pagedown]"@),
    ensures
        next_href(src) == Ok::<Option<Seq<char>>, ScrapeError>(None),
{
    lemma_first_having_none(src, links, "b[title$=Pagedown]"@, 0);
}

} // verus!
