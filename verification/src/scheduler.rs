//! Walking the listing pages of a site, from a first page to a last one.
use crate::dataitem::DataItem;
use crate::ptsite::Site;
use crate::table::{process_table, table_items, ScrapeError};
use crate::dataitem::updated_at;
use vstd::prelude::*;

verus! {

/// Where a walk over the listing pages stands.
pub struct SchedulerView {
    pub site: Site,
    /// The next page to read.
    pub page: u32,
    /// The last page to read.
    pub max_page: u32,
}

/// Walks the listing pages `page..=max_page` of a site; `gen_page` gives the address of a page.
/// The caller fetches each page and hands its HTML to `do_next_page`.
pub struct Scheduler<F: Fn(u32) -> String> {
    site: Site,
    page: u32,
    max_page: u32,
    gen_page: F,
}

impl<F: Fn(u32) -> String> View for Scheduler<F> {
    type V = SchedulerView;

    closed spec fn view(&self) -> SchedulerView {
        SchedulerView { site: self.site, page: self.page, max_page: self.max_page }
    }
}

/// The walk is over once the next page is past the last one.
pub open spec fn walk_finished(s: SchedulerView) -> bool {
    s.page > s.max_page
}

/// The walk after one more page has been read.
pub open spec fn walk_step(s: SchedulerView) -> SchedulerView {
    SchedulerView { page: (s.page + 1) as u32, ..s }
}

/// The walk after `k` more pages have been read.
pub open spec fn walk_after(s: SchedulerView, k: nat) -> SchedulerView
    decreases k,
{
    if k == 0 {
        s
    } else {
        walk_step(walk_after(s, (k - 1) as nat))
    }
}

impl<F: Fn(u32) -> String> Scheduler<F> {
    /// The function that gives the address of a page.
    pub closed spec fn page_address(&self) -> F {
        self.gen_page
    }

    /// A walk over the pages `page..=max_page` of `site`.
    pub fn new(site: Site, page: u32, max_page: u32, gen_page: F) -> (r: Self)
        ensures
            r@ == (SchedulerView { site, page, max_page }),
            r.page_address() == gen_page,
    {
        Scheduler { site, page, max_page, gen_page }
    }

    /// The address of the next page.
    pub fn next_page_url(&self) -> (r: String)
        requires
            call_requires(self.page_address(), (self@.page,)),
        ensures
            call_ensures(self.page_address(), (self@.page,), r),
    {
        (self.gen_page)(self.page)
    }

    /// Reads the torrents of the next page from its HTML and moves on to the page after it.
    /// Where the listing cannot be read, the walk stays where it was.
    pub fn do_next_page(&mut self, html: &str) -> (r: Result<Vec<DataItem>, ScrapeError>)
        requires
            old(self)@.page < u32::MAX,
        ensures
            final(self).page_address() == old(self).page_address(),
            match r {
                Ok(items) => final(self)@ == walk_step(old(self)@) && match table_items(html@, old(self)@.site) {
                    Ok(views) => items.len() == views.len() && forall|i: int|
                        0 <= i < views.len() ==> updated_at(#[trigger] items@[i]@, 0) == views[i],
                    Err(_) => false,
                },
                Err(e) => final(self)@ == old(self)@ && table_items(html@, old(self)@.site)
                    == Err::<Seq<crate::dataitem::DataItemView>, ScrapeError>(e),
            },
    {
        let items = match process_table(html, &self.site) {
            Err(e) => return Err(e),
            Ok(items) => items,
        };
        self.page = self.page + 1;
        Ok(items)
    }

    /// Whether every page has been read.
    pub fn is_finished(&self) -> (r: bool)
        ensures
            r == walk_finished(self@),
    {
        self.page > self.max_page
    }

    /// The next page and the last page.
    pub fn progress(&self) -> (r: (u32, u32))
        ensures
            r == (self@.page, self@.max_page),
    {
        (self.page, self.max_page)
    }
}

/// A walk from page `start` to page `max` reads the pages `start, start + 1, ..., max`, one
/// after the other, and is over exactly after the last of them.
pub proof fn lemma_walk_reads_each_page_once(site: Site, start: u32, max: u32, k: nat)
    requires
        start + k <= u32::MAX,
    ensures
        walk_after(SchedulerView { site, page: start, max_page: max }, k).page == start + k,
        walk_after(SchedulerView { site, page: start, max_page: max }, k).max_page == max,
        walk_finished(walk_after(SchedulerView { site, page: start, max_page: max }, k)) <==> start + k > max,
    decreases k,
{
    if k > 0 {
        lemma_walk_reads_each_page_once(site, start, max, (k - 1) as nat);
    }
}

} // verus!
