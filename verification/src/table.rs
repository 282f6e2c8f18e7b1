//! Reading the `table.torrents` listing of a NexusPHP tracker into torrents.
use crate::clock::{chrono_timestamp, parse_timestamp};
use crate::dataitem::{updated_at, DataItem, DataItemView};
use crate::dom::{html_attr, html_children, html_inner, html_select, html_texts, Page};
use crate::ptsite::{site_home, time_zone_text, Discount, Site};
use crate::size::{parse_size, size_from_text, size_in_unit, SizeGb};
use crate::text::{parse_u32, parse_unsigned, remove_all, remove_char, str_eq};
use vstd::prelude::*;
use vstd::string::StringExecFns;

verus! {

/// Why a listing could not be read.
#[derive(Debug, Copy, Clone, PartialEq, Eq, Structural)]
pub enum ScrapeError {
    /// The page refused a query: its selector, or the element it starts from.
    BadQuery,
    /// An element that the listing must have is not there.
    MissingElement,
    /// An element lacks an attribute that the listing must give it.
    MissingAttribute,
    /// A cell lacks the text that the listing must give it.
    MissingText,
    /// A count is not a number that fits in a `u32`.
    BadNumber,
    /// A size is not a decimal number.
    BadSize,
    /// A size is given in a unit other than KB, MB, GB and TB.
    UnknownUnit,
    /// A time cannot be read with the listing's time format.
    BadTime,
}

/// The result with `f` applied to what succeeded.
pub open spec fn map_ok<T, U>(r: Result<T, ScrapeError>, f: spec_fn(T) -> U) -> Result<U, ScrapeError> {
    match r {
        Ok(v) => Ok(f(v)),
        Err(e) => Err(e),
    }
}

/// How the listings write a local time, once its time zone is appended.
pub open spec fn time_format() -> Seq<char> {
    "%Y-%m-%d %H:%M:%S %z"@
}

/// The seconds since the Unix epoch of a local time of the trackers, such as `2023-08-12 15:17:44`.
pub open spec fn local_time(text: Seq<char>) -> Option<i64> {
    chrono_timestamp(text + " "@ + time_zone_text(), time_format())
}

/// The first of the elements a query found, if it found any.
pub open spec fn first_match(q: Option<Seq<usize>>) -> Result<Option<usize>, ScrapeError> {
    match q {
        None => Err(ScrapeError::BadQuery),
        Some(s) => Ok(
            if s.len() > 0 {
                Some(s[0])
            } else {
                None
            },
        ),
    }
}

/// The first of the elements a query found, which must be there.
pub open spec fn required_match(q: Option<Seq<usize>>) -> Result<usize, ScrapeError> {
    match first_match(q) {
        Err(e) => Err(e),
        Ok(None) => Err(ScrapeError::MissingElement),
        Ok(Some(x)) => Ok(x),
    }
}

/// An attribute that must be there.
pub open spec fn required_attr(src: Seq<char>, element: usize, name: Seq<char>) -> Result<Seq<char>, ScrapeError> {
    match html_attr(src, element, name) {
        None => Err(ScrapeError::MissingAttribute),
        Some(v) => Ok(v),
    }
}

/// The name of a column: the title of its icon, else the HTML inside its link, else the HTML
/// inside the cell.
pub open spec fn header_name(src: Seq<char>, td: usize) -> Result<Seq<char>, ScrapeError> {
    match html_select(src, Some(td), "img"@) {
        None => Err(ScrapeError::BadQuery),
        Some(imgs) => match html_select(src, Some(td), "a"@) {
            None => Err(ScrapeError::BadQuery),
            Some(links) => if imgs.len() > 0 {
                required_attr(src, imgs[0], "title"@)
            } else if links.len() > 0 {
                match html_inner(src, links[0]) {
                    None => Err(ScrapeError::BadQuery),
                    Some(h) => Ok(h),
                }
            } else {
                match html_inner(src, td) {
                    None => Err(ScrapeError::BadQuery),
                    Some(h) => Ok(h),
                }
            },
        },
    }
}

/// The names of the first `n` columns.
pub open spec fn header_fold(src: Seq<char>, tds: Seq<usize>, n: nat) -> Result<Seq<Seq<char>>, ScrapeError>
    decreases n,
{
    if n == 0 {
        Ok(Seq::<Seq<char>>::empty())
    } else {
        match header_fold(src, tds, (n - 1) as nat) {
            Err(e) => Err(e),
            Ok(names) => match header_name(src, tds[n - 1]) {
                Err(e) => Err(e),
                Ok(h) => Ok(names.push(h)),
            },
        }
    }
}

/// The names of the columns of a header row.
pub open spec fn headers_of(src: Seq<char>, tr: usize) -> Result<Seq<Seq<char>>, ScrapeError> {
    match html_select(src, Some(tr), "td"@) {
        None => Err(ScrapeError::BadQuery),
        Some(tds) => header_fold(src, tds, tds.len()),
    }
}

/// A torrent before any cell has been read.
pub open spec fn blank_item() -> DataItemView {
    DataItemView {
        title: Seq::<char>::empty(),
        desc: Seq::<char>::empty(),
        finished: 0,
        download: 0,
        upload: 0,
        size: SizeGb { mantissa: 0, exponent: 0 },
        publish_time: 0,
        last_update: 0,
        src_link: Seq::<char>::empty(),
        discount: None,
        discount_due: None,
    }
}

/// The category cell: the title of its icon, which must be there.
pub open spec fn category_cell(src: Seq<char>, td: usize) -> Result<Seq<char>, ScrapeError> {
    match required_match(html_select(src, Some(td), "img"@)) {
        Err(e) => Err(e),
        Ok(img) => required_attr(src, img, "title"@),
    }
}

/// A count cell: its first text, without thousands separators, read as a `u32`.
pub open spec fn count_cell(src: Seq<char>, td: usize) -> Result<u32, ScrapeError> {
    match html_texts(src, td) {
        None => Err(ScrapeError::BadQuery),
        Some(ts) => if ts.len() == 0 {
            Err(ScrapeError::MissingText)
        } else {
            match parse_unsigned(remove_char(ts[0], ','), u32::MAX as int) {
                None => Err(ScrapeError::BadNumber),
                Some(v) => Ok(v as u32),
            }
        },
    }
}

/// A size cell: a number as its first text and a unit as its second, in gigabytes.
pub open spec fn size_cell(src: Seq<char>, td: usize) -> Result<SizeGb, ScrapeError> {
    match html_texts(src, td) {
        None => Err(ScrapeError::BadQuery),
        Some(ts) => if ts.len() == 0 {
            Err(ScrapeError::MissingText)
        } else {
            match size_from_text(ts[0]) {
                None => Err(ScrapeError::BadSize),
                Some(z) => if ts.len() < 2 {
                    Err(ScrapeError::MissingText)
                } else {
                    match size_in_unit(z, ts[1]) {
                        None => Err(ScrapeError::UnknownUnit),
                        Some(g) => Ok(g),
                    }
                },
            }
        },
    }
}

/// A local time written in the title of the first element of a query's answer.
pub open spec fn titled_time(src: Seq<char>, span: usize) -> Result<i64, ScrapeError> {
    match required_attr(src, span, "title"@) {
        Err(e) => Err(e),
        Ok(t) => match local_time(t) {
            None => Err(ScrapeError::BadTime),
            Some(ts) => Ok(ts),
        },
    }
}

/// The age cell: the time of publication in the title of its first `span`.
pub open spec fn time_cell(src: Seq<char>, td: usize) -> Result<i64, ScrapeError> {
    match required_match(html_select(src, Some(td), "span"@)) {
        Err(e) => Err(e),
        Ok(span) => titled_time(src, span),
    }
}

/// The first of the elements, from the `i`th on, that has an element matching `selector` below it.
pub open spec fn first_having(src: Seq<char>, es: Seq<usize>, selector: Seq<char>, i: nat) -> Result<Option<usize>, ScrapeError>
    decreases es.len() - i,
{
    if i >= es.len() {
        Ok(None)
    } else {
        match html_select(src, Some(es[i as int]), selector) {
            None => Err(ScrapeError::BadQuery),
            Some(found) => if found.len() > 0 {
                Ok(Some(es[i as int]))
            } else {
                first_having(src, es, selector, i + 1)
            },
        }
    }
}

pub open spec fn with_title(
    st: DataItemView,
    title: Seq<char>,
    desc: Seq<char>,
    link: Seq<char>,
    discount: Option<Discount>,
) -> DataItemView {
    DataItemView { title, desc, src_link: link, discount, ..st }
}

pub open spec fn with_due(st: DataItemView, due: i64) -> DataItemView {
    DataItemView { discount_due: Some(due), ..st }
}

/// The promotion of a torrent: `Free` for a free icon, else `DoubleFree` for a double-free
/// icon, else the promotion read so far.
pub open spec fn promotion(free: Seq<usize>, double_free: Seq<usize>, before: Option<Discount>) -> Option<Discount> {
    if free.len() > 0 {
        Some(Discount::Free)
    } else if double_free.len() > 0 {
        Some(Discount::DoubleFree)
    } else {
        before
    }
}

/// After the title cell: under a promotion, its end from the title of the first `font span`.
pub open spec fn title_due(src: Seq<char>, e: usize, base: DataItemView) -> Result<DataItemView, ScrapeError> {
    if base.discount is None {
        Ok(base)
    } else {
        match first_match(html_select(src, Some(e), "font span"@)) {
            Err(x) => Err(x),
            Ok(None) => Ok(base),
            Ok(Some(span)) => match titled_time(src, span) {
                Err(x) => Err(x),
                Ok(ts) => Ok(with_due(base, ts)),
            },
        }
    }
}

/// The title cell, read from its first embedded cell that holds a link: the description is
/// that cell's last text, the title and the address are the link's, and the promotion comes
/// from its icons.
pub open spec fn title_cell(src: Seq<char>, home: Seq<char>, td: usize, st: DataItemView) -> Result<DataItemView, ScrapeError> {
    match html_select(src, Some(td), "td.embedded"@) {
        None => Err(ScrapeError::BadQuery),
        Some(es) => match first_having(src, es, "a"@, 0) {
            Err(x) => Err(x),
            Ok(None) => Err(ScrapeError::MissingElement),
            Ok(Some(e)) => match html_texts(src, e) {
                None => Err(ScrapeError::BadQuery),
                Some(ts) => if ts.len() == 0 {
                    Err(ScrapeError::MissingText)
                } else {
                    match required_match(html_select(src, Some(e), "a"@)) {
                        Err(x) => Err(x),
                        Ok(a) => match required_attr(src, a, "title"@) {
                            Err(x) => Err(x),
                            Ok(title) => match required_attr(src, a, "href"@) {
                                Err(x) => Err(x),
                                Ok(href) => match html_select(src, Some(e), "img.pro_free"@) {
                                    None => Err(ScrapeError::BadQuery),
                                    Some(free) => match html_select(src, Some(e), "img.pro_free2up"@) {
                                        None => Err(ScrapeError::BadQuery),
                                        Some(dfree) => title_due(
                                            src,
                                            e,
                                            with_title(
                                                st,
                                                title,
                                                ts.last(),
                                                home + href,
                                                promotion(free, dfree, st.discount),
                                            ),
                                        ),
                                    },
                                },
                            },
                        },
                    }
                },
            },
        },
    }
}

/// One cell of a row read into the torrent, by the name of its column; cells of other
/// columns leave it as it is.
pub open spec fn apply_cell(src: Seq<char>, home: Seq<char>, td: usize, h: Seq<char>, st: DataItemView) -> Result<DataItemView, ScrapeError> {
    if h == "类型"@ {
        match category_cell(src, td) {
            Err(e) => Err(e),
            Ok(_) => Ok(st),
        }
    } else if h == "标题"@ {
        title_cell(src, home, td, st)
    } else if h == "完成数"@ {
        match count_cell(src, td) {
            Err(e) => Err(e),
            Ok(v) => Ok(DataItemView { finished: v, ..st }),
        }
    } else if h == "种子数"@ {
        match count_cell(src, td) {
            Err(e) => Err(e),
            Ok(v) => Ok(DataItemView { upload: v, ..st }),
        }
    } else if h == "下载数"@ {
        match count_cell(src, td) {
            Err(e) => Err(e),
            Ok(v) => Ok(DataItemView { download: v, ..st }),
        }
    } else if h == "大小"@ {
        match size_cell(src, td) {
            Err(e) => Err(e),
            Ok(v) => Ok(DataItemView { size: v, ..st }),
        }
    } else if h == "存活时间"@ {
        match time_cell(src, td) {
            Err(e) => Err(e),
            Ok(v) => Ok(DataItemView { publish_time: v, ..st }),
        }
    } else {
        Ok(st)
    }
}

/// The first `n` cells of a row read, each with the column of the same position.
pub open spec fn row_fold(src: Seq<char>, home: Seq<char>, cells: Seq<usize>, headers: Seq<Seq<char>>, n: nat) -> Result<DataItemView, ScrapeError>
    decreases n,
{
    if n == 0 {
        Ok(blank_item())
    } else {
        match row_fold(src, home, cells, headers, (n - 1) as nat) {
            Err(e) => Err(e),
            Ok(st) => apply_cell(src, home, cells[n - 1], headers[n - 1], st),
        }
    }
}

/// The torrent of a row: its `td.rowfollow` cells read with the columns, as far as both go.
pub open spec fn row_item(src: Seq<char>, home: Seq<char>, tr: usize, headers: Seq<Seq<char>>) -> Result<DataItemView, ScrapeError> {
    match html_select(src, Some(tr), "td.rowfollow"@) {
        None => Err(ScrapeError::BadQuery),
        Some(cells) => row_fold(
            src,
            home,
            cells,
            headers,
            if cells.len() < headers.len() {
                cells.len()
            } else {
                headers.len()
            },
        ),
    }
}

/// The table body and the header row of the first `table.torrents`, if there is one.
pub open spec fn table_layout(src: Seq<char>) -> Result<Option<(usize, usize)>, ScrapeError> {
    match first_match(html_select(src, None, "table.torrents"@)) {
        Err(e) => Err(e),
        Ok(None) => Ok(None),
        Ok(Some(t)) => match required_match(html_select(src, Some(t), "tbody"@)) {
            Err(e) => Err(e),
            Ok(b) => match required_match(html_select(src, Some(b), "tr"@)) {
                Err(e) => Err(e),
                Ok(tr) => Ok(Some((b, tr))),
            },
        },
    }
}

/// The torrents of the element children among the first `n` children of the table body,
/// leaving out its first child.
pub open spec fn rows_fold(src: Seq<char>, home: Seq<char>, kids: Seq<Option<usize>>, headers: Seq<Seq<char>>, n: nat) -> Result<Seq<DataItemView>, ScrapeError>
    decreases n,
{
    if n <= 1 {
        Ok(Seq::<DataItemView>::empty())
    } else {
        match rows_fold(src, home, kids, headers, (n - 1) as nat) {
            Err(e) => Err(e),
            Ok(items) => match kids[n - 1] {
                None => Ok(items),
                Some(tr) => match row_item(src, home, tr, headers) {
                    Err(e) => Err(e),
                    Ok(it) => Ok(items.push(it)),
                },
            },
        }
    }
}

/// The torrents of a listing page: none without a `table.torrents`; else one for each row of
/// its body after the first child, read with the columns of its first row.
pub open spec fn table_items(src: Seq<char>, site: Site) -> Result<Seq<DataItemView>, ScrapeError> {
    match table_layout(src) {
        Err(e) => Err(e),
        Ok(None) => Ok(Seq::<DataItemView>::empty()),
        Ok(Some((b, tr))) => match headers_of(src, tr) {
            Err(e) => Err(e),
            Ok(hs) => match html_children(src, b) {
                None => Err(ScrapeError::BadQuery),
                Some(kids) => rows_fold(src, site_home(site), kids, hs, kids.len()),
            },
        },
    }
}

/// The first element below `scope` (or in the whole page) that `selector` matches, if any.
pub fn first_in(page: &Page, scope: Option<usize>, selector: &str) -> (r: Result<Option<usize>, ScrapeError>)
    ensures
        r == first_match(html_select(page@, scope, selector@)),
{
    match page.select(scope, selector) {
        None => Err(ScrapeError::BadQuery),
        Some(v) => {
            if v.len() > 0 {
                Ok(Some(v[0]))
            } else {
                Ok(None)
            }
        },
    }
}

/// The first element below `scope` (or in the whole page) that `selector` matches, which must be
/// there.
pub fn required_in(page: &Page, scope: Option<usize>, selector: &str) -> (r: Result<usize, ScrapeError>)
    ensures
        r == required_match(html_select(page@, scope, selector@)),
{
    match first_in(page, scope, selector) {
        Err(e) => Err(e),
        Ok(None) => Err(ScrapeError::MissingElement),
        Ok(Some(x)) => Ok(x),
    }
}

/// The value of attribute `name` of an element, which must be there.
pub fn attr_of(page: &Page, element: usize, name: &str) -> (r: Result<String, ScrapeError>)
    ensures
        map_ok(r, |s: String| s@) == required_attr(page@, element, name@),
{
    match page.attr(element, name) {
        None => Err(ScrapeError::MissingAttribute),
        Some(v) => Ok(v),
    }
}

/// The name of a column of the header row.
fn header_of(page: &Page, td: usize) -> (r: Result<String, ScrapeError>)
    ensures
        map_ok(r, |s: String| s@) == header_name(page@, td),
{
    let imgs = match page.select(Some(td), "img") {
        None => return Err(ScrapeError::BadQuery),
        Some(v) => v,
    };
    let links = match page.select(Some(td), "a") {
        None => return Err(ScrapeError::BadQuery),
        Some(v) => v,
    };
    if imgs.len() > 0 {
        attr_of(page, imgs[0], "title")
    } else if links.len() > 0 {
        match page.inner_html(links[0]) {
            None => Err(ScrapeError::BadQuery),
            Some(h) => Ok(h),
        }
    } else {
        match page.inner_html(td) {
            None => Err(ScrapeError::BadQuery),
            Some(h) => Ok(h),
        }
    }
}

proof fn lemma_header_fold_err(src: Seq<char>, tds: Seq<usize>, i: nat, n: nat, e: ScrapeError)
    requires
        i <= n,
        header_fold(src, tds, i) == Err::<Seq<Seq<char>>, ScrapeError>(e),
    ensures
        header_fold(src, tds, n) == Err::<Seq<Seq<char>>, ScrapeError>(e),
    decreases n - i,
{
    if i < n {
        lemma_header_fold_err(src, tds, i, (n - 1) as nat, e);
    }
}

/// The names of the columns of a header row.
pub fn process_headers(page: &Page, tr_head: usize) -> (r: Result<Vec<String>, ScrapeError>)
    ensures
        map_ok(r, |v: Vec<String>| v.deep_view()) == headers_of(page@, tr_head),
{
    let tds = match page.select(Some(tr_head), "td") {
        None => return Err(ScrapeError::BadQuery),
        Some(v) => v,
    };
    let mut res: Vec<String> = Vec::new();
    assert(res.deep_view() =~= Seq::<Seq<char>>::empty());
    let mut i: usize = 0;
    while i < tds.len()
        invariant
            i <= tds.len(),
            html_select(page@, Some(tr_head), "td"@) == Some(tds@),
            header_fold(page@, tds@, i as nat) == Ok::<Seq<Seq<char>>, ScrapeError>(res.deep_view()),
        decreases tds.len() - i,
    {
        match header_of(page, tds[i]) {
            Err(e) => {
                proof {
                    lemma_header_fold_err(page@, tds@, (i + 1) as nat, tds.len() as nat, e);
                }
                return Err(e);
            },
            Ok(h) => {
                let ghost before = res.deep_view();
                let ghost hv = h@;
                res.push(h);
                assert(res.deep_view() =~= before.push(hv));
            },
        }
        i = i + 1;
    }
    Ok(res)
}

/// The first text of a count cell, without thousands separators, read as a `u32`.
fn count_of(page: &Page, td: usize) -> (r: Result<u32, ScrapeError>)
    ensures
        r == count_cell(page@, td),
{
    let ts = match page.texts(td) {
        None => return Err(ScrapeError::BadQuery),
        Some(v) => v,
    };
    if ts.len() == 0 {
        return Err(ScrapeError::MissingText);
    }
    assert(ts.deep_view()[0] == ts@[0]@);
    let digits = remove_all(ts[0].as_str(), ',');
    match parse_u32(digits.as_str()) {
        None => Err(ScrapeError::BadNumber),
        Some(v) => Ok(v),
    }
}

/// The number and unit of a size cell, in gigabytes.
fn size_of(page: &Page, td: usize) -> (r: Result<SizeGb, ScrapeError>)
    ensures
        r == size_cell(page@, td),
{
    let ts = match page.texts(td) {
        None => return Err(ScrapeError::BadQuery),
        Some(v) => v,
    };
    if ts.len() == 0 {
        return Err(ScrapeError::MissingText);
    }
    assert(ts.deep_view()[0] == ts@[0]@);
    let z = match parse_size(ts[0].as_str()) {
        None => return Err(ScrapeError::BadSize),
        Some(z) => z,
    };
    if ts.len() < 2 {
        return Err(ScrapeError::MissingText);
    }
    assert(ts.deep_view()[1] == ts@[1]@);
    match z.in_unit(ts[1].as_str()) {
        None => Err(ScrapeError::UnknownUnit),
        Some(g) => Ok(g),
    }
}

/// Reads a local time of the trackers.
pub fn local_timestamp(text: &str) -> (r: Option<i64>)
    ensures
        r == local_time(text@),
{
    let mut t = String::from_str(text);
    t.append(" ");
    t.append("+08:00");
    proof {
        reveal_strlit("+08:00");
    }
    assert(t@ == text@ + " "@ + time_zone_text());
    parse_timestamp(t.as_str(), "%Y-%m-%d %H:%M:%S %z")
}

fn titled_time_of(page: &Page, span: usize) -> (r: Result<i64, ScrapeError>)
    ensures
        r == titled_time(page@, span),
{
    let t = match attr_of(page, span, "title") {
        Err(e) => return Err(e),
        Ok(t) => t,
    };
    match local_timestamp(t.as_str()) {
        None => Err(ScrapeError::BadTime),
        Some(ts) => Ok(ts),
    }
}

fn time_of(page: &Page, td: usize) -> (r: Result<i64, ScrapeError>)
    ensures
        r == time_cell(page@, td),
{
    let span = match required_in(page, Some(td), "span") {
        Err(e) => return Err(e),
        Ok(s) => s,
    };
    titled_time_of(page, span)
}

fn category_of(page: &Page, td: usize) -> (r: Result<String, ScrapeError>)
    ensures
        map_ok(r, |s: String| s@) == category_cell(page@, td),
{
    let img = match required_in(page, Some(td), "img") {
        Err(e) => return Err(e),
        Ok(x) => x,
    };
    attr_of(page, img, "title")
}

/// The first of the elements that has an element matching `selector` below it.
pub fn first_having_of(page: &Page, es: &Vec<usize>, selector: &str) -> (r: Result<Option<usize>, ScrapeError>)
    ensures
        r == first_having(page@, es@, selector@, 0),
{
    let mut i: usize = 0;
    while i < es.len()
        invariant
            i <= es.len(),
            first_having(page@, es@, selector@, 0) == first_having(page@, es@, selector@, i as nat),
        decreases es.len() - i,
    {
        match page.select(Some(es[i]), selector) {
            None => return Err(ScrapeError::BadQuery),
            Some(links) => {
                if links.len() > 0 {
                    return Ok(Some(es[i]));
                }
            },
        }
        i = i + 1;
    }
    Ok(None)
}

/// Reads the title cell into `st`.
fn title_of(page: &Page, home: &str, td: usize, st: DataItem) -> (r: Result<DataItem, ScrapeError>)
    ensures
        map_ok(r, |d: DataItem| d@) == title_cell(page@, home@, td, st@),
{
    let es = match page.select(Some(td), "td.embedded") {
        None => return Err(ScrapeError::BadQuery),
        Some(v) => v,
    };
    let e = match first_having_of(page, &es, "a") {
        Err(x) => return Err(x),
        Ok(None) => return Err(ScrapeError::MissingElement),
        Ok(Some(e)) => e,
    };
    let ts = match page.texts(e) {
        None => return Err(ScrapeError::BadQuery),
        Some(v) => v,
    };
    if ts.len() == 0 {
        return Err(ScrapeError::MissingText);
    }
    let desc = ts[ts.len() - 1].clone();
    assert(desc@ == ts.deep_view().last());
    let a = match required_in(page, Some(e), "a") {
        Err(x) => return Err(x),
        Ok(a) => a,
    };
    let title = match attr_of(page, a, "title") {
        Err(x) => return Err(x),
        Ok(t) => t,
    };
    let href = match attr_of(page, a, "href") {
        Err(x) => return Err(x),
        Ok(h) => h,
    };
    let mut link = String::from_str(home);
    link.append(href.as_str());
    let free = match page.select(Some(e), "img.pro_free") {
        None => return Err(ScrapeError::BadQuery),
        Some(v) => v,
    };
    let double_free = match page.select(Some(e), "img.pro_free2up") {
        None => return Err(ScrapeError::BadQuery),
        Some(v) => v,
    };
    let discount = if free.len() > 0 {
        Some(Discount::Free)
    } else if double_free.len() > 0 {
        Some(Discount::DoubleFree)
    } else {
        st.discount
    };
    let mut item = st;
    item.title = title;
    item.desc = desc;
    item.src_link = link;
    item.discount = discount;
    assert(item@ == with_title(st@, title@, ts.deep_view().last(), home@ + href@, promotion(free@, double_free@, st@.discount)));
    if discount.is_none() {
        return Ok(item);
    }
    match first_in(page, Some(e), "font span") {
        Err(x) => Err(x),
        Ok(None) => Ok(item),
        Ok(Some(span)) => match titled_time_of(page, span) {
            Err(x) => Err(x),
            Ok(ts) => {
                let ghost before = item@;
                item.discount_due = Some(ts);
                assert(item@ == with_due(before, ts));
                Ok(item)
            },
        },
    }
}

/// Reads one cell of a row into `st`, by the name of its column.
fn apply_cell_of(page: &Page, home: &str, td: usize, h: &str, st: DataItem) -> (r: Result<DataItem, ScrapeError>)
    ensures
        map_ok(r, |d: DataItem| d@) == apply_cell(page@, home@, td, h@, st@),
{
    let mut st = st;
    if str_eq(h, "类型") {
        match category_of(page, td) {
            Err(e) => Err(e),
            Ok(_) => Ok(st),
        }
    } else if str_eq(h, "标题") {
        title_of(page, home, td, st)
    } else if str_eq(h, "完成数") {
        match count_of(page, td) {
            Err(e) => Err(e),
            Ok(v) => {
                st.finished = v;
                Ok(st)
            },
        }
    } else if str_eq(h, "种子数") {
        match count_of(page, td) {
            Err(e) => Err(e),
            Ok(v) => {
                st.upload = v;
                Ok(st)
            },
        }
    } else if str_eq(h, "下载数") {
        match count_of(page, td) {
            Err(e) => Err(e),
            Ok(v) => {
                st.download = v;
                Ok(st)
            },
        }
    } else if str_eq(h, "大小") {
        match size_of(page, td) {
            Err(e) => Err(e),
            Ok(v) => {
                st.size = v;
                Ok(st)
            },
        }
    } else if str_eq(h, "存活时间") {
        match time_of(page, td) {
            Err(e) => Err(e),
            Ok(v) => {
                st.publish_time = v;
                Ok(st)
            },
        }
    } else {
        Ok(st)
    }
}

proof fn lemma_row_fold_err(
    src: Seq<char>,
    home: Seq<char>,
    cells: Seq<usize>,
    headers: Seq<Seq<char>>,
    i: nat,
    n: nat,
    e: ScrapeError,
)
    requires
        i <= n,
        row_fold(src, home, cells, headers, i) == Err::<DataItemView, ScrapeError>(e),
    ensures
        row_fold(src, home, cells, headers, n) == Err::<DataItemView, ScrapeError>(e),
    decreases n - i,
{
    if i < n {
        lemma_row_fold_err(src, home, cells, headers, i, (n - 1) as nat, e);
    }
}

fn blank() -> (r: DataItem)
    ensures
        r@ == blank_item(),
{
    DataItem {
        title: String::new(),
        desc: String::new(),
        finished: 0,
        download: 0,
        upload: 0,
        size: SizeGb { mantissa: 0, exponent: 0 },
        publish_time: 0,
        last_update: 0,
        src_link: String::new(),
        discount: None,
        discount_due: None,
    }
}

/// The torrent of a row of the listing, read with the names of the columns; it is stamped with
/// the current time as its time of update. A row that cannot be read (a count that is not a
/// `u32`, a size in a unit other than KB, MB, GB and TB, a missing element, attribute or text,
/// a time in another format) gives an error; the program that reads the listings stops there.
pub fn process_row_data(site: &Site, page: &Page, tr: usize, headers: &Vec<String>) -> (r: Result<DataItem, ScrapeError>)
    ensures
        map_ok(r, |d: DataItem| updated_at(d@, 0)) == row_item(page@, site_home(*site), tr, headers.deep_view()),
{
    let url_site = site.url_site();
    let cells = match page.select(Some(tr), "td.rowfollow") {
        None => return Err(ScrapeError::BadQuery),
        Some(v) => v,
    };
    let n = if cells.len() < headers.len() { cells.len() } else { headers.len() };
    let ghost hs = headers.deep_view();
    let ghost home = url_site@;
    let mut acc = blank();
    let mut i: usize = 0;
    while i < n
        invariant
            i <= n,
            n <= cells.len(),
            n <= headers.len(),
            hs == headers.deep_view(),
            home == site_home(*site),
            url_site@ == home,
            row_fold(page@, home, cells@, hs, i as nat) == Ok::<DataItemView, ScrapeError>(acc@),
            acc.last_update == 0,
            n == (if cells.len() < headers.len() { cells.len() } else { headers.len() }),
            html_select(page@, Some(tr), "td.rowfollow"@) == Some(cells@),
        decreases n - i,
    {
        assert(hs[i as int] == headers@[i as int]@);
        let ghost before = acc@;
        assert(row_fold(page@, home, cells@, hs, (i + 1) as nat) == apply_cell(page@, home, cells@[i as int], hs[i as int], before));
        match apply_cell_of(page, url_site.as_str(), cells[i], headers[i].as_str(), acc) {
            Err(e) => {
                proof {
                    assert(row_fold(page@, home, cells@, hs, (i + 1) as nat) == Err::<DataItemView, ScrapeError>(e));
                    lemma_row_fold_err(page@, home, cells@, hs, (i + 1) as nat, n as nat, e);
                    assert(row_item(page@, home, tr, hs) == Err::<DataItemView, ScrapeError>(e));
                }
                return Err(e);
            },
            Ok(next) => {
                acc = next;
            },
        }
        i = i + 1;
    }
    let item = DataItem::new(
        acc.title.as_str(),
        acc.desc.as_str(),
        acc.finished,
        acc.download,
        acc.upload,
        acc.size,
        acc.publish_time,
        acc.src_link.as_str(),
        acc.discount,
        acc.discount_due,
    );
    assert(updated_at(item@, 0) == acc@);
    Ok(item)
}

proof fn lemma_rows_fold_err(
    src: Seq<char>,
    home: Seq<char>,
    kids: Seq<Option<usize>>,
    headers: Seq<Seq<char>>,
    i: nat,
    n: nat,
    e: ScrapeError,
)
    requires
        1 <= i <= n,
        rows_fold(src, home, kids, headers, i) == Err::<Seq<DataItemView>, ScrapeError>(e),
    ensures
        rows_fold(src, home, kids, headers, n) == Err::<Seq<DataItemView>, ScrapeError>(e),
    decreases n - i,
{
    if i < n {
        lemma_rows_fold_err(src, home, kids, headers, i, (n - 1) as nat, e);
    }
}

/// The torrents of a listing page of `site`. A page without a `table.torrents` has none. A
/// listing that cannot be read gives the error of its first unreadable part, in place of a
/// panic; the program that reads the listings stops there.
pub fn process_table(html: &str, site: &Site) -> (r: Result<Vec<DataItem>, ScrapeError>)
    ensures
        match (r, table_items(html@, *site)) {
            (Ok(items), Ok(views)) => items.len() == views.len() && forall|i: int|
                0 <= i < views.len() ==> updated_at(#[trigger] items@[i]@, 0) == views[i],
            (Err(e), Err(f)) => e == f,
            _ => false,
        },
{
    let page = Page::parse(html);
    let table = match first_in(&page, None, "table.torrents") {
        Err(e) => return Err(e),
        Ok(None) => return Ok(Vec::new()),
        Ok(Some(t)) => t,
    };
    let body = match required_in(&page, Some(table), "tbody") {
        Err(e) => return Err(e),
        Ok(b) => b,
    };
    let tr_head = match required_in(&page, Some(body), "tr") {
        Err(e) => return Err(e),
        Ok(t) => t,
    };
    let headers = match process_headers(&page, tr_head) {
        Err(e) => return Err(e),
        Ok(h) => h,
    };
    let kids = match page.children(body) {
        None => return Err(ScrapeError::BadQuery),
        Some(k) => k,
    };
    let ghost home = site_home(*site);
    let ghost hs = headers.deep_view();
    let mut items: Vec<DataItem> = Vec::new();
    if kids.len() <= 1 {
        return Ok(items);
    }
    let mut i: usize = 1;
    while i < kids.len()
        invariant
            1 <= i <= kids.len(),
            page@ == html@,
            table_items(html@, *site) == rows_fold(html@, home, kids@, hs, kids.len() as nat),
            hs == headers.deep_view(),
            home == site_home(*site),
            ({
                let f = rows_fold(html@, home, kids@, hs, i as nat);
                &&& f is Ok
                &&& items.len() == f->Ok_0.len()
                &&& forall|j: int| 0 <= j < items.len() ==> updated_at(#[trigger] items@[j]@, 0) == f->Ok_0[j]
            }),
        decreases kids.len() - i,
    {
        match kids[i] {
            None => {},
            Some(tr) => {
                match process_row_data(site, &page, tr, &headers) {
                    Err(e) => {
                        proof {
                            lemma_rows_fold_err(html@, home, kids@, hs, (i + 1) as nat, kids.len() as nat, e);
                        }
                        return Err(e);
                    },
                    Ok(item) => {
                        items.push(item);
                    },
                }
            },
        }
        i = i + 1;
    }
    Ok(items)
}

/// A torrent has an end of promotion only when it has a promotion.
pub open spec fn due_under_promotion(v: DataItemView) -> bool {
    v.discount_due is Some ==> v.discount is Some
}

proof fn lemma_cell_keeps_due(src: Seq<char>, home: Seq<char>, td: usize, h: Seq<char>, st: DataItemView)
    requires
        due_under_promotion(st),
    ensures
        apply_cell(src, home, td, h, st) matches Ok(v) ==> due_under_promotion(v),
{
    if h == "标题"@ {
        match html_select(src, Some(td), "td.embedded"@) {
            None => {},
            Some(es) => match first_having(src, es, "a"@, 0) {
                Ok(Some(e)) => {
                    match (html_select(src, Some(e), "img.pro_free"@), html_select(src, Some(e), "img.pro_free2up"@)) {
                        (Some(free), Some(dfree)) => {
                            let d = promotion(free, dfree, st.discount);
                            assert(st.discount is Some ==> d is Some);
                        },
                        _ => {},
                    }
                },
                _ => {},
            },
        }
    }
}

proof fn lemma_row_keeps_due(src: Seq<char>, home: Seq<char>, cells: Seq<usize>, headers: Seq<Seq<char>>, n: nat)
    ensures
        row_fold(src, home, cells, headers, n) matches Ok(v) ==> due_under_promotion(v),
    decreases n,
{
    if n > 0 {
        lemma_row_keeps_due(src, home, cells, headers, (n - 1) as nat);
        match row_fold(src, home, cells, headers, (n - 1) as nat) {
            Err(_) => {},
            Ok(st) => {
                lemma_cell_keeps_due(src, home, cells[n - 1], headers[n - 1], st);
            },
        }
    }
}

proof fn lemma_rows_keep_due(src: Seq<char>, home: Seq<char>, kids: Seq<Option<usize>>, headers: Seq<Seq<char>>, n: nat)
    ensures
        rows_fold(src, home, kids, headers, n) matches Ok(items) ==> forall|i: int|
            0 <= i < items.len() ==> due_under_promotion(#[trigger] items[i]),
    decreases n,
{
    if n > 1 {
        lemma_rows_keep_due(src, home, kids, headers, (n - 1) as nat);
        match kids[n - 1] {
            None => {},
            Some(tr) => match html_select(src, Some(tr), "td.rowfollow"@) {
                None => {},
                Some(cells) => {
                    let k = if cells.len() < headers.len() { cells.len() } else { headers.len() };
                    lemma_row_keeps_due(src, home, cells, headers, k);
                },
            },
        }
    }
}

/// Every torrent read from a listing has an end of promotion only when it has a promotion.
pub proof fn lemma_due_only_under_promotion(src: Seq<char>, site: Site)
    ensures
        table_items(src, site) matches Ok(items) ==> forall|i: int|
            0 <= i < items.len() ==> due_under_promotion(#[trigger] items[i]),
{
    match table_layout(src) {
        Ok(Some((b, tr))) => match headers_of(src, tr) {
            Ok(hs) => match html_children(src, b) {
                Some(kids) => lemma_rows_keep_due(src, site_home(site), kids, hs, kids.len()),
                None => {},
            },
            Err(_) => {},
        },
        _ => {},
    }
}

/// Whether a child node of a table body is an element.
pub open spec fn is_element(k: Option<usize>) -> bool {
    k is Some
}

/// The element children among the children `1..n` of a table body, in order: its rows after
/// the first child, with text and comment nodes left out.
pub open spec fn element_rows(kids: Seq<Option<usize>>, n: int) -> Seq<usize> {
    if n <= 1 {
        Seq::empty()
    } else {
        kids.subrange(1, n).filter(|k: Option<usize>| is_element(k)).map_values(|k: Option<usize>| k->0)
    }
}

/// The torrent that each row gives, where it reads.
pub open spec fn rows_read(src: Seq<char>, home: Seq<char>, rows: Seq<usize>, headers: Seq<Seq<char>>) -> Seq<DataItemView> {
    rows.map_values(|t: usize| row_item(src, home, t, headers)->Ok_0)
}

proof fn lemma_rows_fold_reads_element_rows(
    src: Seq<char>,
    home: Seq<char>,
    kids: Seq<Option<usize>>,
    headers: Seq<Seq<char>>,
    n: int,
)
    requires
        1 <= n <= kids.len(),
        forall|j: int| 1 <= j < kids.len() && #[trigger] is_element(kids[j]) ==> row_item(src, home, kids[j]->0, headers) is Ok,
    ensures
        rows_fold(src, home, kids, headers, n as nat) == Ok::<Seq<DataItemView>, ScrapeError>(
            rows_read(src, home, element_rows(kids, n), headers),
        ),
    decreases n,
{
    let pred = |k: Option<usize>| is_element(k);
    if n == 1 {
        assert(rows_read(src, home, element_rows(kids, 1), headers) =~= Seq::<DataItemView>::empty());
    } else {
        lemma_rows_fold_reads_element_rows(src, home, kids, headers, n - 1);
        let a = kids.subrange(1, n - 1);
        if n == 2 {
            assert(a =~= Seq::<Option<usize>>::empty());
            reveal(Seq::filter);
            assert(a.filter(pred) =~= Seq::<Option<usize>>::empty());
            assert(a.filter(pred).map_values(|k: Option<usize>| k->0) =~= element_rows(kids, 1));
        }
        let b = kids.subrange(1, n);
        assert(b.drop_last() =~= a);
        assert(b.last() == kids[n - 1]);
        reveal(Seq::filter);
        assert(b.filter(pred) == (if pred(b.last()) { a.filter(pred).push(b.last()) } else { a.filter(pred) }));
        let before = element_rows(kids, n - 1);
        match kids[n - 1] {
            None => {
                assert(!is_element(kids[n - 1]));
                assert(element_rows(kids, n) =~= before);
            },
            Some(tr) => {
                assert(is_element(kids[n - 1]));
                assert(element_rows(kids, n) =~= before.push(tr));
                assert(row_item(src, home, tr, headers) is Ok);
                assert(rows_read(src, home, element_rows(kids, n), headers) =~= rows_read(
                    src,
                    home,
                    before,
                    headers,
                ).push(row_item(src, home, tr, headers)->Ok_0));
            },
        }
    }
}

/// Every element child of the table body after its first child gives one torrent, in order,
/// whatever text nodes lie between the rows: where each of these rows reads, the listing's
/// torrents are exactly the torrents of these rows.
pub proof fn lemma_table_reads_every_row(
    src: Seq<char>,
    site: Site,
    body: usize,
    header_row: usize,
    headers: Seq<Seq<char>>,
    kids: Seq<Option<usize>>,
)
    requires
        table_layout(src) == Ok::<Option<(usize, usize)>, ScrapeError>(Some((body, header_row))),
        headers_of(src, header_row) == Ok::<Seq<Seq<char>>, ScrapeError>(headers),
        html_children(src, body) == Some(kids),
        forall|j: int| 1 <= j < kids.len() && #[trigger] is_element(kids[j]) ==> row_item(src, site_home(site), kids[j]->0, headers) is Ok,
    ensures
        table_items(src, site) matches Ok(items) && items == rows_read(
            src,
            site_home(site),
            element_rows(kids, kids.len() as int),
            headers,
        ),
{
    if kids.len() >= 1 {
        lemma_rows_fold_reads_element_rows(src, site_home(site), kids, headers, kids.len() as int);
    } else {
        assert(rows_fold(src, site_home(site), kids, headers, 0) == Ok::<Seq<DataItemView>, ScrapeError>(Seq::empty()));
        assert(rows_read(src, site_home(site), element_rows(kids, 0), headers) =~= Seq::<DataItemView>::empty());
    }
}

/// A query below `e` that ran and found nothing.
pub open spec fn finds_none(src: Seq<char>, e: usize, selector: Seq<char>) -> bool {
    html_select(src, Some(e), selector) matches Some(found) && found.len() == 0
}

/// A query below `e` that ran and found something.
pub open spec fn finds_some(src: Seq<char>, e: usize, selector: Seq<char>) -> bool {
    html_select(src, Some(e), selector) matches Some(found) && found.len() > 0
}

/// Where `first_having` picks an element, it is the first of them, from the `i`th on, below
/// which the query finds something: below every earlier one it found nothing.
pub(crate) proof fn lemma_first_having_picks_first(src: Seq<char>, es: Seq<usize>, selector: Seq<char>, i: nat) -> (k: int)
    requires
        first_having(src, es, selector, i) matches Ok(Some(_)),
    ensures
        i <= k < es.len(),
        first_having(src, es, selector, i) == Ok::<Option<usize>, ScrapeError>(Some(es[k])),
        finds_some(src, es[k], selector),
        forall|j: int| i <= j < k ==> #[trigger] finds_none(src, es[j], selector),
    decreases es.len() - i,
{
    match html_select(src, Some(es[i as int]), selector) {
        Some(found) => {
            if found.len() > 0 {
                i as int
            } else {
                let k = lemma_first_having_picks_first(src, es, selector, i + 1);
                assert forall|j: int| i <= j < k implies #[trigger] finds_none(src, es[j], selector) by {
                    if j == i {
                    }
                }
                k
            }
        },
        None => {
            i as int
        },
    }
}

/// Where the first element, from the `i`th on, below which the query finds something is the
/// `k`th, `first_having` picks it.
pub(crate) proof fn lemma_first_having_finds(src: Seq<char>, es: Seq<usize>, selector: Seq<char>, i: nat, k: int)
    requires
        i <= k < es.len(),
        finds_some(src, es[k], selector),
        forall|j: int| i <= j < k ==> #[trigger] finds_none(src, es[j], selector),
    ensures
        first_having(src, es, selector, i) == Ok::<Option<usize>, ScrapeError>(Some(es[k])),
    decreases k - i,
{
    if i < k {
        assert(finds_none(src, es[i as int], selector));
        lemma_first_having_finds(src, es, selector, i + 1, k);
    }
}

/// Where no element, from the `i`th on, has anything below it that the query finds,
/// `first_having` picks none.
pub(crate) proof fn lemma_first_having_none(src: Seq<char>, es: Seq<usize>, selector: Seq<char>, i: nat)
    requires
        forall|j: int| i <= j < es.len() ==> #[trigger] finds_none(src, es[j], selector),
    ensures
        first_having(src, es, selector, i) == Ok::<Option<usize>, ScrapeError>(None),
    decreases es.len() - i,
{
    if i < es.len() {
        assert(finds_none(src, es[i as int], selector));
        lemma_first_having_none(src, es, selector, i + 1);
    }
}

/// A torrent read from the embedded cell `e`: its title is the `title` attribute of the cell's
/// first link, its address the site's home followed by that link's `href`, and its description
/// the cell's last text.
pub open spec fn read_from_link_cell(src: Seq<char>, home: Seq<char>, e: usize, v: DataItemView) -> bool {
    match (html_select(src, Some(e), "a"@), html_texts(src, e)) {
        (Some(links), Some(ts)) => links.len() > 0 && ts.len() > 0 && html_attr(src, links[0], "title"@)
            == Some(v.title) && v.desc == ts.last() && match html_attr(src, links[0], "href"@) {
            Some(href) => v.src_link == home + href,
            None => false,
        },
        _ => false,
    }
}

/// The title cell is read from the first of its embedded cells that holds a link: the title is
/// the `title` attribute of that cell's first link, the address is the site's home followed by
/// that link's `href`, and the description is the cell's last text.
pub proof fn lemma_title_is_link_title(src: Seq<char>, home: Seq<char>, td: usize, st: DataItemView)
    ensures
        title_cell(src, home, td, st) matches Ok(v) ==> title_from_cell(src, home, td, v),
{
    if title_cell(src, home, td, st) is Ok {
        let es = html_select(src, Some(td), "td.embedded"@)->0;
        let k = lemma_first_having_picks_first(src, es, "a"@, 0);
        let e = es[k];
        let links = html_select(src, Some(e), "a"@)->0;
        let ts = html_texts(src, e)->0;
        let title = html_attr(src, links[0], "title"@)->0;
        let href = html_attr(src, links[0], "href"@)->0;
        let free = html_select(src, Some(e), "img.pro_free"@)->0;
        let dfree = html_select(src, Some(e), "img.pro_free2up"@)->0;
        let base = with_title(st, title, ts.last(), home + href, promotion(free, dfree, st.discount));
        let v = title_cell(src, home, td, st)->Ok_0;
        assert(title_cell(src, home, td, st) == title_due(src, e, base));
        assert(v.title == title && v.desc == ts.last() && v.src_link == home + href);
        assert(read_from_link_cell(src, home, es[k], v));
    }
}

/// The torrent read from the first embedded cell that holds a link, among the embedded cells of
/// the title cell `td`.
pub open spec fn title_from_cell(src: Seq<char>, home: Seq<char>, td: usize, v: DataItemView) -> bool {
    match html_select(src, Some(td), "td.embedded"@) {
        Some(es) => exists|k: int|
            0 <= k < es.len() && (forall|j: int| 0 <= j < k ==> #[trigger] finds_none(src, es[j], "a"@))
                && #[trigger] read_from_link_cell(src, home, es[k], v),
        None => false,
    }
}

proof fn lemma_cell_keeps_title(src: Seq<char>, home: Seq<char>, td: usize, h: Seq<char>, st: DataItemView)
    requires
        h != "标题"@,
    ensures
        apply_cell(src, home, td, h, st) matches Ok(w) ==> w.title == st.title && w.desc == st.desc
            && w.src_link == st.src_link,
{
}

proof fn lemma_title_from_same_texts(src: Seq<char>, home: Seq<char>, td: usize, w: DataItemView, v: DataItemView)
    requires
        title_from_cell(src, home, td, w),
        w.title == v.title && w.desc == v.desc && w.src_link == v.src_link,
    ensures
        title_from_cell(src, home, td, v),
{
    let es = html_select(src, Some(td), "td.embedded"@)->0;
    let k = choose|k: int|
        0 <= k < es.len() && (forall|j: int| 0 <= j < k ==> #[trigger] finds_none(src, es[j], "a"@))
            && #[trigger] read_from_link_cell(src, home, es[k], w);
    assert(read_from_link_cell(src, home, es[k], v));
}

proof fn lemma_row_fold_title(
    src: Seq<char>,
    home: Seq<char>,
    cells: Seq<usize>,
    headers: Seq<Seq<char>>,
    c: int,
    n: nat,
)
    requires
        0 <= c < n <= cells.len(),
        n <= headers.len(),
        headers[c] == "标题"@,
        forall|j: int| 0 <= j < n && j != c ==> headers[j] != "标题"@,
    ensures
        row_fold(src, home, cells, headers, n) matches Ok(v) ==> title_from_cell(src, home, cells[c], v),
    decreases n,
{
    if n == c + 1 {
        match row_fold(src, home, cells, headers, c as nat) {
            Err(_) => {},
            Ok(st) => {
                reveal_strlit("类型");
                reveal_strlit("标题");
                assert("标题"@[0] != "类型"@[0]);
                assert(apply_cell(src, home, cells[c], headers[c], st) == title_cell(src, home, cells[c], st));
                lemma_title_is_link_title(src, home, cells[c], st);
            },
        }
    } else {
        lemma_row_fold_title(src, home, cells, headers, c, (n - 1) as nat);
        match row_fold(src, home, cells, headers, (n - 1) as nat) {
            Err(_) => {},
            Ok(st) => {
                lemma_cell_keeps_title(src, home, cells[n - 1], headers[n - 1], st);
                match apply_cell(src, home, cells[n - 1], headers[n - 1], st) {
                    Err(_) => {},
                    Ok(w) => {
                        lemma_title_from_same_texts(src, home, cells[c], st, w);
                    },
                }
            },
        }
    }
}

/// In a row whose columns have one title column `c`, the torrent's title is the `title`
/// attribute of the first link of the first embedded cell of the row's `c`th cell that holds a
/// link; its address and description come from that same cell.
pub proof fn lemma_row_title_from_title_column(src: Seq<char>, home: Seq<char>, tr: usize, headers: Seq<Seq<char>>, c: int)
    requires
        html_select(src, Some(tr), "td.rowfollow"@) matches Some(cells) && 0 <= c < cells.len(),
        0 <= c < headers.len(),
        headers[c] == "标题"@,
        forall|j: int| 0 <= j < headers.len() && j != c ==> headers[j] != "标题"@,
    ensures
        row_item(src, home, tr, headers) matches Ok(v) ==> title_from_cell(
            src,
            home,
            html_select(src, Some(tr), "td.rowfollow"@)->0[c],
            v,
        ),
{
    let cells = html_select(src, Some(tr), "td.rowfollow"@)->0;
    let n = if cells.len() < headers.len() { cells.len() } else { headers.len() };
    lemma_row_fold_title(src, home, cells, headers, c, n);
}

} // verus!
