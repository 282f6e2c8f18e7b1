use pt_rs::dom::Page;
use pt_rs::parse::parse_next_href;
use pt_rs::ptsite::{Discount, Site};
use pt_rs::size::SizeGb;
use pt_rs::table::{attr_of, first_in, local_timestamp, required_in, ScrapeError};
use pt_rs::{process_headers, process_row_data, process_table};

const HEADER_ROW: &str = "<tr>\
    <td class=\"colhead\">类型</td>\
    <td class=\"colhead\">标题</td>\
    <td class=\"colhead\"><a href=\"?sort=3\"><img class=\"comments\" src=\"pic/trans.gif\" title=\"评论数\"></a></td>\
    <td class=\"colhead\"><a href=\"?sort=4\"><img class=\"time\" src=\"pic/trans.gif\" title=\"存活时间\"></a></td>\
    <td class=\"colhead\"><a href=\"?sort=5\"><img class=\"size\" src=\"pic/trans.gif\" title=\"大小\"></a></td>\
    <td class=\"colhead\"><a href=\"?sort=7\"><img class=\"seeders\" src=\"pic/trans.gif\" title=\"种子数\"></a></td>\
    <td class=\"colhead\"><a href=\"?sort=8\"><img class=\"leechers\" src=\"pic/trans.gif\" title=\"下载数\"></a></td>\
    <td class=\"colhead\"><a href=\"?sort=6\"><img class=\"snatched\" src=\"pic/trans.gif\" title=\"完成数\"></a></td>\
    <td class=\"colhead\"><a href=\"?sort=9\">发布者</a></td>\
    </tr>";

const FREE_ROW: &str = "<tr>\
    <td class=\"rowfollow nowrap\"><a href=\"?cat=401\"><img class=\"c_movie\" src=\"pic/cattrans.gif\" alt=\"电影\" title=\"电影\"></a></td>\
    <td class=\"rowfollow\" width=\"100%\"><table class=\"torrentname\"><tbody><tr>\
    <td class=\"embedded\"><img src=\"pic/poster.jpg\"></td>\
    <td class=\"embedded\"><a title=\"Some.Movie.2023.1080p\" href=\"details.php?id=4553&amp;hit=1\"><b>Some.Movie.2023.1080p</b></a> \
    <img class=\"pro_free\" src=\"pic/trans.gif\" alt=\"Free\"> \
    <font color=\"#0000FF\">[<span title=\"2023-08-12 15:17:44\">2天</span>]</font><br>某电影 中字</td>\
    </tr></tbody></table></td>\
    <td class=\"rowfollow\"><a href=\"comments\">0</a></td>\
    <td class=\"rowfollow nowrap\"><span title=\"2023-08-01 10:00:00\">1月</span></td>\
    <td class=\"rowfollow\">1.5<br>GB</td>\
    <td class=\"rowfollow\"><b><a href=\"peers\">1,234</a></b></td>\
    <td class=\"rowfollow\"><b>5</b></td>\
    <td class=\"rowfollow\"><a href=\"snatches\"><b>6,789</b></a></td>\
    <td class=\"rowfollow\"><i>匿名</i></td>\
    </tr>";

const PLAIN_ROW: &str = "<tr>\
    <td class=\"rowfollow\"><img class=\"c_tv\" src=\"pic/cattrans.gif\" title=\"剧集\"></td>\
    <td class=\"rowfollow\"><table class=\"torrentname\"><tbody><tr>\
    <td class=\"embedded\"><a title=\"It's.A.Show.S01\" href=\"details.php?id=7&amp;hit=1\"><b>It's.A.Show.S01</b></a><br>第一季</td>\
    </tr></tbody></table></td>\
    <td class=\"rowfollow\">3</td>\
    <td class=\"rowfollow\"><span title=\"2023-07-31 00:00:00\">2月</span></td>\
    <td class=\"rowfollow\">700.25<br>MB</td>\
    <td class=\"rowfollow\">12</td>\
    <td class=\"rowfollow\">0</td>\
    <td class=\"rowfollow\">1,000,000</td>\
    <td class=\"rowfollow\">someone</td>\
    </tr>";

fn listing(rows: &str) -> String {
    format!(
        "<html><body><table class=\"torrents\"><tbody>{}{}</tbody></table></body></html>",
        HEADER_ROW, rows
    )
}

/// The plain row with its top-level cell number `cell_index` replaced by `cell`.
fn first_row_cells_replaced(cell_index: usize, cell: &str) -> String {
    let mut tops: Vec<String> = Vec::new();
    let mut depth = 0i32;
    let mut cur = String::new();
    let body = &PLAIN_ROW[4..PLAIN_ROW.len() - 5];
    let mut i = 0;
    while i < body.len() {
        let rest = &body[i..];
        if rest.starts_with("<td") {
            depth += 1;
        }
        if rest.starts_with("</td>") {
            depth -= 1;
            cur.push_str("</td>");
            i += 5;
            if depth == 0 {
                tops.push(std::mem::take(&mut cur));
            }
            continue;
        }
        let c = rest.chars().next().unwrap();
        cur.push(c);
        i += c.len_utf8();
    }
    tops[cell_index] = cell.to_string();
    format!("<tr>{}</tr>", tops.concat())
}

#[test]
fn table_of_a_listing() {
    let html = listing(&format!("{}{}", FREE_ROW, PLAIN_ROW));
    let items = process_table(&html, &Site::OKPT).unwrap();
    assert_eq!(items.len(), 2);

    let a = &items[0];
    assert_eq!(a.title, "Some.Movie.2023.1080p");
    assert_eq!(a.desc, "某电影 中字");
    assert_eq!(a.src_link, "https://www.okpt.net/details.php?id=4553&hit=1");
    assert_eq!(a.upload, 1234);
    assert_eq!(a.download, 5);
    assert_eq!(a.finished, 6789);
    assert_eq!(a.size, SizeGb { mantissa: 15, exponent: -1 });
    assert_eq!(a.publish_time, 1690855200);
    assert_eq!(a.discount, Some(Discount::Free));
    assert_eq!(a.discount_due, Some(1691824664));
    assert!(a.last_update > 1_600_000_000);

    let b = &items[1];
    assert_eq!(b.title, "It's.A.Show.S01");
    assert_eq!(b.desc, "第一季");
    assert_eq!(b.src_link, "https://www.okpt.net/details.php?id=7&hit=1");
    assert_eq!(b.upload, 12);
    assert_eq!(b.download, 0);
    assert_eq!(b.finished, 1_000_000);
    assert_eq!(b.size, SizeGb { mantissa: 70025, exponent: -5 });
    assert_eq!(b.publish_time, 1690732800);
    assert_eq!(b.discount, None);
    assert_eq!(b.discount_due, None);
}

#[test]
fn address_built_from_the_site_home() {
    let html = listing(PLAIN_ROW);
    let items = process_table(&html, &Site::CARPT).unwrap();
    assert_eq!(items[0].src_link, "https://carpt.net/details.php?id=7&hit=1");
}

#[test]
fn page_without_torrents_table_has_no_items() {
    let items = process_table("<html><body><p>登录</p></body></html>", &Site::OKPT).unwrap();
    assert!(items.is_empty());
}

#[test]
fn table_with_only_a_header_row_has_no_items() {
    let items = process_table(&listing(""), &Site::OKPT).unwrap();
    assert!(items.is_empty());
}

#[test]
fn whitespace_before_the_header_row_reads_it_as_a_blank_item() {
    let html = format!(
        "<table class=\"torrents\"><tbody>\n{}{}</tbody></table>",
        HEADER_ROW, PLAIN_ROW
    );
    let items = process_table(&html, &Site::OKPT).unwrap();
    assert_eq!(items.len(), 2);
    assert_eq!(items[0].title, "");
    assert_eq!(items[0].size, SizeGb { mantissa: 0, exponent: 0 });
    assert_eq!(items[1].title, "It's.A.Show.S01");
}

#[test]
fn header_names_from_icons_links_and_text() {
    let page = Page::parse(&listing(""));
    let tr = required_in(&page, None, "tr").unwrap();
    let headers = process_headers(&page, tr).unwrap();
    assert_eq!(
        headers,
        vec!["类型", "标题", "评论数", "存活时间", "大小", "种子数", "下载数", "完成数", "发布者"]
    );
}

#[test]
fn row_read_with_given_headers() {
    let page = Page::parse(&listing(PLAIN_ROW));
    let tr = required_in(&page, None, "table.torrents > tbody > tr:nth-child(2)").unwrap();
    let headers: Vec<String> = vec!["类型".to_string(), "标题".to_string(), "种子数".to_string()];
    let item = process_row_data(&Site::PTTIME, &page, tr, &headers).unwrap();
    assert_eq!(item.title, "It's.A.Show.S01");
    assert_eq!(item.src_link, "https://www.pttime.org/details.php?id=7&hit=1");
    // The third cell is read as the seeders column: it holds 3.
    assert_eq!(item.upload, 3);
    assert_eq!(item.finished, 0);
    assert_eq!(item.publish_time, 0);
}

#[test]
fn double_free_promotion() {
    let row = FREE_ROW.replace("class=\"pro_free\"", "class=\"pro_free2up\"");
    let items = process_table(&listing(&row), &Site::OKPT).unwrap();
    assert_eq!(items[0].discount, Some(Discount::DoubleFree));
    assert_eq!(items[0].discount_due, Some(1691824664));
}

#[test]
fn promotion_without_end() {
    let row = FREE_ROW.replace(
        "<font color=\"#0000FF\">[<span title=\"2023-08-12 15:17:44\">2天</span>]</font>",
        "",
    );
    let items = process_table(&listing(&row), &Site::OKPT).unwrap();
    assert_eq!(items[0].discount, Some(Discount::Free));
    assert_eq!(items[0].discount_due, None);
    assert_eq!(items[0].desc, "某电影 中字");
}

#[test]
fn sizes_in_each_unit() {
    let cases = [
        ("1.5<br>KB", SizeGb { mantissa: 15, exponent: -7 }),
        ("2<br>TB", SizeGb { mantissa: 2, exponent: 3 }),
        ("10.00<br>GB", SizeGb { mantissa: 1000, exponent: -2 }),
    ];
    for (cell, expected) in cases {
        let row = first_row_cells_replaced(4, &format!("<td class=\"rowfollow\">{}</td>", cell));
        let items = process_table(&listing(&row), &Site::OKPT).unwrap();
        assert_eq!(items[0].size, expected);
    }
}

#[test]
fn unknown_size_unit_is_refused() {
    let row = first_row_cells_replaced(4, "<td class=\"rowfollow\">1.5<br>PB</td>");
    assert_eq!(process_table(&listing(&row), &Site::OKPT).unwrap_err(), ScrapeError::UnknownUnit);
}

#[test]
fn size_that_is_not_a_number_is_refused() {
    let row = first_row_cells_replaced(4, "<td class=\"rowfollow\">abc<br>GB</td>");
    assert_eq!(process_table(&listing(&row), &Site::OKPT).unwrap_err(), ScrapeError::BadSize);
}

#[test]
fn size_without_unit_is_refused() {
    let row = first_row_cells_replaced(4, "<td class=\"rowfollow\">1.5</td>");
    assert_eq!(process_table(&listing(&row), &Site::OKPT).unwrap_err(), ScrapeError::MissingText);
}

#[test]
fn count_that_is_not_a_number_is_refused() {
    let row = first_row_cells_replaced(7, "<td class=\"rowfollow\">many</td>");
    assert_eq!(process_table(&listing(&row), &Site::OKPT).unwrap_err(), ScrapeError::BadNumber);
}

#[test]
fn count_too_large_for_u32_is_refused() {
    let row = first_row_cells_replaced(5, "<td class=\"rowfollow\">4,294,967,296</td>");
    assert_eq!(process_table(&listing(&row), &Site::OKPT).unwrap_err(), ScrapeError::BadNumber);
    let row = first_row_cells_replaced(5, "<td class=\"rowfollow\">4,294,967,295</td>");
    assert_eq!(process_table(&listing(&row), &Site::OKPT).unwrap()[0].upload, u32::MAX);
}

#[test]
fn empty_count_cell_is_refused() {
    let row = first_row_cells_replaced(6, "<td class=\"rowfollow\"></td>");
    assert_eq!(process_table(&listing(&row), &Site::OKPT).unwrap_err(), ScrapeError::MissingText);
}

#[test]
fn bad_publication_time_is_refused() {
    let row = first_row_cells_replaced(3, "<td class=\"rowfollow\"><span title=\"yesterday\">1天</span></td>");
    assert_eq!(process_table(&listing(&row), &Site::OKPT).unwrap_err(), ScrapeError::BadTime);
}

#[test]
fn age_cell_without_span_is_refused() {
    let row = first_row_cells_replaced(3, "<td class=\"rowfollow\">1天</td>");
    assert_eq!(process_table(&listing(&row), &Site::OKPT).unwrap_err(), ScrapeError::MissingElement);
}

#[test]
fn category_icon_without_title_is_refused() {
    let row = first_row_cells_replaced(0, "<td class=\"rowfollow\"><img src=\"pic/cattrans.gif\"></td>");
    assert_eq!(process_table(&listing(&row), &Site::OKPT).unwrap_err(), ScrapeError::MissingAttribute);
}

#[test]
fn title_cell_without_link_is_refused() {
    let row = first_row_cells_replaced(
        1,
        "<td class=\"rowfollow\"><table><tbody><tr><td class=\"embedded\">无链接</td></tr></tbody></table></td>",
    );
    assert_eq!(process_table(&listing(&row), &Site::OKPT).unwrap_err(), ScrapeError::MissingElement);
}

#[test]
fn torrents_table_without_rows_is_refused() {
    assert_eq!(
        process_table("<table class=\"torrents\"></table>", &Site::OKPT).unwrap_err(),
        ScrapeError::MissingElement
    );
}

#[test]
fn refused_selector_is_a_bad_query() {
    let page = Page::parse("<p title=\"t\">x</p>");
    assert_eq!(first_in(&page, None, "p[["), Err(ScrapeError::BadQuery));
    assert_eq!(first_in(&page, None, "div"), Ok(None));
    let p = required_in(&page, None, "p").unwrap();
    assert_eq!(attr_of(&page, p, "title"), Ok("t".to_string()));
    assert_eq!(attr_of(&page, p, "href"), Err(ScrapeError::MissingAttribute));
    assert_eq!(required_in(&page, None, "div"), Err(ScrapeError::MissingElement));
}

#[test]
fn local_times_in_the_trackers_zone() {
    assert_eq!(local_timestamp("2023-08-12 15:17:44"), Some(1691824664));
    assert_eq!(local_timestamp("1970-01-01 08:00:00"), Some(0));
    assert_eq!(local_timestamp("2023-08-12"), None);
}

const PAGINATION: &str = "<html><body><p class=\"nexus-pagination\">\
    <a href=\"?inclbookmarked=0&amp;incldead=1&amp;page=0\"><b title=\"Alt+Pageup\">&lt;&lt;上一页</b></a> \
    <a href=\"?inclbookmarked=0&amp;incldead=1&amp;page=2\"><b title=\"Alt+Pagedown\">下一页&gt;&gt;</b></a>\
    </p></body></html>";

#[test]
fn next_page_link() {
    assert_eq!(
        parse_next_href(PAGINATION),
        Ok(Some("?inclbookmarked=0&incldead=1&page=2".to_string()))
    );
}

#[test]
fn last_page_has_no_next_link() {
    let html = PAGINATION.replace("Alt+Pagedown", "Alt+End");
    assert_eq!(parse_next_href(&html), Ok(None));
}

#[test]
fn page_without_pagination_is_refused() {
    assert_eq!(parse_next_href("<p>nothing</p>"), Err(ScrapeError::MissingElement));
}

#[test]
fn header_name_keeps_attribute_order() {
    let cell = "<span data-c=\"3\" data-a=\"1\" data-b=\"2\" title=\"t\">发布者</span>";
    let html = format!(
        "<table class=\"torrents\"><tbody><tr><td class=\"colhead\">{}</td></tr></tbody></table>",
        cell
    );
    for _ in 0..20 {
        let page = Page::parse(&html);
        let tr = required_in(&page, None, "tr").unwrap();
        assert_eq!(process_headers(&page, tr).unwrap(), vec![cell.to_string()]);
    }
}
