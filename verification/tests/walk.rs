use pt_rs::client::{retry_step, RetryStep};
use pt_rs::ptsite::{okpt_url_by_page, Site};
use pt_rs::scheduler::Scheduler;
use pt_rs::table::ScrapeError;

const EMPTY_LISTING: &str = "<html><body><p>没有种子</p></body></html>";

#[test]
fn walk_over_pages() {
    let mut s = Scheduler::new(Site::OKPT, 2, 4, okpt_url_by_page);
    assert_eq!(s.progress(), (2, 4));
    assert!(!s.is_finished());
    assert_eq!(
        s.next_page_url(),
        "https://www.okpt.net/torrents.php?inclbookmarked=0&incldead=1&spstate=0&page=2"
    );
    let mut pages = vec![];
    while !s.is_finished() {
        pages.push(s.progress().0);
        let items = s.do_next_page(EMPTY_LISTING).unwrap();
        assert!(items.is_empty());
    }
    assert_eq!(pages, vec![2, 3, 4]);
    assert_eq!(s.progress(), (5, 4));
}

#[test]
fn walk_with_start_after_end_reads_nothing() {
    let s = Scheduler::new(Site::GGPT, 5, 4, okpt_url_by_page);
    assert!(s.is_finished());
}

#[test]
fn unreadable_page_leaves_the_walk_in_place() {
    let mut s = Scheduler::new(Site::OKPT, 0, 1, |p: u32| format!("page {}", p));
    let r = s.do_next_page("<table class=\"torrents\"></table>");
    assert_eq!(r.unwrap_err(), ScrapeError::MissingElement);
    assert_eq!(s.progress(), (0, 1));
    assert_eq!(s.next_page_url(), "page 0");
}

#[test]
fn retries_until_success_or_the_last_attempt() {
    assert_eq!(retry_step(1, 3, true), RetryStep::Done);
    assert_eq!(retry_step(1, 3, false), RetryStep::Retry);
    assert_eq!(retry_step(2, 3, false), RetryStep::Retry);
    assert_eq!(retry_step(3, 3, false), RetryStep::GiveUp);
    assert_eq!(retry_step(3, 3, true), RetryStep::Done);
    assert_eq!(retry_step(1, 0, false), RetryStep::GiveUp);
    assert_eq!(retry_step(1, 1, false), RetryStep::GiveUp);
}

#[test]
fn failing_fetch_makes_max_retry_attempts() {
    for max in [0u32, 1, 3, 5] {
        let mut attempt = 1;
        while retry_step(attempt, max, false) == RetryStep::Retry {
            attempt += 1;
        }
        assert_eq!(attempt, max.max(1));
    }
}

#[test]
fn browser_headers_sent_with_a_fetch() {
    let headers = pt_rs::client::extra_headers();
    assert_eq!(headers.len(), 9);
    assert_eq!(headers[0].0, "Accept");
    assert_eq!(
        headers[1],
        (
            "Sec-Ch-Ua".to_string(),
            "\"Not/A)Brand\";v=\"99\", \"Google Chrome\";v=\"115\", \"Chromium\";v=\"115\"".to_string()
        )
    );
    assert_eq!(headers[3], ("Sec-Ch-Ua-Platform".to_string(), "\"Windows\"".to_string()));
    assert_eq!(headers[8], ("Upgrade-Insecure-Requests".to_string(), "1".to_string()));
}
