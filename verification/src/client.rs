//! What a fetch of a page sends, and when to fetch a page again after a failed request.
use vstd::prelude::*;
use vstd::string::StringExecFns;

verus! {

/// The request headers of a desktop Chrome browser that a fetch may send besides its user agent.
pub open spec fn browser_headers() -> Seq<(Seq<char>, Seq<char>)> {
    seq![
        ("Accept"@, "text/html,application/xhtml+xml,application/xml;q=0.9,image/avif,image/webp,image/apng,*/*;q=0.8,application/signed-exchange;v=b3;q=0.7"@),
        ("Sec-Ch-Ua"@, "\"Not/A)Brand\";v=\"99\", \"Google Chrome\";v=\"115\", \"Chromium\";v=\"115\""@),
        ("Sec-Ch-Ua-Mobile"@, "?0"@),
        ("Sec-Ch-Ua-Platform"@, "\"Windows\""@),
        ("Sec-Fetch-Dest"@, "document"@),
        ("Sec-Fetch-Mode"@, "navigate"@),
        ("Sec-Fetch-Site"@, "none"@),
        ("Sec-Fetch-User"@, "?1"@),
        ("Upgrade-Insecure-Requests"@, "1"@),
    ]
}

/// The request headers of a desktop Chrome browser, as name and value pairs.
pub fn extra_headers() -> (r: Vec<(String, String)>)
    ensures
        r@.map_values(|p: (String, String)| (p.0@, p.1@)) == browser_headers(),
{
    let mut headers: Vec<(String, String)> = Vec::new();
    headers.push((String::from_str("Accept"), String::from_str("text/html,application/xhtml+xml,application/xml;q=0.9,image/avif,image/webp,image/apng,*/*;q=0.8,application/signed-exchange;v=b3;q=0.7")));
    headers.push((String::from_str("Sec-Ch-Ua"), String::from_str("\"Not/A)Brand\";v=\"99\", \"Google Chrome\";v=\"115\", \"Chromium\";v=\"115\"")));
    headers.push((String::from_str("Sec-Ch-Ua-Mobile"), String::from_str("?0")));
    headers.push((String::from_str("Sec-Ch-Ua-Platform"), String::from_str("\"Windows\"")));
    headers.push((String::from_str("Sec-Fetch-Dest"), String::from_str("document")));
    headers.push((String::from_str("Sec-Fetch-Mode"), String::from_str("navigate")));
    headers.push((String::from_str("Sec-Fetch-Site"), String::from_str("none")));
    headers.push((String::from_str("Sec-Fetch-User"), String::from_str("?1")));
    headers.push((String::from_str("Upgrade-Insecure-Requests"), String::from_str("1")));
    assert(headers@.map_values(|p: (String, String)| (p.0@, p.1@)) =~= browser_headers());
    headers
}

/// What to do after an attempt to fetch a page.
#[derive(Debug, Copy, Clone, PartialEq, Eq, Structural)]
pub enum RetryStep {
    /// The attempt succeeded: hand its page over.
    Done,
    /// The attempt failed: wait half a second and try again.
    Retry,
    /// The attempt failed and was the last one: hand its error over.
    GiveUp,
}

/// After attempt number `attempt` (counting from 1) of at most `max_retry`: stop on success,
/// else try again while attempts are left. At least one attempt is always made.
pub open spec fn retry_decision(attempt: u32, max_retry: u32, succeeded: bool) -> RetryStep {
    if succeeded {
        RetryStep::Done
    } else if attempt < max_retry {
        RetryStep::Retry
    } else {
        RetryStep::GiveUp
    }
}

/// What to do after attempt number `attempt` (counting from 1) of at most `max_retry`.
pub fn retry_step(attempt: u32, max_retry: u32, succeeded: bool) -> (r: RetryStep)
    ensures
        r == retry_decision(attempt, max_retry, succeeded),
{
    if succeeded {
        RetryStep::Done
    } else if attempt < max_retry {
        RetryStep::Retry
    } else {
        RetryStep::GiveUp
    }
}

/// The number of attempts made when every one fails: `max_retry`, and at least one.
pub open spec fn attempts_when_failing(max_retry: u32) -> int {
    if max_retry == 0 {
        1
    } else {
        max_retry as int
    }
}

/// When every attempt fails, the fetch goes on after each attempt before the
/// `attempts_when_failing(max_retry)`th and gives up after that one.
pub proof fn lemma_retry_gives_up_after_all_attempts(max_retry: u32, attempt: u32)
    requires
        1 <= attempt <= attempts_when_failing(max_retry),
    ensures
        (retry_decision(attempt, max_retry, false) == RetryStep::GiveUp) <==> attempt == attempts_when_failing(max_retry),
        (retry_decision(attempt, max_retry, false) == RetryStep::Retry) <==> attempt < attempts_when_failing(max_retry),
{
}

} // verus!
