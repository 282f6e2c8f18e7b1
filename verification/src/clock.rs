//! Time: the current time, and local times read with a format.
use vstd::prelude::*;

verus! {

/// The seconds since the Unix epoch that `chrono::DateTime::parse_from_str(text, format)`
/// reads, `None` where chrono refuses the text.
pub uninterp spec fn chrono_timestamp(text: Seq<char>, format: Seq<char>) -> Option<i64>;

/// Calls `chrono::DateTime::parse_from_str` and then `DateTime::timestamp`; the result is
/// what chrono gives for these two arguments, named `chrono_timestamp`.
#[verifier::external_body]
pub(crate) fn parse_timestamp(text: &str, format: &str) -> (r: Option<i64>)
    ensures
        r == chrono_timestamp(text@, format@),
{
    match chrono::DateTime::parse_from_str(text, format) {
        Ok(t) => Some(t.timestamp()),
        Err(_) => None,
    }
}

/// Reads the machine's clock with `std::time::SystemTime::now` and turns it into seconds since
/// the Unix epoch with chrono's `From<SystemTime> for DateTime<Utc>` and `DateTime::timestamp`.
/// Nothing is stated of the value: it depends on the clock. chrono's conversion handles a clock
/// before the epoch (negative seconds); its one failing step is a date beyond chrono's range,
/// about 262,000 years from 1970, further than a system clock reaches.
#[verifier::external_body]
pub(crate) fn now_timestamp() -> i64 {
    chrono::DateTime::<chrono::Utc>::from(std::time::SystemTime::now()).timestamp()
}

} // verus!
