//! Age-bounded retention of items by their publish date.
use vstd::prelude::*;

verus! {

/// The instant, in seconds since the Unix epoch, that an RFC 2822 date
/// denotes; `None` where the text is no such date.
pub uninterp spec fn rfc2822_timestamp(date: Seq<char>) -> Option<int>;

/// Relies on `chrono::DateTime::parse_from_rfc2822` and `DateTime::timestamp`
/// of its result: the instant depends on the text alone.
#[verifier::external_body]
fn parse_rfc2822(date: &str) -> (r: Option<i64>)
    ensures
        r matches Some(t) ==> rfc2822_timestamp(date@) == Some(t as int),
        r is None <==> rfc2822_timestamp(date@) is None,
{
    chrono::DateTime::parse_from_rfc2822(date).ok().map(|d| d.timestamp())
}

/// Whether an item published at `pub_date` is kept at instant `now` (seconds
/// since the epoch) under a maximum age of `max_age` hours, 0 meaning no
/// limit. A date that cannot be read keeps the item.
pub open spec fn fresh_enough(pub_date: Seq<char>, max_age: u64, now: i64) -> bool {
    max_age == 0 || match rfc2822_timestamp(pub_date) {
        None => true,
        Some(t) => now - t <= max_age * 3600,
    }
}

/// With a maximum age, an item dated more than that many hours before `now`
/// goes; without one (0), every item stays, whatever its date.
pub proof fn lemma_retention(date: Seq<char>, max_age: u64, now: i64, t: int)
    requires
        rfc2822_timestamp(date) == Some(t),
    ensures
        max_age > 0 && now - t > max_age * 3600 ==> !fresh_enough(date, max_age, now),
        max_age > 0 && now - t <= max_age * 3600 ==> fresh_enough(date, max_age, now),
        fresh_enough(date, 0, now),
{
}

/// Decides the retention of one item; see `fresh_enough`.
pub fn check_pub_date_not_older_than(pub_date: &str, max_age: u64, now: i64) -> (r: bool)
    ensures
        r == fresh_enough(pub_date@, max_age, now),
{
    if max_age == 0 {
        return true;
    }
    match parse_rfc2822(pub_date) {
        None => true,
        Some(t) => (now as i128) - (t as i128) <= (max_age as i128) * 3600,
    }
}

} // verus!
