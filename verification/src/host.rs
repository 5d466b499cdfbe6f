use vstd::prelude::*;

use chrono::{Datelike, TimeZone};

verus! {

// ---------------------------------------------------------------------------
// Every call that leaves the library goes through one of the wrappers here,
// each a single outside call with the little that its documentation promises.
// ---------------------------------------------------------------------------

/// What `chrono::DateTime::parse_from_rfc3339` yields of a string, projected
/// to year, month and epoch seconds: a function of the characters alone.
pub uninterp spec fn rfc3339_parts(s: Seq<char>) -> Option<(i32, u32, i64)>;

/// Relies on `chrono::DateTime::parse_from_rfc3339`, `Datelike::year`,
/// `Datelike::month` and `DateTime::timestamp`: the parse is deterministic,
/// and a parsed month ranges from 1 to 12.
#[verifier::external_body]
pub fn parse_rfc3339(s: &str) -> (r: Option<(i32, u32, i64)>)
    ensures
        r == rfc3339_parts(s@),
        r matches Some((y, m, ts)) ==> 1 <= m <= 12,
{
    match chrono::DateTime::parse_from_rfc3339(s) {
        Ok(dt) => Some((dt.year(), dt.month(), dt.timestamp())),
        Err(_) => None,
    }
}

/// What `chrono::NaiveDate::parse_from_str` with the `%Y-%m-%d` format
/// yields of a string, as year, month and day: a function of the characters.
pub uninterp spec fn date_ymd(s: Seq<char>) -> Option<(i32, u32, u32)>;

/// Relies on `chrono::NaiveDate::parse_from_str` with format `%Y-%m-%d`:
/// deterministic; a parsed month ranges 1 to 12 and a day 1 to 31.
#[verifier::external_body]
pub fn parse_date_ymd(s: &str) -> (r: Option<(i32, u32, u32)>)
    ensures
        r == date_ymd(s@),
        r matches Some((y, m, d)) ==> 1 <= m <= 12 && 1 <= d <= 31,
{
    match chrono::NaiveDate::parse_from_str(s, "%Y-%m-%d") {
        Ok(date) => Some((date.year(), date.month(), date.day())),
        Err(_) => None,
    }
}

/// Relies on `chrono::NaiveDate::parse_from_str`, `NaiveDate::and_hms_opt`
/// and `chrono::Local::from_local_datetime`: the epoch seconds of the day's
/// last second, 23:59:59, in the machine's local time zone. The result
/// depends on the machine's zone, so only its absence is pinned: a string
/// that is no `%Y-%m-%d` date yields `None`.
#[verifier::external_body]
pub fn date_end_of_day_ts(s: &str) -> (r: Option<i64>)
    ensures
        date_ymd(s@) is None ==> r is None,
        r is Some ==> date_ymd(s@) is Some,
{
    let date = chrono::NaiveDate::parse_from_str(s, "%Y-%m-%d").ok()?;
    let dt = date.and_hms_opt(23, 59, 59)?;
    let local = chrono::Local.from_local_datetime(&dt).single()?;
    Some(local.timestamp())
}

/// Relies on `chrono::Local::now` and `DateTime::to_rfc3339`: the current
/// instant as an RFC 3339 timestamp. Nothing is promised of a clock.
#[verifier::external_body]
pub fn now_rfc3339() -> (r: String) {
    chrono::Local::now().to_rfc3339()
}

/// Relies on `chrono::Local::now` and `DateTime::format` with
/// `%Y%m%d%H%M%S`: the current instant as a compact filename stamp.
#[verifier::external_body]
pub fn now_file_timestamp() -> (r: String) {
    chrono::Local::now().format("%Y%m%d%H%M%S").to_string()
}

/// Relies on `chrono::Local::now` and `DateTime::format` with `%Y-%m-%d`:
/// the current local calendar date.
#[verifier::external_body]
pub fn today_date() -> (r: String) {
    chrono::Local::now().format("%Y-%m-%d").to_string()
}

/// Relies on `chrono::Local::now` and `DateTime::timestamp`: the current
/// instant in epoch seconds.
#[verifier::external_body]
pub fn now_timestamp() -> (r: i64) {
    chrono::Local::now().timestamp()
}

/// Relies on `chrono::TimeZone::timestamp_opt` for `chrono::Local` and
/// `DateTime::date_naive`: whether two instants fall on the same local
/// calendar day. The answer depends on the machine's zone.
#[verifier::external_body]
pub fn same_local_day(a: i64, b: i64) -> (r: bool) {
    match (
        chrono::Local.timestamp_opt(a, 0).single(),
        chrono::Local.timestamp_opt(b, 0).single(),
    ) {
        (Some(da), Some(db)) => da.date_naive() == db.date_naive(),
        _ => false,
    }
}

/// What `slug::slugify` yields of a string: a function of the characters.
pub uninterp spec fn slug_of(s: Seq<char>) -> Seq<char>;

/// Relies on `slug::slugify`: deterministic, and the result consists only
/// of `a`..`z`, `0`..`9` and `-`.
#[verifier::external_body]
pub fn slugify(s: &str) -> (r: String)
    ensures
        r@ == slug_of(s@),
        forall|i: int|
            0 <= i < r@.len() ==> (r@[i] == '-' || (('a' as int) <= (r@[i] as int) <= ('z' as int))
                || (('0' as int) <= (r@[i] as int) <= ('9' as int))),
{
    slug::slugify(s)
}

/// What `str::to_lowercase` yields of a string: a function of the characters.
pub uninterp spec fn lower_of(s: Seq<char>) -> Seq<char>;

/// Relies on `str::to_lowercase`: deterministic case folding.
#[verifier::external_body]
pub fn lowercase(s: &str) -> (r: String)
    ensures
        r@ == lower_of(s@),
{
    s.to_lowercase()
}

} // verus!
