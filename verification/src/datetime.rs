//! Calendar computations, made by the `chrono` crate.
use vstd::prelude::*;
use chrono::{DateTime, NaiveDateTime, Utc};

verus! {

/// A parsed instant with the two renderings the task table uses.
#[derive(Debug)]
pub struct Stamp {
    pub millis: i64,
    pub display: String,
    pub csv: String,
}

/// The instant (milliseconds since the Unix epoch, UTC) that `text` denotes
/// in the format `%Y-%m-%dT%H:%M:%SZ`, or `None` when `text` is not a date in
/// that format.
pub uninterp spec fn creation_millis(text: Seq<char>) -> Option<i64>;

/// The default (`Display`) text of the date-time that `text` denotes in the
/// format `%Y-%m-%dT%H:%M:%SZ`: `YYYY-MM-DD HH:MM:SS`, with a fraction of a
/// second when it has one. It is named by the text, not by the instant: a
/// leap second shares its instant with the next second but keeps its own
/// text.
pub uninterp spec fn creation_display(text: Seq<char>) -> Seq<char>;

/// The text in the format `%Y-%m-%dT%H:%M:%S%.3f` of the date-time that
/// `text` denotes in the format `%Y-%m-%dT%H:%M:%SZ` (named by the text, as
/// `creation_display` is).
pub uninterp spec fn creation_csv_text(text: Seq<char>) -> Seq<char>;

/// Parses a creation date in the format `%Y-%m-%dT%H:%M:%SZ`
/// (`chrono::NaiveDateTime::parse_from_str`, then `timestamp_millis`, the
/// `Display` text and `format`). The contract claims that the result is
/// `Some` exactly when chrono parses the whole text, and names the instant and
/// the two renderings, each by the text; what chrono accepts is not stated.
#[verifier::external_body]
pub(crate) fn parse_creation_date(text: &str) -> (r: Option<Stamp>)
    ensures
        r is Some <==> creation_millis(text@) is Some,
        r matches Some(st) ==> {
            &&& Some(st.millis) == creation_millis(text@)
            &&& st.display@ == creation_display(text@)
            &&& st.csv@ == creation_csv_text(text@)
        },
{
    match NaiveDateTime::parse_from_str(text, "%Y-%m-%dT%H:%M:%SZ") {
        Ok(d) => Some(Stamp {
            millis: d.and_utc().timestamp_millis(),
            display: d.to_string(),
            csv: d.format("%Y-%m-%dT%H:%M:%S%.3f").to_string(),
        }),
        Err(_) => None,
    }
}

/// The instant that `text` denotes as a UTC date-time in chrono's relaxed
/// RFC 3339 form (a space or `T` between date and time), or `None`.
pub uninterp spec fn utc_text_millis(text: Seq<char>) -> Option<i64>;

/// The RFC 3339 text of an instant (`DateTime::to_rfc3339`), or `None` when
/// the instant is out of chrono's range.
pub uninterp spec fn rfc3339_text(millis: i64) -> Option<Seq<char>>;

/// Whether an instant in milliseconds lies in chrono's range: its day lies
/// in the years -262143 to 262142 (see `timestamp_in_range`; the
/// milliseconds of a second never reach a leap second).
pub open spec fn millis_in_range(millis: i64) -> bool {
    -95746129 <= (millis / 1000) / 86400 + 719163 <= 95745399
}

/// Parses a UTC date-time (`str::parse::<DateTime<Utc>>`). The contract
/// claims that the result is the named instant; which texts parse is not
/// stated.
#[verifier::external_body]
pub(crate) fn parse_utc(text: &str) -> (r: Option<i64>)
    ensures
        r == utc_text_millis(text@),
{
    match text.parse::<DateTime<Utc>>() {
        Ok(d) => Some(d.timestamp_millis()),
        Err(_) => None,
    }
}

/// The RFC 3339 text of an instant (`DateTime::from_timestamp_millis`, then
/// `to_rfc3339`); the contract states when there is one (chrono's range test
/// on the seconds and milliseconds, see `millis_in_range`) and names the
/// text, which it does not state.
#[verifier::external_body]
pub(crate) fn rfc3339_of_millis(millis: i64) -> (r: Option<String>)
    ensures
        match r {
            Some(s) => rfc3339_text(millis) == Some(s@),
            None => rfc3339_text(millis) is None,
        },
        r is Some <==> millis_in_range(millis),
{
    match DateTime::from_timestamp_millis(millis) {
        Some(d) => Some(d.to_rfc3339()),
        None => None,
    }
}

/// Whether chrono accepts seconds and nanoseconds as an instant
/// (`DateTime::from_timestamp`): the day of `secs` lies between January 1 of
/// the year -262143 and December 31 of the year 262142 (days -95746129 to
/// 95745399 counted from the common era, January 1 of the year 1 being day
/// 1), and the nanoseconds are below two seconds, reaching one second only in
/// the last second of a minute (a leap second).
pub open spec fn timestamp_in_range(secs: i64, nsecs: u32) -> bool {
    &&& -95746129 <= secs / 86400 + 719163 <= 95745399
    &&& nsecs < 2_000_000_000
    &&& (nsecs >= 1_000_000_000 ==> secs % 60 == 59)
}

/// Decides whether `DateTime::from_timestamp(secs, nsecs)` gives an instant.
/// The contract states chrono's range test (`timestamp_in_range`), as its
/// source makes it: the day number from the Unix epoch day, the
/// common-era day range of its years -262143 to 262142, and the nanosecond
/// test of `NaiveTime::from_num_seconds_from_midnight_opt`.
#[verifier::external_body]
pub(crate) fn timestamp_valid(secs: i64, nsecs: u32) -> (b: bool)
    ensures
        b == timestamp_in_range(secs, nsecs),
{
    DateTime::from_timestamp(secs, nsecs).is_some()
}

} // verus!
