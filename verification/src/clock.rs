//! Points in time, as `chrono` reads and writes them.

use vstd::prelude::*;

verus! {

/// The seconds and milliseconds since the epoch of a time that
/// `chrono::DateTime::parse_from_rfc3339` accepts.
pub uninterp spec fn rfc3339_moment(text: Seq<char>) -> Option<(i64, i64)>;

/// The seconds since the epoch of a time of day without a zone, taken as UTC, that
/// `chrono::NaiveDateTime::parse_from_str` accepts.
pub uninterp spec fn civil_seconds(text: Seq<char>, format: Seq<char>) -> Option<i64>;

/// What `chrono::NaiveDate::parse_from_str` has to say against a date.
pub uninterp spec fn date_complaint(text: Seq<char>, format: Seq<char>) -> Option<Seq<char>>;

/// `chrono::DateTime::parse_from_rfc3339`, then `timestamp` and
/// `timestamp_millis`: both depend on the text alone, and nothing comes back
/// where the text is refused.
#[verifier::external_body]
pub(crate) fn parse_rfc3339(text: &str) -> (r: Option<(i64, i64)>)
    ensures
        r == rfc3339_moment(text@),
{
    chrono::DateTime::parse_from_rfc3339(text).ok().map(
        |moment| (moment.timestamp(), moment.timestamp_millis()),
    )
}

/// `chrono::NaiveDateTime::parse_from_str`, then `timestamp` of that time in
/// UTC: it depends on the text and the format alone, and nothing comes back
/// where the text is refused.
#[verifier::external_body]
pub(crate) fn parse_civil(text: &str, format: &str) -> (r: Option<i64>)
    ensures
        r == civil_seconds(text@, format@),
{
    chrono::NaiveDateTime::parse_from_str(text, format).ok().map(
        |moment| moment.and_utc().timestamp(),
    )
}

/// `chrono::NaiveDate::parse_from_str`: the text that its error displays, and
/// nothing where the date is accepted. Both depend on the arguments alone.
#[verifier::external_body]
pub(crate) fn check_date(text: &str, format: &str) -> (r: Option<String>)
    ensures
        match r {
            Some(complaint) => date_complaint(text@, format@) == Some(complaint@),
            None => date_complaint(text@, format@) is None,
        },
{
    chrono::NaiveDate::parse_from_str(text, format).err().map(|error| error.to_string())
}

} // verus!
