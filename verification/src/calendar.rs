//! Calendar dates of timestamps, as chrono writes them.

use vstd::prelude::*;

verus! {

/// What chrono writes for the moment `timestamp` seconds after the Unix
/// epoch, taken as a UTC time, under the strftime pattern `pattern`. It is
/// `None` where chrono has no date for the timestamp or rejects the
/// pattern.
pub uninterp spec fn utc_formatted(timestamp: i64, pattern: Seq<char>) -> Option<Seq<char>>;

/// Formats a Unix timestamp as a UTC time.
///
/// Calls `chrono::DateTime::from_timestamp` with zero nanoseconds and
/// writes the result of `DateTime::format` into a string. Nothing is
/// proved of it: the contract only names what chrono returns, as a
/// function of the timestamp and the pattern.
#[verifier::external_body]
pub(crate) fn format_utc(timestamp: i64, pattern: &str) -> (text: Option<String>)
    ensures
        text.deep_view() == utc_formatted(timestamp, pattern@),
{
    let moment = chrono::DateTime::from_timestamp(timestamp, 0)?;
    let mut text = String::new();
    moment.format(pattern).write_to(&mut text).ok()?;
    Some(text)
}

} // verus!
