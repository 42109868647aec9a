//! Time as the engine sees it: the Unix time of an event, read from the
//! timestamp that came with it, and the time of the machine's clock.

use crate::error::EngineError;
use chrono::{DateTime, ParseError, Utc};
use vstd::prelude::*;

verus! {

/// The error with which chrono refuses a timestamp.
#[verifier::external_type_specification]
#[verifier::external_body]
pub struct ExParseError(ParseError);

/// The Unix time, in seconds, that chrono reads from `text` as a date and
/// time in UTC, or `None` where it refuses the text.
pub uninterp spec fn parsed_timestamp(text: Seq<char>) -> Option<i64>;

/// Calls chrono's `FromStr` for `DateTime<Utc>`, which accepts a relaxed
/// form of RFC 3339, and hands out the seconds that `DateTime::timestamp`
/// gives for what was read. The parser reads nothing but the text, so its
/// answer is named after the text alone.
#[verifier::external_body]
fn read_timestamp(text: &str) -> (r: Result<i64, ParseError>)
    ensures
        match r {
            Ok(seconds) => parsed_timestamp(text@) == Some(seconds),
            Err(_) => parsed_timestamp(text@) is None,
        },
{
    match text.parse::<DateTime<Utc>>() {
        Ok(read) => Ok(read.timestamp()),
        Err(e) => Err(e),
    }
}

/// Calls chrono's `Utc::now` and hands out its `timestamp`: the seconds
/// that the machine's clock counts since the Unix epoch, which chrono takes
/// from a duration and which are therefore never negative. Two calls may
/// differ.
#[verifier::external_body]
pub(crate) fn unix_now() -> (now: i64)
    ensures
        now >= 0,
{
    Utc::now().timestamp()
}

/// The Unix time of an event, from the timestamp that came with it. A
/// timestamp that cannot be read is refused.
pub fn event_time(timestamp: &str) -> (r: Result<i64, EngineError>)
    ensures
        match parsed_timestamp(timestamp@) {
            Some(seconds) => r == Ok::<i64, EngineError>(seconds),
            None => r == Err::<i64, EngineError>(EngineError::InvalidInput),
        },
{
    match read_timestamp(timestamp) {
        Ok(seconds) => Ok(seconds),
        Err(_) => Err(EngineError::InvalidInput),
    }
}

} // verus!
