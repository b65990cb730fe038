//! Timestamps of the history table: RFC 3339 text, to and from instants.

use vstd::prelude::*;
use std::time::{SystemTime, UNIX_EPOCH};
use time::format_description::well_known::Rfc3339;
use time::OffsetDateTime;

verus! {

/// The instant that an RFC 3339 timestamp denotes, in nanoseconds since the Unix
/// epoch, or `None` where the text is no RFC 3339 timestamp, as the crate `time`
/// reads it.
pub uninterp spec fn rfc3339_instant(text: Seq<char>) -> Option<i128>;

/// The RFC 3339 timestamp in UTC of an instant given in nanoseconds since the Unix
/// epoch, as the crate `time` writes it, or `None` where the instant has none: its
/// year lies outside 0 to 9999.
pub uninterp spec fn rfc3339_text(nanos: i128) -> Option<Seq<char>>;

/// Whether `text` is a timestamp that the reader of history rows accepts.
pub open spec fn is_timestamp(text: Seq<char>) -> bool {
    rfc3339_instant(text) is Some
}

/// Calls `time::OffsetDateTime::parse` with the `Rfc3339` description, and
/// `unix_timestamp_nanos` on what it gives.
///
/// Trusted: the result is a function of the text alone, named `rfc3339_instant`.
#[verifier::external_body]
fn rfc3339_to_nanos(text: &str) -> (r: Option<i128>)
    ensures
        r == rfc3339_instant(text@),
{
    match OffsetDateTime::parse(text, &Rfc3339) {
        Ok(instant) => Some(instant.unix_timestamp_nanos()),
        Err(_) => None,
    }
}

/// Calls `time::OffsetDateTime::from_unix_timestamp_nanos`, and `format` with the
/// `Rfc3339` description on what it gives. Either may refuse, which gives `None`.
///
/// Trusted: the result is a function of the instant alone, named `rfc3339_text`, and
/// what is written is a timestamp that `parse` with the same description reads.
#[verifier::external_body]
fn nanos_to_rfc3339(nanos: i128) -> (r: Option<String>)
    ensures
        r is Some <==> rfc3339_text(nanos) is Some,
        r matches Some(text) ==> rfc3339_text(nanos) == Some(text@) && rfc3339_instant(text@)
            is Some,
{
    match OffsetDateTime::from_unix_timestamp_nanos(nanos) {
        Ok(instant) => match instant.format(&Rfc3339) {
            Ok(text) => Some(text),
            Err(_) => None,
        },
        Err(_) => None,
    }
}

/// Calls `std::time::SystemTime::now`, and gives the distance of that time from the
/// Unix epoch in nanoseconds: `Ok` at or after the epoch, `Err` before it.
///
/// Trusted, and nothing is claimed of the result: it depends on the clock.
#[verifier::external_body]
fn system_time() -> (r: Result<u128, u128>) {
    match SystemTime::now().duration_since(UNIX_EPOCH) {
        Ok(since) => Ok(since.as_nanos()),
        Err(before) => Err(before.duration().as_nanos()),
    }
}

/// The instant, in nanoseconds since the Unix epoch, that lies `distance` from the
/// epoch: after it for `Ok`, before it for `Err`.
pub open spec fn instant_at(distance: Result<u128, u128>) -> Option<i128> {
    match distance {
        Ok(since) => if since <= i128::MAX {
            Some(since as i128)
        } else {
            None
        },
        Err(before) => if before <= i128::MAX {
            Some((-(before as int)) as i128)
        } else {
            None
        },
    }
}

/// The instant that lies `distance` from the Unix epoch, or `None` where it does not
/// fit.
pub fn instant_of(distance: Result<u128, u128>) -> (r: Option<i128>)
    ensures
        r == instant_at(distance),
{
    match distance {
        Ok(since) => if since <= i128::MAX as u128 {
            Some(since as i128)
        } else {
            None
        },
        Err(before) => if before <= i128::MAX as u128 {
            Some(-(before as i128))
        } else {
            None
        },
    }
}

/// Reads an RFC 3339 timestamp as nanoseconds since the Unix epoch.
pub fn parse_timestamp(text: &str) -> (r: Option<i128>)
    ensures
        r == rfc3339_instant(text@),
{
    rfc3339_to_nanos(text)
}

/// Writes an instant, given in nanoseconds since the Unix epoch, as an RFC 3339
/// timestamp in UTC, or gives `None` where it has none. What is written can be read
/// back as a timestamp.
pub fn timestamp_of(nanos: i128) -> (r: Option<String>)
    ensures
        r is Some <==> rfc3339_text(nanos) is Some,
        r matches Some(text) ==> rfc3339_text(nanos) == Some(text@) && is_timestamp(text@),
{
    nanos_to_rfc3339(nanos)
}

/// The current time in UTC as an RFC 3339 timestamp, or `None` where the clock
/// cannot be written so. What is given is the timestamp of some instant, and can be
/// read back as a timestamp.
pub fn current_timestamp() -> (r: Option<String>)
    ensures
        r matches Some(text) ==> is_timestamp(text@) && exists|nanos: i128| #[trigger]
            rfc3339_text(nanos) == Some(text@),
{
    match instant_of(system_time()) {
        Some(nanos) => timestamp_of(nanos),
        None => None,
    }
}

} // verus!
