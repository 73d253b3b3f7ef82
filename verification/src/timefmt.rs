//! The timestamp formatter: an epoch-seconds instant rendered as the
//! fixed calendar pattern `Mon DD HH:MM` in UTC.

use vstd::prelude::*;
use vstd::string::*;

verus! {

/// The calendar rendering of an epoch instant in the fixed pattern
/// `Mon DD HH:MM` (abbreviated month name, zero-padded day, 24-hour
/// zero-padded time), in UTC. It depends on the instant alone.
pub uninterp spec fn time_label(secs: u64) -> Seq<char>;

/// Every instant at most this many seconds after the epoch converts to
/// a calendar date; the outside calendar only gives up several hundred
/// thousand years out. This bound is around the year 5138.
pub const TIME_IN_RANGE: u64 = 100_000_000_000;

/// Relies on chrono's Utc::timestamp_opt (through DateTime::from_timestamp)
/// and DateTime::format with the pattern `%b %d %H:%M`: the conversion is
/// None only for instants more than about 262 000 years from the common
/// era, and the rendered pattern is three letters of month name, a space,
/// two digits of day, a space and five characters of time, twelve
/// characters in all, a pure function of the instant.
#[verifier::external_body]
fn calendar_label(secs: u64) -> (r: Option<String>)
    ensures
        r is Some ==> r.unwrap()@ == time_label(secs),
        r is Some ==> r.unwrap()@.len() == 12,
        secs <= TIME_IN_RANGE ==> r is Some,
{
    chrono::TimeZone::timestamp_opt(&chrono::Utc, secs as i64, 0)
        .single()
        .map(|d| d.format("%b %d %H:%M").to_string())
}

/// Render a modification instant for the long format. `None` comes
/// only for an instant the calendar cannot represent, which no real
/// filesystem timestamp reaches.
pub fn format_time(secs: u64) -> (r: Option<String>)
    ensures
        r is Some ==> r.unwrap()@ == time_label(secs) && r.unwrap()@.len() == 12,
        secs <= TIME_IN_RANGE ==> r is Some,
{
    calendar_label(secs)
}

} // verus!
