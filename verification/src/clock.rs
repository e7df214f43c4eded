//! The current time and how it is written.

use chrono::{DateTime, SecondsFormat, Utc};
use vstd::prelude::*;

verus! {

/// The last second, counted from the start of 1970, that a point in time may have: the end of
/// the year 262142.
pub const LAST_SECOND: i64 = 8_210_266_876_799;

/// The text of a point in time after RFC 3339, in UTC with milliseconds and a `Z`.
pub uninterp spec fn rfc3339_millis(secs: int, nanos: int) -> Seq<char>;

/// Whether a number of seconds since the start of 1970, and of nanoseconds on top, is a point
/// in time.
pub open spec fn is_instant(secs: int, nanos: int) -> bool {
    0 <= secs <= LAST_SECOND && 0 <= nanos < 1_000_000_000
}

/// Whether `text` is some point in time after RFC 3339.
pub open spec fn is_timestamp(text: Seq<char>) -> bool {
    exists|secs: int, nanos: int|
        is_instant(secs, nanos) && text == #[trigger] rfc3339_millis(secs, nanos)
}

/// Whether the system's clock gave this point in time when it was asked.
pub closed spec fn clock_showed(secs: int, nanos: int) -> bool {
    exists|now: (i64, u32)| #[trigger]
        call_ensures(utc_now, (), now) && now.0 == secs && now.1 == nanos
}

/// Whether `text` is a point in time that the system's clock gave, after RFC 3339.
pub open spec fn is_time_of_clock(text: Seq<char>) -> bool {
    exists|secs: int, nanos: int|
        clock_showed(secs, nanos) && text == #[trigger] rfc3339_millis(secs, nanos)
}

/// Whether `text` holds only the characters of an RFC 3339 time in UTC, and ends in `Z`.
pub open spec fn is_timestamp_text(text: Seq<char>) -> bool {
    &&& 24 <= text.len() <= 32
    &&& text.last() == 'Z'
    &&& forall|i: int|
        0 <= i < text.len() ==> {
            let c = #[trigger] text[i];
            ('0' <= c && c <= '9') || c == '-' || c == '+' || c == ':' || c == '.' || c == 'T'
                || c == 'Z'
        }
}

/// Calls `Utc::now`, and takes the result apart into seconds since the start of 1970 and
/// nanoseconds. Nothing more is known of it. It panics where the system's clock is set before
/// 1970 or behind the last point in time.
#[verifier::external_body]
pub(crate) fn utc_now() -> (now: (i64, u32))
    ensures
        is_instant(now.0 as int, now.1 as int),
{
    let now = Utc::now();
    (now.timestamp(), now.timestamp_subsec_nanos())
}

/// Calls `DateTime::to_rfc3339_opts` with milliseconds and `Z`, on the point in time that
/// `DateTime::from_timestamp` makes of the seconds and nanoseconds. The text depends on these
/// alone, and has the characters of such a time, from `1970-01-01T00:00:00.000Z` to the years
/// with a sign and six digits.
#[verifier::external_body]
fn format_millis(secs: i64, nanos: u32) -> (text: String)
    requires
        is_instant(secs as int, nanos as int),
    ensures
        text@ == rfc3339_millis(secs as int, nanos as int),
        is_timestamp_text(text@),
{
    let instant: DateTime<Utc> = DateTime::from_timestamp(secs, nanos).expect("within range");
    instant.to_rfc3339_opts(SecondsFormat::Millis, true)
}

/// The text of the given point in time.
pub fn timestamp_at(secs: i64, nanos: u32) -> (text: String)
    requires
        is_instant(secs as int, nanos as int),
    ensures
        text@ == rfc3339_millis(secs as int, nanos as int),
        is_timestamp(text@),
        is_timestamp_text(text@),
{
    format_millis(secs, nanos)
}

/// The text of the current time.
pub fn timestamp() -> (text: String)
    ensures
        is_time_of_clock(text@),
        is_timestamp(text@),
        is_timestamp_text(text@),
{
    let (secs, nanos) = utc_now();
    assert(call_ensures(utc_now, (), (secs, nanos)));
    assert(clock_showed(secs as int, nanos as int));
    timestamp_at(secs, nanos)
}

/// The text of the current time is that of an instant which the system's clock gave in answer to
/// the call, and of no other.
pub(crate) proof fn law_timestamp_is_the_time_of_the_clock(text: String)
    requires
        call_ensures(timestamp, (), text),
    ensures
        exists|secs: i64, nanos: u32| #[trigger]
            call_ensures(utc_now, (), (secs, nanos)) && text@ == rfc3339_millis(
                secs as int,
                nanos as int,
            ),
{
    lemma_time_of_clock(text@);
}

/// What `is_time_of_clock` says in terms of the clock's answers.
pub(crate) proof fn lemma_time_of_clock(text: Seq<char>)
    requires
        is_time_of_clock(text),
    ensures
        exists|secs: i64, nanos: u32| #[trigger]
            call_ensures(utc_now, (), (secs, nanos)) && text == rfc3339_millis(
                secs as int,
                nanos as int,
            ),
{
    let (secs, nanos) = choose|secs: int, nanos: int|
        clock_showed(secs, nanos) && text == #[trigger] rfc3339_millis(secs, nanos);
    let now = choose|now: (i64, u32)| #[trigger]
        call_ensures(utc_now, (), now) && now.0 == secs && now.1 == nanos;
    assert(call_ensures(utc_now, (), (now.0, now.1)));
}

} // verus!
