//! Readings of the system clock and their RFC 3339 text. A [`ClockReading`] can
//! only be made by reading the clock, so every timestamp built from one is the
//! text of a time that the clock reported.

use vstd::prelude::*;

verus! {

/// The shape of every RFC 3339 timestamp of a UTC time as `DateTime::to_rfc3339`
/// writes it: at least a four-digit year, month, day, hours, minutes and seconds
/// (`YYYY-MM-DDTHH:MM:SS`), then the offset `+00:00`.
pub open spec fn is_utc_rfc3339(stamp: Seq<char>) -> bool {
    &&& stamp.len() >= 25
    &&& stamp.subrange(stamp.len() - 6, stamp.len() as int) == "+00:00"@
}

/// The time since the Unix epoch that the system clock reported, as whole seconds
/// and the nanoseconds of the last second. Its fields are private: only
/// [`unix_clock`] makes one.
pub struct ClockReading {
    secs: u64,
    nanos: u32,
}

impl ClockReading {
    /// The whole seconds since the Unix epoch.
    pub closed spec fn secs(&self) -> u64 {
        self.secs
    }

    /// The nanoseconds of the last second.
    pub closed spec fn nanos(&self) -> u32 {
        self.nanos
    }
}

/// The time elapsed since the Unix epoch, read from the system clock with
/// `std::time::SystemTime::now()` and `SystemTime::duration_since(UNIX_EPOCH)`, as
/// whole seconds and the nanoseconds of the last second (`Duration::as_secs`,
/// `Duration::subsec_nanos`). `None` when the clock reads before the epoch. Which
/// time it is depends on the clock and is not stated; `subsec_nanos` is documented
/// to be less than one billion.
#[verifier::external_body]
pub(crate) fn unix_clock() -> (reading: Option<ClockReading>)
    ensures
        reading matches Some(r) ==> r.nanos() < 1_000_000_000,
{
    std::time::SystemTime::now().duration_since(std::time::UNIX_EPOCH).ok().map(
        |d| ClockReading { secs: d.as_secs(), nanos: d.subsec_nanos() },
    )
}

/// The RFC 3339 text of a UTC time given as seconds and nanoseconds since the Unix
/// epoch, as `chrono::DateTime::from_timestamp` and `DateTime::to_rfc3339` write it.
pub uninterp spec fn utc_rfc3339_text(secs: i64, nanos: u32) -> Option<Seq<char>>;

/// `chrono::DateTime::from_timestamp(secs, nanos)` followed by
/// `DateTime::to_rfc3339`. `from_timestamp` returns `None` for a time out of its
/// range or an invalid nanosecond count. Every text `to_rfc3339` writes for a UTC
/// time has at least a four-digit year, `-MM-DDTHH:MM:SS`, and then the offset
/// `+00:00` (chrono writes `Z` only when asked to, which `to_rfc3339` does not).
#[verifier::external_body]
fn rfc3339_utc(secs: i64, nanos: u32) -> (stamp: Option<String>)
    ensures
        match stamp {
            Some(text) => utc_rfc3339_text(secs, nanos) == Some(text@) && is_utc_rfc3339(text@),
            None => utc_rfc3339_text(secs, nanos) is None,
        },
{
    chrono::DateTime::from_timestamp(secs, nanos).map(|t| t.to_rfc3339())
}

/// The RFC 3339 UTC text of the time that `reading` holds, exactly as chrono writes
/// that time; `None` when the seconds do not fit a timestamp.
pub fn rfc3339_of_reading(reading: &ClockReading) -> (stamp: Option<String>)
    ensures
        reading.secs() <= i64::MAX ==> match stamp {
            Some(text) => utc_rfc3339_text(reading.secs() as i64, reading.nanos()) == Some(text@),
            None => utc_rfc3339_text(reading.secs() as i64, reading.nanos()) is None,
        },
        reading.secs() > i64::MAX ==> stamp is None,
        stamp matches Some(text) ==> is_utc_rfc3339(text@),
{
    if reading.secs <= 9_223_372_036_854_775_807u64 {
        rfc3339_utc(reading.secs as i64, reading.nanos)
    } else {
        None
    }
}

} // verus!
