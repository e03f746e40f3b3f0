//! Conversion between the native clock of the foreign format and UTC seconds.

use vstd::prelude::*;
use crate::error::{ExtractionError, extraction_error_text};
use crate::text::{decimal_text, int_text};

verus! {

/// Seconds from 1970-01-01T00:00:00Z to 2001-01-01T00:00:00Z, where the native clock starts.
pub const MAC_TO_UNIX_EPOCH_OFFSET: i64 = 978307200;

/// Earliest Unix second that the calendar can represent (January 1 of year -262143).
pub const MIN_UNIX_SECONDS: i64 = -8334601228800;

/// Latest Unix second that the calendar can represent (December 31 of year 262142, 23:59:59).
pub const MAX_UNIX_SECONDS: i64 = 8210266876799;

pub const SECONDS_PER_DAY: i64 = 86400;

pub const SECONDS_PER_HOUR: i64 = 3600;

/// A Unix second that names a calendar instant.
pub open spec fn is_calendar_instant(secs: int) -> bool {
    MIN_UNIX_SECONDS <= secs <= MAX_UNIX_SECONDS
}

/// Native-clock value of a Unix second.
pub open spec fn unix_to_native(secs: int) -> int {
    secs - MAC_TO_UNIX_EPOCH_OFFSET
}

/// Unix second of a native-clock value.
pub open spec fn native_to_unix(native: int) -> int {
    native + MAC_TO_UNIX_EPOCH_OFFSET
}

/// Hour of the day (0 to 23, UTC) of a Unix second.
pub open spec fn hour_of(secs: int) -> int {
    (secs % 86400) / 3600
}

/// Day number (days since 1970-01-01, UTC) of a Unix second.
pub open spec fn day_of(secs: int) -> int {
    secs / 86400
}

/// Relies on chrono's `DateTime::<Utc>::from_timestamp` with zero nanoseconds: it returns
/// `None` exactly for the seconds outside the calendar's range.
#[verifier::external_body]
fn calendar_instant_exists(secs: i64) -> (r: bool)
    ensures
        r == is_calendar_instant(secs as int),
{
    chrono::DateTime::<chrono::Utc>::from_timestamp(secs, 0).is_some()
}

/// Relies on chrono's `Utc::now` and `DateTime::timestamp`: the current instant, which as a
/// `DateTime` lies within the calendar's range.
#[verifier::external_body]
fn current_unix_seconds() -> (r: i64)
    ensures
        is_calendar_instant(r as int),
{
    chrono::Utc::now().timestamp()
}

/// A UTC instant, kept as whole seconds since the Unix epoch.
#[derive(Clone, Copy, Debug, PartialEq, Eq, Structural)]
pub struct UtcTime {
    pub secs: i64,
}

impl UtcTime {
    pub open spec fn wf(self) -> bool {
        is_calendar_instant(self.secs as int)
    }

    /// The instant `secs` seconds after the Unix epoch, if the calendar holds it.
    pub fn from_timestamp(secs: i64) -> (r: Option<UtcTime>)
        ensures
            r == (if is_calendar_instant(secs as int) {
                Some(UtcTime { secs })
            } else {
                None
            }),
    {
        if calendar_instant_exists(secs) {
            Some(UtcTime { secs })
        } else {
            None
        }
    }

    /// The current instant.
    pub fn now() -> (r: UtcTime)
        ensures
            r.wf(),
    {
        UtcTime { secs: current_unix_seconds() }
    }

    /// Seconds since the Unix epoch.
    pub fn timestamp(&self) -> (r: i64)
        ensures
            r == self.secs,
    {
        self.secs
    }

    /// Hour of the day, in UTC.
    pub fn hour_of_day(&self) -> (r: u8)
        ensures
            r as int == hour_of(self.secs as int),
            r < 24,
    {
        let within_day = self.secs.checked_rem_euclid(SECONDS_PER_DAY).unwrap();
        let hour = within_day / SECONDS_PER_HOUR;
        hour as u8
    }

    /// Days since 1970-01-01, in UTC.
    pub fn day_number(&self) -> (r: i64)
        ensures
            r as int == day_of(self.secs as int),
    {
        self.secs.checked_div_euclid(SECONDS_PER_DAY).unwrap()
    }
}

/// Text of the error for a native-clock value outside the calendar.
pub open spec fn bad_timestamp_text(native: i64) -> Seq<char> {
    "Parse error: "@ + ("Invalid timestamp: "@ + decimal_text(native as int))
}

/// Converts a native-clock value (seconds since 2001-01-01T00:00:00Z) to a UTC instant;
/// a parse error when the result lies outside the calendar.
pub fn mac_to_utc(mac_timestamp: i64) -> (r: Result<UtcTime, ExtractionError>)
    ensures
        match mac_to_utc_spec(mac_timestamp) {
            Some(t) => r == Ok::<UtcTime, ExtractionError>(t),
            None => r is Err && extraction_error_text(r->Err_0) == bad_timestamp_text(mac_timestamp),
        },
{
    let in_range = MIN_UNIX_SECONDS - MAC_TO_UNIX_EPOCH_OFFSET <= mac_timestamp && mac_timestamp
        <= MAX_UNIX_SECONDS - MAC_TO_UNIX_EPOCH_OFFSET;
    let converted = if in_range {
        UtcTime::from_timestamp(mac_timestamp + MAC_TO_UNIX_EPOCH_OFFSET)
    } else {
        None
    };
    match converted {
        Some(t) => Ok(t),
        None => Err(
            ExtractionError::Parse(
                String::from_str("Invalid timestamp: ").concat(int_text(mac_timestamp).as_str()),
            ),
        ),
    }
}

/// Native-clock value of a UTC instant.
pub fn utc_to_mac(t: UtcTime) -> (r: i64)
    requires
        t.wf(),
    ensures
        r as int == unix_to_native(t.secs as int),
{
    t.secs - MAC_TO_UNIX_EPOCH_OFFSET
}

/// Normalizing a native-clock value and converting the instant back gives the value again.
pub proof fn lemma_native_round_trip(native: i64)
    requires
        mac_to_utc_spec(native) is Some,
    ensures
        unix_to_native(mac_to_utc_spec(native)->0.secs as int) == native,
        mac_to_utc_spec(native)->0.wf(),
{
}

/// Converting a calendar instant to the native clock and normalizing the value gives the
/// instant again.
pub proof fn lemma_instant_round_trip(t: UtcTime)
    requires
        t.wf(),
    ensures
        mac_to_utc_spec(unix_to_native(t.secs as int) as i64) == Some(t),
{
}

/// The result of `mac_to_utc`, as a spec function.
pub open spec fn mac_to_utc_spec(native: i64) -> Option<UtcTime> {
    if is_calendar_instant(native_to_unix(native as int)) {
        Some(UtcTime { secs: native_to_unix(native as int) as i64 })
    } else {
        None
    }
}

} // verus!
