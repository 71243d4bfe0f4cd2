//! The system clock, read once per entry creation.
//!
//! The only thing the library takes from the environment is the current UTC
//! time. The reading comes back as plain calendar and clock fields; the
//! verified [`Timestamp::from_reading`] then says exactly what timestamp
//! every possible reading becomes.

use vstd::prelude::*;
use chrono::{Datelike, Timelike};
use crate::date::{Date, Timestamp, days_in_month, spec_days_in_month};

verus! {

/// Plain calendar and clock fields of one clock reading.
pub struct ClockReading {
    pub year: i32,
    pub month: u32,
    pub day: u32,
    pub hour: u32,
    pub minute: u32,
    pub second: u32,
}

/// A reading the library can represent exactly: a four-digit year, an
/// existing calendar date, and a time of day within bounds.
pub open spec fn spec_reading_ok(r: ClockReading) -> bool {
    &&& 0 <= r.year <= 9999
    &&& 1 <= r.month <= 12
    &&& 1 <= r.day
    &&& r.day as int <= spec_days_in_month(r.year as int, r.month as int)
    &&& r.hour < 24
    &&& r.minute < 60
    &&& r.second < 60
}

/// The timestamp a representable reading names, field for field.
pub open spec fn spec_reading_timestamp(r: ClockReading) -> Timestamp {
    Timestamp {
        date: Date { year: r.year as u16, month: r.month as u8, day: r.day as u8 },
        hour: r.hour as u8,
        minute: r.minute as u8,
        second: r.second as u8,
    }
}

/// The fallback instant for a reading outside the representable range.
pub open spec fn spec_epoch_timestamp() -> Timestamp {
    Timestamp { date: Date { year: 1970, month: 1, day: 1 }, hour: 0, minute: 0, second: 0 }
}

/// Relies on `chrono::Utc::now` and the `chrono::Datelike` / `chrono::Timelike`
/// accessors on the naive UTC date-time: month is 1..=12, day is 1..=31, hour
/// is 0..=23, minute and second are 0..=59. Nothing is promised of the year:
/// the reading depends on the clock.
#[verifier::external_body]
fn utc_now_reading() -> (r: ClockReading)
    ensures
        1 <= r.month <= 12,
        1 <= r.day <= 31,
        r.hour < 24,
        r.minute < 60,
        r.second < 60,
{
    let t = chrono::Utc::now().naive_utc();
    ClockReading {
        year: t.year(),
        month: t.month(),
        day: t.day(),
        hour: t.hour(),
        minute: t.minute(),
        second: t.second(),
    }
}

impl Timestamp {
    /// The timestamp for one clock reading: a representable reading maps
    /// field for field; anything else (a year before 0 or after 9999, or an
    /// inconsistent date or time) falls back to the epoch instant rather
    /// than panicking.
    pub fn from_reading(r: &ClockReading) -> (t: Timestamp)
        ensures
            t.valid(),
            spec_reading_ok(*r) ==> t == spec_reading_timestamp(*r),
            !spec_reading_ok(*r) ==> t == spec_epoch_timestamp(),
    {
        if 0 <= r.year && r.year <= 9999 && 1 <= r.month && r.month <= 12 && 1 <= r.day
            && r.day <= 31 && r.hour < 24 && r.minute < 60 && r.second < 60 {
            let year = r.year as u16;
            let month = r.month as u8;
            let day = r.day as u8;
            if day <= days_in_month(year, month) {
                return Timestamp {
                    date: Date { year, month, day },
                    hour: r.hour as u8,
                    minute: r.minute as u8,
                    second: r.second as u8,
                };
            }
        }
        Timestamp { date: Date { year: 1970, month: 1, day: 1 }, hour: 0, minute: 0, second: 0 }
    }

    /// The current UTC time as a well-formed timestamp: one clock reading,
    /// mapped by [`Timestamp::from_reading`]. What the reading holds depends
    /// on the clock, so well-formedness is all that can be promised here.
    pub fn now() -> (t: Timestamp)
        ensures
            t.valid(),
    {
        Timestamp::from_reading(&utc_now_reading())
    }
}

} // verus!
