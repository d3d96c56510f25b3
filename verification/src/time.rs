//! Conversion of timestamps to calendar dates, and their rendering.
//! The calendar arithmetic itself is done by the `chrono` crate; the
//! rendering around it is verified.

use vstd::prelude::*;

use crate::models::MAX_TIMESTAMP;
use crate::text::{
    dec_rep, format_year, pad_left, signed_pad4, u64_to_string_padded,
};
use chrono::Datelike;
use chrono::Timelike;

verus! {

/// A calendar date and time of day in UTC, to minute precision.
#[derive(Clone, Copy)]
pub struct DateParts {
    pub year: i32,
    pub month: u8,
    pub day: u8,
    pub hour: u8,
    pub minute: u8,
}

/// The proleptic-Gregorian calendar date (year, month, day) in UTC of a
/// moment given in seconds since the epoch.
pub uninterp spec fn civil_ymd(secs: int) -> (int, int, int);

/// Relies on chrono's `DateTime::<Utc>::from_timestamp` and the
/// `Datelike` / `Timelike` accessors: `Some` for every timestamp between
/// year 1 and year 9999; month, day, hour and minute within their
/// documented ranges; and, at and after the epoch, the time of day
/// computed from the seconds of the day, as the source shows.
#[verifier::external_body]
fn civil_from_timestamp(secs: i64) -> (r: Option<DateParts>)
    ensures
        -62135596800 <= secs <= 253402300799 ==> r is Some,
        match r {
            Some(p) => {
                &&& (p.year as int, p.month as int, p.day as int) == civil_ymd(secs as int)
                &&& 1 <= p.month <= 12
                &&& 1 <= p.day <= 31
                &&& p.hour < 24
                &&& p.minute < 60
                &&& secs >= 0 ==> p.hour as int == (secs as int % 86400) / 3600
                    && p.minute as int == ((secs as int % 86400) / 60) % 60
            },
            None => true,
        },
{
    match chrono::DateTime::from_timestamp(secs, 0) {
        Some(dt) => Some(
            DateParts {
                year: dt.year(),
                month: dt.month() as u8,
                day: dt.day() as u8,
                hour: dt.hour() as u8,
                minute: dt.minute() as u8,
            },
        ),
        None => None,
    }
}

/// The signed offset from the epoch, in whole seconds, of a duration
/// measured away from the epoch: negative when the moment lies before
/// the epoch, borrowing one second when a nanosecond part remains.
pub open spec fn epoch_secs(before_epoch: bool, sec: u64, nsec: u32) -> int {
    if !before_epoch {
        sec as int
    } else if nsec == 0 {
        -(sec as int)
    } else {
        -(sec as int) - 1
    }
}

/// Normalizes a duration away from the epoch into a signed second count
/// and a non-negative nanosecond part.
pub fn epoch_offset(before_epoch: bool, sec: u64, nsec: u32) -> (r: (i64, u32))
    requires
        sec <= i64::MAX as u64,
        nsec < 1_000_000_000,
    ensures
        r.0 as int == epoch_secs(before_epoch, sec, nsec),
        r.1 == if before_epoch && nsec != 0 {
            (1_000_000_000 - nsec) as u32
        } else if before_epoch {
            0u32
        } else {
            nsec
        },
{
    if !before_epoch {
        (sec as i64, nsec)
    } else if nsec == 0 {
        (-(sec as i64), 0)
    } else {
        (-(sec as i64) - 1, 1_000_000_000 - nsec)
    }
}

/// Converts a moment, given as a duration away from the epoch, to its
/// calendar date and time of day in UTC.
pub fn system_time_to_date_time(before_epoch: bool, sec: u64, nsec: u32) -> (r: DateParts)
    requires
        nsec < 1_000_000_000,
        !before_epoch ==> sec <= MAX_TIMESTAMP,
        before_epoch ==> sec < 62135596800,
    ensures
        (r.year as int, r.month as int, r.day as int) == civil_ymd(
            epoch_secs(before_epoch, sec, nsec),
        ),
        1 <= r.month <= 12,
        1 <= r.day <= 31,
        r.hour < 24,
        r.minute < 60,
        !before_epoch ==> r.hour as int == (sec as int % 86400) / 3600 && r.minute as int == ((
        sec as int % 86400) / 60) % 60,
{
    let (s, _ns) = epoch_offset(before_epoch, sec, nsec);
    match civil_from_timestamp(s) {
        Some(p) => p,
        None => unreached(),
    }
}

/// The rendering of a timestamp: `YYYY-MM-DD HH:MM UTC`.
pub open spec fn format_time_spec(t: u64) -> Seq<char> {
    signed_pad4(civil_ymd(t as int).0) + "-"@ + pad_left(dec_rep(civil_ymd(t as int).1), '0', 2)
        + "-"@ + pad_left(dec_rep(civil_ymd(t as int).2), '0', 2) + " "@ + pad_left(
        dec_rep((t as int % 86400) / 3600),
        '0',
        2,
    ) + ":"@ + pad_left(dec_rep(((t as int % 86400) / 60) % 60), '0', 2) + " UTC"@
}

/// Renders a timestamp as `YYYY-MM-DD HH:MM UTC`.
pub fn format_time(t: u64) -> (r: String)
    requires
        t <= MAX_TIMESTAMP,
    ensures
        r@ == format_time_spec(t),
{
    let p = system_time_to_date_time(false, t, 0);
    let mut r = format_year(p.year);
    let month = u64_to_string_padded(p.month as u64, 2);
    let day = u64_to_string_padded(p.day as u64, 2);
    let hour = u64_to_string_padded(p.hour as u64, 2);
    let minute = u64_to_string_padded(p.minute as u64, 2);
    r.append("-");
    r.append(month.as_str());
    r.append("-");
    r.append(day.as_str());
    r.append(" ");
    r.append(hour.as_str());
    r.append(":");
    r.append(minute.as_str());
    r.append(" UTC");
    proof {
        assert(r@ =~= format_time_spec(t));
    }
    r
}

} // verus!
