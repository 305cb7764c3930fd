//! MS-DOS packed dates and times.
use crate::types::{date_exists, time_exists, Timestamp};
use vstd::prelude::*;

verus! {

/// Relies on chrono::NaiveDate::from_ymd_opt, which returns `None` exactly
/// when the calendar day does not exist or the month or day is invalid; years
/// up to 9999 lie within its range.
#[verifier::external_body]
fn calendar_date_exists(year: u16, month: u8, day: u8) -> (r: bool)
    requires
        year <= 9999,
    ensures
        r == date_exists(year as int, month as int, day as int),
{
    chrono::NaiveDate::from_ymd_opt(year as i32, month as u32, day as u32).is_some()
}

/// Relies on chrono::NaiveTime::from_hms_opt, which returns `None` exactly on
/// an invalid hour, minute or second.
#[verifier::external_body]
fn clock_time_exists(hour: u8, minute: u8, second: u8) -> (r: bool)
    ensures
        r == time_exists(hour as int, minute as int, second as int),
{
    chrono::NaiveTime::from_hms_opt(hour as u32, minute as u32, second as u32).is_some()
}

/// The fields that a packed MS-DOS date and time hold, before any check.
pub open spec fn dos_fields(date: u16, time: u16) -> Timestamp {
    Timestamp {
        year: (date / 512 + 1980) as u16,
        month: ((date / 32) % 16) as u8,
        day: (date % 32) as u8,
        hour: (time / 2048) as u8,
        minute: ((time / 32) % 64) as u8,
        second: ((time % 32) * 2) as u8,
    }
}

/// The moment a packed MS-DOS date and time stand for; the Unix epoch where
/// they name no existing moment.
pub open spec fn dos_timestamp(date: u16, time: u16) -> Timestamp {
    if dos_fields(date, time).valid() {
        dos_fields(date, time)
    } else {
        Timestamp::spec_epoch()
    }
}

/// Whether MS-DOS packing can hold `t`, its seconds halved and rounded down.
pub open spec fn dos_representable(t: Timestamp) -> bool {
    1980 <= t.year <= 2107 && t.month < 16 && t.day < 32 && t.hour < 32 && t.minute < 64
        && t.second < 64
}

/// The packed date of `t`.
pub open spec fn dos_date(t: Timestamp) -> u16 {
    ((t.year - 1980) * 512 + t.month * 32 + t.day) as u16
}

/// The packed time of `t`.
pub open spec fn dos_time(t: Timestamp) -> u16 {
    (t.hour * 2048 + t.minute * 32 + t.second / 2) as u16
}

/// Decodes a packed MS-DOS `date` and `time`.
pub fn parse(date: u16, time: u16) -> (r: Timestamp)
    ensures
        r == dos_timestamp(date, time),
{
    let t = Timestamp {
        year: date / 512 + 1980,
        month: ((date / 32) % 16) as u8,
        day: (date % 32) as u8,
        hour: (time / 2048) as u8,
        minute: ((time / 32) % 64) as u8,
        second: ((time % 32) * 2) as u8,
    };
    if calendar_date_exists(t.year, t.month, t.day) && clock_time_exists(t.hour, t.minute, t.second) {
        t
    } else {
        Timestamp::epoch()
    }
}

/// Packs `datetime` as an MS-DOS `(date, time)` pair.
pub fn serialize(datetime: &Timestamp) -> (r: (u16, u16))
    requires
        dos_representable(*datetime),
    ensures
        r == (dos_date(*datetime), dos_time(*datetime)),
{
    let date = (datetime.year - 1980) * 512 + datetime.month as u16 * 32 + datetime.day as u16;
    let time = datetime.hour as u16 * 2048 + datetime.minute as u16 * 32 + datetime.second as u16 / 2;
    (date, time)
}

/// Packing a representable, existing moment with an even second and decoding
/// it gives it back.
pub proof fn lemma_dos_round_trip(t: Timestamp)
    requires
        dos_representable(t),
        t.second % 2 == 0,
        t.valid(),
    ensures
        dos_timestamp(dos_date(t), dos_time(t)) == t,
{
    let date = dos_date(t);
    let time = dos_time(t);
    let y = (t.year - 1980) as int;
    let m = t.month as int;
    let d = t.day as int;
    let h = t.hour as int;
    let mi = t.minute as int;
    let s2 = (t.second / 2) as int;
    assert(date as int == y * 512 + m * 32 + d);
    assert(time as int == h * 2048 + mi * 32 + s2);
    assert((y * 512 + m * 32 + d) / 512 == y && ((y * 512 + m * 32 + d) / 32) % 16 == m && (y
        * 512 + m * 32 + d) % 32 == d) by (nonlinear_arith)
        requires
            0 <= y < 128,
            0 <= m < 16,
            0 <= d < 32,
    ;
    assert((h * 2048 + mi * 32 + s2) / 2048 == h && ((h * 2048 + mi * 32 + s2) / 32) % 64 == mi
        && (h * 2048 + mi * 32 + s2) % 32 == s2) by (nonlinear_arith)
        requires
            0 <= h < 24,
            0 <= mi < 64,
            0 <= s2 < 32,
    ;
    assert(dos_fields(date, time) == t);
}

} // verus!
