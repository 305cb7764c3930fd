//! Values shared by all formats.
use vstd::prelude::*;

verus! {

/// A calendar date and time of day in UTC, to the second.
#[derive(Debug, Clone, Copy, PartialEq, Eq, Structural)]
pub struct Timestamp {
    pub year: u16,
    pub month: u8,
    pub day: u8,
    pub hour: u8,
    pub minute: u8,
    pub second: u8,
}

/// When an entry was last modified, as its format records it.
#[derive(Debug, Clone, Copy, PartialEq, Eq, Structural)]
pub enum EntryTime {
    /// A calendar date and time of day.
    Civil(Timestamp),
    /// Seconds since the Unix epoch.
    Unix(u32),
}

pub open spec fn is_leap_year(y: int) -> bool {
    (y % 4 == 0 && y % 100 != 0) || y % 400 == 0
}

/// The number of days in month `m` (1 to 12) of year `y`.
pub open spec fn days_in_month(y: int, m: int) -> int {
    if m == 2 {
        if is_leap_year(y) {
            29
        } else {
            28
        }
    } else if m == 4 || m == 6 || m == 9 || m == 11 {
        30
    } else {
        31
    }
}

/// Whether year, month and day name a day of the proleptic Gregorian calendar.
pub open spec fn date_exists(y: int, m: int, d: int) -> bool {
    1 <= m <= 12 && 1 <= d <= days_in_month(y, m)
}

/// Whether hour, minute and second name a time of day.
pub open spec fn time_exists(h: int, mi: int, s: int) -> bool {
    0 <= h < 24 && 0 <= mi < 60 && 0 <= s < 60
}

impl Timestamp {
    /// Whether the timestamp names an existing moment.
    pub open spec fn valid(&self) -> bool {
        date_exists(self.year as int, self.month as int, self.day as int) && time_exists(
            self.hour as int,
            self.minute as int,
            self.second as int,
        )
    }

    /// 1970-01-01T00:00:00.
    pub open spec fn spec_epoch() -> Timestamp {
        Timestamp { year: 1970, month: 1, day: 1, hour: 0, minute: 0, second: 0 }
    }

    /// 1970-01-01T00:00:00, the Unix epoch.
    pub fn epoch() -> (r: Timestamp)
        ensures
            r == Self::spec_epoch(),
    {
        Timestamp { year: 1970, month: 1, day: 1, hour: 0, minute: 0, second: 0 }
    }
}

} // verus!
