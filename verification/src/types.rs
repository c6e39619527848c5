use vstd::prelude::*;

verus! {

/// True when `secs` seconds and `nano` nanoseconds after midnight name a time
/// of day. The nanoseconds reach past one second only during a leap second,
/// which is the last second of a minute.
pub open spec fn is_valid_time(secs: u32, nano: u32) -> bool {
    &&& secs < 86_400
    &&& nano < 2_000_000_000
    &&& nano >= 1_000_000_000 ==> secs % 60 == 59
}

/// Leap years of the proleptic Gregorian calendar (year 0 is 1 BCE).
pub open spec fn is_leap_year(year: int) -> bool {
    year % 4 == 0 && (year % 100 != 0 || year % 400 == 0)
}

/// The number of days of a month of the given year.
pub open spec fn days_in_month(year: int, month: int) -> int {
    if month == 2 {
        if is_leap_year(year) {
            29
        } else {
            28
        }
    } else if month == 4 || month == 6 || month == 9 || month == 11 {
        30
    } else {
        31
    }
}

/// The first and last years that a calendar date may have.
pub open spec fn min_year() -> int {
    -262_143
}

pub open spec fn max_year() -> int {
    262_142
}

/// True when the year, month and day name a day of the proleptic Gregorian
/// calendar within the supported range of years.
pub open spec fn is_valid_date(year: i32, month: u32, day: u32) -> bool {
    &&& min_year() <= year <= max_year()
    &&& 1 <= month <= 12
    &&& 1 <= day <= days_in_month(year as int, month as int)
}

/// Milliseconds after midnight of a time of day, counting a leap second as
/// the continuation of the second before it.
pub open spec fn time_of_day_millis(secs: u32, nano: u32) -> u64 {
    (secs * 1000 + nano / 1_000_000) as u64
}

/// A time of day is less than a day of milliseconds after midnight, and only a
/// leap second reaches into the one second beyond.
pub proof fn lemma_time_of_day_millis_bound(secs: u32, nano: u32)
    requires
        is_valid_time(secs, nano),
    ensures
        time_of_day_millis(secs, nano) < 86_401_000,
        nano < 1_000_000_000 ==> time_of_day_millis(secs, nano) < 86_400_000,
        time_of_day_millis(secs, nano) / 1000 == secs + nano / 1_000_000_000,
{
}

/// The number of leap years from year 0 up to, not including, `year`
/// (negative for years before 0).
pub open spec fn leap_years_before(year: int) -> int {
    (year + 3) / 4 - (year + 99) / 100 + (year + 399) / 400
}

/// The number of days of the months of `year` before `month`.
pub open spec fn days_before_month(year: int, month: int) -> int {
    let common: int = if month == 1 {
        0
    } else if month == 2 {
        31
    } else if month == 3 {
        59
    } else if month == 4 {
        90
    } else if month == 5 {
        120
    } else if month == 6 {
        151
    } else if month == 7 {
        181
    } else if month == 8 {
        212
    } else if month == 9 {
        243
    } else if month == 10 {
        273
    } else if month == 11 {
        304
    } else {
        334
    };
    if month > 2 && is_leap_year(year) {
        common + 1
    } else {
        common
    }
}

/// The number of days from 0000-01-01 to the given date.
pub open spec fn days_from_year_zero(year: int, month: int, day: int) -> int {
    365 * year + leap_years_before(year) + days_before_month(year, month) + day - 1
}

/// The number of days from 1970-01-01 to the given date (negative before it).
pub open spec fn days_since_unix_epoch(year: i32, month: u32, day: u32) -> int {
    days_from_year_zero(year as int, month as int, day as int) - days_from_year_zero(1970, 1, 1)
}

/// The month lengths fill the calendar count without gap or overlap: each
/// month starts where the one before it ends, the months of a year add up to
/// that year's length in the count (366 in a leap year, 365 otherwise), and
/// every month has 28 to 31 days.
pub proof fn lemma_month_lengths_fill_the_year(year: int, month: int)
    requires
        1 <= month <= 12,
    ensures
        days_before_month(year, 1) == 0,
        month < 12 ==> days_before_month(year, month) + days_in_month(year, month)
            == days_before_month(year, month + 1),
        month == 12 ==> days_before_month(year, 12) + days_in_month(year, 12)
            == days_from_year_zero(year + 1, 1, 1) - days_from_year_zero(year, 1, 1),
        days_from_year_zero(year + 1, 1, 1) - days_from_year_zero(year, 1, 1) == if is_leap_year(
            year,
        ) {
            366int
        } else {
            365int
        },
        28 <= days_in_month(year, month) <= 31,
{
    assert(leap_years_before(year + 1) - leap_years_before(year) == if is_leap_year(year) {
        1int
    } else {
        0int
    }) by (nonlinear_arith);
}

/// The first day after the given month, in the count from year 0.
pub open spec fn next_month_start(year: int, month: int) -> int {
    if month < 12 {
        days_from_year_zero(year, month + 1, 1)
    } else {
        days_from_year_zero(year + 1, 1, 1)
    }
}

/// A date is valid exactly when it is a day of its month in the calendar
/// count: within the supported years, a month from 1 to 12, and a day from
/// the first up to, not including, the first day of the next month.
pub proof fn lemma_valid_dates_are_the_days_of_their_month(year: i32, month: u32, day: u32)
    ensures
        is_valid_date(year, month, day) <==> {
            &&& min_year() <= year <= max_year()
            &&& 1 <= month <= 12
            &&& 1 <= day
            &&& days_from_year_zero(year as int, month as int, day as int) < next_month_start(
                year as int,
                month as int,
            )
        },
{
    if 1 <= month <= 12 {
        lemma_month_lengths_fill_the_year(year as int, month as int);
    }
}

/// Milliseconds since 1970-01-01T00:00:00 UTC of a date and a time of day, not
/// counting leap seconds: whole days of 86,400,000 ms, then the milliseconds
/// after midnight.
pub open spec fn unix_epoch_millis(year: i32, month: u32, day: u32, secs: u32, nano: u32) -> int {
    days_since_unix_epoch(year, month, day) * 86_400_000 + time_of_day_millis(secs, nano)
}

/// The Unix epoch is millisecond zero, and away from leap seconds the
/// milliseconds split into whole days since the epoch and the time of day.
pub proof fn lemma_unix_epoch_millis_split(year: i32, month: u32, day: u32, secs: u32, nano: u32)
    requires
        is_valid_date(year, month, day),
        is_valid_time(secs, nano),
    ensures
        unix_epoch_millis(1970, 1, 1, 0, 0) == 0,
        nano < 1_000_000_000 ==> unix_epoch_millis(year, month, day, secs, nano) / 86_400_000
            == days_since_unix_epoch(year, month, day),
        nano < 1_000_000_000 ==> unix_epoch_millis(year, month, day, secs, nano) % 86_400_000
            == time_of_day_millis(secs, nano),
{
    lemma_time_of_day_millis_bound(secs, nano);
    if nano < 1_000_000_000 {
        let d = days_since_unix_epoch(year, month, day);
        let t = time_of_day_millis(secs, nano) as int;
        vstd::arithmetic::div_mod::lemma_fundamental_div_mod_converse(
            d * 86_400_000 + t,
            86_400_000,
            d,
            t,
        );
    }
}

/// Milliseconds since 1970-01-01T00:00:00 UTC of a date and a time of day, by
/// `chrono`'s `NaiveDate::from_ymd_opt`, `NaiveTime::from_num_seconds_from_midnight_opt`,
/// `NaiveDate::and_time`, `NaiveDateTime::and_utc` and `DateTime::timestamp_millis`.
///
/// Trusted: both constructors accept valid values (as `chrono` documents), and
/// the result is the number of non-leap milliseconds since 1970-01-01 UTC, as
/// `chrono` documents `timestamp_millis` (a leap second counts as the second
/// before it, continued).
#[verifier::external_body]
fn utc_timestamp_millis(year: i32, month: u32, day: u32, secs: u32, nano: u32) -> (r: i64)
    requires
        is_valid_date(year, month, day),
        is_valid_time(secs, nano),
    ensures
        r == unix_epoch_millis(year, month, day, secs, nano),
{
    let date = chrono::NaiveDate::from_ymd_opt(year, month, day).unwrap();
    let time = chrono::NaiveTime::from_num_seconds_from_midnight_opt(secs, nano).unwrap();
    date.and_time(time).and_utc().timestamp_millis()
}

/// A UTC time of day, as whole seconds since midnight and nanoseconds.
#[derive(Clone, Copy, Debug)]
pub struct FixTime {
    secs: u32,
    nano: u32,
}

impl FixTime {
    #[verifier::type_invariant]
    spec fn well_formed(self) -> bool {
        is_valid_time(self.secs, self.nano)
    }

    /// Whole seconds since midnight.
    pub closed spec fn spec_secs(self) -> u32 {
        self.secs
    }

    /// Nanoseconds within the second (a leap second adds one billion).
    pub closed spec fn spec_nano(self) -> u32 {
        self.nano
    }

    /// Makes a time of day from seconds since midnight and nanoseconds, or
    /// `None` when they name no time of day.
    pub fn from_num_seconds_from_midnight(secs: u32, nano: u32) -> (r: Option<Self>)
        ensures
            r is Some <==> is_valid_time(secs, nano),
            r matches Some(t) ==> t.spec_secs() == secs && t.spec_nano() == nano,
    {
        if secs >= 86_400 || nano >= 2_000_000_000 || (nano >= 1_000_000_000 && secs % 60 != 59) {
            None
        } else {
            Some(FixTime { secs, nano })
        }
    }

    /// Whole seconds since midnight.
    pub fn num_seconds_from_midnight(&self) -> (r: u32)
        ensures
            r == self.spec_secs(),
            is_valid_time(self.spec_secs(), self.spec_nano()),
    {
        proof {
            use_type_invariant(self);
        }
        self.secs
    }

    /// Nanoseconds within the second.
    pub fn nanosecond(&self) -> (r: u32)
        ensures
            r == self.spec_nano(),
            is_valid_time(self.spec_secs(), self.spec_nano()),
    {
        proof {
            use_type_invariant(self);
        }
        self.nano
    }
}

/// A day of the proleptic Gregorian calendar.
#[derive(Clone, Copy, Debug)]
pub struct FixDate {
    year: i32,
    month: u32,
    day: u32,
}

impl FixDate {
    #[verifier::type_invariant]
    spec fn well_formed(self) -> bool {
        is_valid_date(self.year, self.month, self.day)
    }

    pub closed spec fn spec_year(self) -> i32 {
        self.year
    }

    pub closed spec fn spec_month(self) -> u32 {
        self.month
    }

    pub closed spec fn spec_day(self) -> u32 {
        self.day
    }

    /// Makes a date from the year, month (1 to 12) and day of the month, or
    /// `None` when no such day exists or the year is out of range.
    pub fn from_ymd(year: i32, month: u32, day: u32) -> (r: Option<Self>)
        ensures
            r is Some <==> is_valid_date(year, month, day),
            r matches Some(d) ==> d.spec_year() == year && d.spec_month() == month && d.spec_day()
                == day,
    {
        if year < -262_143 || year > 262_142 || month < 1 || month > 12 || day < 1 {
            return None;
        }
        // A multiple of 400 years moves the year into the naturals without
        // changing its place in the leap-year cycle.
        let shifted: u32 = (year + 400_000) as u32;
        assert(shifted as int == year + 400_000);
        assert(shifted as int % 4 == year as int % 4);
        assert(shifted as int % 100 == year as int % 100);
        assert(shifted as int % 400 == year as int % 400);
        let leap = shifted % 4 == 0 && (shifted % 100 != 0 || shifted % 400 == 0);
        let last: u32 = if month == 2 {
            if leap {
                29
            } else {
                28
            }
        } else if month == 4 || month == 6 || month == 9 || month == 11 {
            30
        } else {
            31
        };
        if day > last {
            None
        } else {
            Some(FixDate { year, month, day })
        }
    }

    pub fn year(&self) -> (r: i32)
        ensures
            r == self.spec_year(),
            is_valid_date(self.spec_year(), self.spec_month(), self.spec_day()),
    {
        proof {
            use_type_invariant(self);
        }
        self.year
    }

    pub fn month(&self) -> (r: u32)
        ensures
            r == self.spec_month(),
            is_valid_date(self.spec_year(), self.spec_month(), self.spec_day()),
    {
        proof {
            use_type_invariant(self);
        }
        self.month
    }

    pub fn day(&self) -> (r: u32)
        ensures
            r == self.spec_day(),
            is_valid_date(self.spec_year(), self.spec_month(), self.spec_day()),
    {
        proof {
            use_type_invariant(self);
        }
        self.day
    }
}

/// A date joined with a time of day.
#[derive(Clone, Copy, Debug)]
pub struct FixDateTime {
    pub date: FixDate,
    pub time: FixTime,
}

/// Compact GPS fix data used by higher-level consumers.
#[derive(Clone, Copy, Debug)]
pub struct GpsFix {
    pub lat_microdeg: i32,
    pub lon_microdeg: i32,
    pub sats: u8,
    /// UTC milliseconds since midnight from NMEA time fields.
    pub utc_time_ms: Option<u64>,
    pub time: Option<FixTime>,
    pub date: Option<FixDate>,
}

/// Milliseconds after midnight of a fix time, if there is one.
pub open spec fn fix_time_millis(time: Option<FixTime>) -> Option<u64> {
    match time {
        Some(t) => Some(time_of_day_millis(t.spec_secs(), t.spec_nano())),
        None => None,
    }
}

impl GpsFix {
    /// Builds a fix from the values parsed from the receiver's sentences:
    /// the position in microdegrees, the number of satellites used, and the
    /// time and date of the fix. There is no fix without a position; a
    /// missing satellite count is zero, and the count is kept modulo 256.
    pub fn from_parts(
        lat_microdeg: Option<i32>,
        lon_microdeg: Option<i32>,
        fix_satellites: Option<u32>,
        time: Option<FixTime>,
        date: Option<FixDate>,
    ) -> (r: Option<GpsFix>)
        ensures
            r is Some <==> lat_microdeg is Some && lon_microdeg is Some,
            r matches Some(fix) ==> {
                &&& fix.lat_microdeg == lat_microdeg.unwrap()
                &&& fix.lon_microdeg == lon_microdeg.unwrap()
                &&& fix.sats == (match fix_satellites {
                    Some(n) => (n % 256) as u8,
                    None => 0u8,
                })
                &&& fix.utc_time_ms == fix_time_millis(time)
                &&& fix.time == time
                &&& fix.date == date
            },
    {
        let utc_time_ms = match time {
            Some(t) => {
                let secs = t.num_seconds_from_midnight();
                let nano = t.nanosecond();
                Some(secs as u64 * 1_000 + (nano / 1_000_000) as u64)
            },
            None => None,
        };
        let lat = match lat_microdeg {
            Some(v) => v,
            None => {
                return None;
            },
        };
        let lon = match lon_microdeg {
            Some(v) => v,
            None => {
                return None;
            },
        };
        let sats_raw: u32 = match fix_satellites {
            Some(n) => n,
            None => 0,
        };
        let sats: u8 = (sats_raw % 256) as u8;
        Some(GpsFix { lat_microdeg: lat, lon_microdeg: lon, sats, utc_time_ms, time, date })
    }

    /// Combines date and time information to full timestamp, if available
    pub fn get_timestamp(&self) -> (r: Option<FixDateTime>)
        ensures
            r is Some <==> self.date is Some && self.time is Some,
            r matches Some(dt) ==> dt.date == self.date.unwrap() && dt.time == self.time.unwrap(),
    {
        match (self.date, self.time) {
            (Some(date), Some(time)) => Some(FixDateTime { date, time }),
            _ => None,
        }
    }

    /// Milliseconds since the Unix epoch of the fix's date and time, if both
    /// are known.
    pub fn get_timestamp_millis(&self) -> (r: Option<i64>)
        ensures
            r == (match (self.date, self.time) {
                (Some(d), Some(t)) => Some(
                    unix_epoch_millis(
                        d.spec_year(),
                        d.spec_month(),
                        d.spec_day(),
                        t.spec_secs(),
                        t.spec_nano(),
                    ) as i64,
                ),
                _ => None::<i64>,
            }),
    {
        match self.get_timestamp() {
            Some(dt) => Some(
                utc_timestamp_millis(
                    dt.date.year(),
                    dt.date.month(),
                    dt.date.day(),
                    dt.time.num_seconds_from_midnight(),
                    dt.time.nanosecond(),
                ),
            ),
            None => None,
        }
    }
}

/// The timestamp of a fix agrees with its time of day: where both date and
/// time are known and `utc_time_ms` was derived from the time (as
/// `GpsFix::from_parts` does), the timestamp is the whole days since the
/// epoch plus `utc_time_ms`.
pub proof fn lemma_timestamp_agrees_with_time_of_day(fix: GpsFix)
    requires
        fix.utc_time_ms == fix_time_millis(fix.time),
        fix.date is Some,
        fix.time is Some,
    ensures
        ({
            let d = fix.date.unwrap();
            unix_epoch_millis(
                d.spec_year(),
                d.spec_month(),
                d.spec_day(),
                fix.time.unwrap().spec_secs(),
                fix.time.unwrap().spec_nano(),
            ) == days_since_unix_epoch(d.spec_year(), d.spec_month(), d.spec_day()) * 86_400_000
                + fix.utc_time_ms.unwrap()
        }),
{
}

/// Internal states used by the recovery-oriented FSM.
#[derive(Clone, Copy, Debug, Eq, PartialEq, Structural)]
pub enum GpsState {
    Reset,
    SetupConnection,
    Running,
    Recover,
}

/// Unified error type for GPS IO, parsing, and setup.
#[derive(Debug)]
pub enum GpsError<IO> {
    IO(IO),
    Utf8,
    NotReady,
    BaudNotDetected,
    Timeout,
    BuildCommand,
}

} // verus!
