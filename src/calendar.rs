//! Proleptic Gregorian dates and times of day, with day and nanosecond counts.
use vstd::arithmetic::div_mod::{lemma_fundamental_div_mod, lemma_fundamental_div_mod_converse};
use vstd::prelude::*;

verus! {

/// Nanoseconds in one second.
pub const NANOS_PER_SECOND: u64 = 1_000_000_000;

/// Nanoseconds in one day.
pub const NANOS_PER_DAY: u64 = 86_400_000_000_000;

/// Day number (counted from 0001-01-01) of the first day after 9999-12-31.
pub const DAY_NUMBER_END: u32 = 3_652_059;

/// Days in a cycle of 400 Gregorian years.
pub const DAYS_PER_400_YEARS: u32 = 146_097;

/// A date of the proleptic Gregorian calendar, 0001-01-01 to 9999-12-31.
#[derive(Clone, Copy, Debug, PartialEq, Eq, Structural)]
pub struct CalendarDate {
    pub year: u16,
    pub month: u8,
    pub day: u8,
}

/// A time of day, with nanosecond resolution.
#[derive(Clone, Copy, Debug, PartialEq, Eq, Structural)]
pub struct TimeOfDay {
    pub hour: u8,
    pub minute: u8,
    pub second: u8,
    pub nanosecond: u32,
}

/// A date together with a time of day.
#[derive(Clone, Copy, Debug, PartialEq, Eq, Structural)]
pub struct CalendarDateTime {
    pub date: CalendarDate,
    pub time: TimeOfDay,
}

/// A UTC instant together with a UTC offset in minutes; the local wall-clock
/// time is the instant plus the offset.
#[derive(Clone, Copy, Debug, PartialEq, Eq, Structural)]
pub struct OffsetDateTime {
    pub utc: CalendarDateTime,
    pub offset_minutes: i16,
}

pub open spec fn is_leap(y: int) -> bool {
    y % 4 == 0 && (y % 100 != 0 || y % 400 == 0)
}

pub open spec fn year_len(y: int) -> int {
    if is_leap(y) {
        366
    } else {
        365
    }
}

pub open spec fn month_len(y: int, m: int) -> int {
    if m == 2 {
        if is_leap(y) {
            29
        } else {
            28
        }
    } else if m == 4 || m == 6 || m == 9 || m == 11 {
        30
    } else {
        31
    }
}

/// Days of year `y` that precede the first of month `m` (1..12).
pub open spec fn days_before_month(y: int, m: int) -> int {
    let l: int = if is_leap(y) {
        1
    } else {
        0
    };
    if m <= 1 {
        0
    } else if m == 2 {
        31
    } else if m == 3 {
        59 + l
    } else if m == 4 {
        90 + l
    } else if m == 5 {
        120 + l
    } else if m == 6 {
        151 + l
    } else if m == 7 {
        181 + l
    } else if m == 8 {
        212 + l
    } else if m == 9 {
        243 + l
    } else if m == 10 {
        273 + l
    } else if m == 11 {
        304 + l
    } else {
        334 + l
    }
}

/// Days from 0001-01-01 to the first of January of year `y`.
pub open spec fn days_before_year(y: int) -> int {
    365 * (y - 1) + (y - 1) / 4 - (y - 1) / 100 + (y - 1) / 400
}

pub open spec fn valid_ymd(y: int, m: int, d: int) -> bool {
    1 <= y <= 9999 && 1 <= m <= 12 && 1 <= d <= month_len(y, m)
}

impl CalendarDate {
    pub open spec fn wf(&self) -> bool {
        valid_ymd(self.year as int, self.month as int, self.day as int)
    }
}

impl TimeOfDay {
    pub open spec fn wf(&self) -> bool {
        self.hour < 24 && self.minute < 60 && self.second < 60 && self.nanosecond
            < 1_000_000_000
    }
}

impl CalendarDateTime {
    pub open spec fn wf(&self) -> bool {
        self.date.wf() && self.time.wf()
    }
}

/// Days from 0001-01-01 to `d`.
pub open spec fn day_number(d: CalendarDate) -> int {
    days_before_year(d.year as int) + days_before_month(d.year as int, d.month as int) + d.day
        - 1
}

/// The valid date whose day number is `n`.
pub open spec fn date_of_day(n: int) -> CalendarDate {
    choose|d: CalendarDate| d.wf() && day_number(d) == n
}

/// Nanoseconds from midnight to `t`.
pub open spec fn nanos_of_day(t: TimeOfDay) -> int {
    ((t.hour * 60 + t.minute) * 60 + t.second) * 1_000_000_000 + t.nanosecond
}

/// The time of day `n` nanoseconds after midnight.
pub open spec fn time_of_nanos(n: int) -> TimeOfDay {
    TimeOfDay {
        hour: (n / 3_600_000_000_000) as u8,
        minute: ((n / 60_000_000_000) % 60) as u8,
        second: ((n / 1_000_000_000) % 60) as u8,
        nanosecond: (n % 1_000_000_000) as u32,
    }
}

pub proof fn lemma_year_step(y: int)
    requires
        y >= 1,
    ensures
        days_before_year(y + 1) == days_before_year(y) + year_len(y),
{
    let k = y - 1;
    lemma_fundamental_div_mod_converse(k, 4, k / 4, k % 4);
    lemma_fundamental_div_mod_converse(k, 100, k / 100, k % 100);
    lemma_fundamental_div_mod_converse(k, 400, k / 400, k % 400);
    if k % 4 == 3 {
        lemma_fundamental_div_mod_converse(y, 4, k / 4 + 1, 0);
    } else {
        lemma_fundamental_div_mod_converse(y, 4, k / 4, k % 4 + 1);
    }
    if k % 100 == 99 {
        lemma_fundamental_div_mod_converse(y, 100, k / 100 + 1, 0);
    } else {
        lemma_fundamental_div_mod_converse(y, 100, k / 100, k % 100 + 1);
    }
    if k % 400 == 399 {
        lemma_fundamental_div_mod_converse(y, 400, k / 400 + 1, 0);
    } else {
        lemma_fundamental_div_mod_converse(y, 400, k / 400, k % 400 + 1);
    }
}

pub proof fn lemma_cycle_step(y: int)
    requires
        y >= 1,
    ensures
        days_before_year(y + 400) == days_before_year(y) + 146_097,
{
    let k = y - 1;
    lemma_fundamental_div_mod_converse(k, 4, k / 4, k % 4);
    lemma_fundamental_div_mod_converse(k, 100, k / 100, k % 100);
    lemma_fundamental_div_mod_converse(k, 400, k / 400, k % 400);
    lemma_fundamental_div_mod_converse(k + 400, 4, k / 4 + 100, k % 4);
    lemma_fundamental_div_mod_converse(k + 400, 100, k / 100 + 4, k % 100);
    lemma_fundamental_div_mod_converse(k + 400, 400, k / 400 + 1, k % 400);
}

/// Years before `b` are wholly before it.
pub proof fn lemma_years_ordered(a: int, b: int)
    requires
        1 <= a < b,
    ensures
        days_before_year(a) + year_len(a) <= days_before_year(b),
    decreases b - a,
{
    lemma_year_step(a);
    if a + 1 < b {
        lemma_years_ordered(a + 1, b);
        lemma_year_step(a + 1);
    }
}

pub proof fn lemma_months_ordered(y: int, a: int, b: int)
    requires
        1 <= a < b <= 12,
    ensures
        days_before_month(y, a) + month_len(y, a) <= days_before_month(y, b),
{
}

pub proof fn lemma_month_in_year(y: int, m: int)
    requires
        1 <= m <= 12,
    ensures
        days_before_month(y, m) + month_len(y, m) <= year_len(y),
        m == 12 ==> days_before_month(y, m) + month_len(y, m) == year_len(y),
{
}

/// A valid date lies inside its year.
pub proof fn lemma_day_in_year(d: CalendarDate)
    requires
        d.wf(),
    ensures
        days_before_year(d.year as int) <= day_number(d) < days_before_year(d.year as int)
            + year_len(d.year as int),
{
    lemma_month_in_year(d.year as int, d.month as int);
}

/// Distinct valid dates have distinct day numbers.
pub proof fn lemma_day_number_injective(a: CalendarDate, b: CalendarDate)
    requires
        a.wf(),
        b.wf(),
        day_number(a) == day_number(b),
    ensures
        a == b,
{
    lemma_day_in_year(a);
    lemma_day_in_year(b);
    if a.year < b.year {
        lemma_years_ordered(a.year as int, b.year as int);
    } else if b.year < a.year {
        lemma_years_ordered(b.year as int, a.year as int);
    } else if a.month < b.month {
        lemma_months_ordered(a.year as int, a.month as int, b.month as int);
    } else if b.month < a.month {
        lemma_months_ordered(a.year as int, b.month as int, a.month as int);
    }
}

/// `date_of_day` undoes `day_number`.
pub proof fn lemma_date_of_day_number(d: CalendarDate)
    requires
        d.wf(),
    ensures
        date_of_day(day_number(d)) == d,
{
    let e = date_of_day(day_number(d));
    assert(d.wf() && day_number(d) == day_number(d));
    lemma_day_number_injective(d, e);
}

/// Every valid date has a day number in `0 .. DAY_NUMBER_END`.
pub proof fn lemma_day_number_range(d: CalendarDate)
    requires
        d.wf(),
    ensures
        0 <= day_number(d) < DAY_NUMBER_END,
{
    lemma_day_in_year(d);
    if d.year < 9999 {
        lemma_years_ordered(d.year as int, 10000);
    } else {
        lemma_year_step(9999);
    }
    assert(days_before_year(10000) == DAY_NUMBER_END);
    assert(days_before_year(1) == 0);
    if d.year > 1 {
        lemma_years_ordered(1, d.year as int);
    }
}

/// `time_of_nanos` undoes `nanos_of_day` and is always a valid time.
pub proof fn lemma_time_of_nanos(t: TimeOfDay)
    requires
        t.wf(),
    ensures
        time_of_nanos(nanos_of_day(t)) == t,
        0 <= nanos_of_day(t) < NANOS_PER_DAY,
{
    let n = nanos_of_day(t);
    let secs = (t.hour * 60 + t.minute) * 60 + t.second;
    let mins = t.hour * 60 + t.minute;
    lemma_fundamental_div_mod_converse(n, 1_000_000_000, secs, t.nanosecond as int);
    let in_minute = t.second * 1_000_000_000 + t.nanosecond;
    let in_hour = t.minute * 60_000_000_000 + in_minute;
    lemma_fundamental_div_mod_converse(n, 60_000_000_000, mins, in_minute);
    lemma_fundamental_div_mod_converse(n, 3_600_000_000_000, t.hour as int, in_hour);
    lemma_fundamental_div_mod_converse(secs, 60, mins, t.second as int);
    lemma_fundamental_div_mod_converse(mins, 60, t.hour as int, t.minute as int);
}

pub fn is_leap_year(year: u16) -> (r: bool)
    ensures
        r == is_leap(year as int),
{
    year % 4 == 0 && (year % 100 != 0 || year % 400 == 0)
}

fn year_length(year: u16) -> (r: u16)
    ensures
        r as int == year_len(year as int),
{
    if is_leap_year(year) {
        366
    } else {
        365
    }
}

pub fn month_length(year: u16, month: u8) -> (r: u8)
    requires
        1 <= month <= 12,
    ensures
        r as int == month_len(year as int, month as int),
{
    if month == 2 {
        if is_leap_year(year) {
            29
        } else {
            28
        }
    } else if month == 4 || month == 6 || month == 9 || month == 11 {
        30
    } else {
        31
    }
}

fn days_before_month_of(year: u16, month: u8) -> (r: u16)
    requires
        1 <= month <= 12,
    ensures
        r as int == days_before_month(year as int, month as int),
{
    let l: u16 = if is_leap_year(year) {
        1
    } else {
        0
    };
    match month {
        1 => 0,
        2 => 31,
        3 => 59 + l,
        4 => 90 + l,
        5 => 120 + l,
        6 => 151 + l,
        7 => 181 + l,
        8 => 212 + l,
        9 => 243 + l,
        10 => 273 + l,
        11 => 304 + l,
        _ => 334 + l,
    }
}

impl CalendarDate {
    /// The date `year-month-day`, if it is a valid date from 0001-01-01 to 9999-12-31.
    pub fn new(year: u16, month: u8, day: u8) -> (r: Option<CalendarDate>)
        ensures
            r is Some <==> valid_ymd(year as int, month as int, day as int),
            r is Some ==> r->0 == (CalendarDate { year, month, day }),
    {
        if year < 1 || year > 9999 || month < 1 || month > 12 {
            return None;
        }
        if day < 1 || day > month_length(year, month) {
            return None;
        }
        Some(CalendarDate { year, month, day })
    }

    /// Days from 0001-01-01 to this date.
    pub fn day_number(&self) -> (r: u32)
        requires
            self.wf(),
        ensures
            r as int == day_number(*self),
    {
        proof {
            lemma_day_number_range(*self);
        }
        let k = (self.year - 1) as u32;
        let before_year: u32 = 365 * k + k / 4 - k / 100 + k / 400;
        before_year + days_before_month_of(self.year, self.month) as u32 + self.day as u32 - 1
    }

    /// The date `n` days after 0001-01-01, if it is no later than 9999-12-31.
    pub fn from_day_number(n: u32) -> (r: Option<CalendarDate>)
        ensures
            r is Some <==> n < DAY_NUMBER_END,
            r is Some ==> r->0.wf() && r->0 == date_of_day(n as int),
    {
        if n >= DAY_NUMBER_END {
            return None;
        }
        let mut year: u16 = 1;
        let mut rem: u32 = n;
        let ghost mut cycles: int = 0;
        while rem >= DAYS_PER_400_YEARS
            invariant
                year as int == 400 * cycles + 1,
                0 <= cycles,
                days_before_year(year as int) == 146_097 * cycles,
                days_before_year(year as int) + rem == n,
                n < DAY_NUMBER_END,
            decreases rem,
        {
            proof {
                lemma_cycle_step(year as int);
            }
            rem = rem - DAYS_PER_400_YEARS;
            year = year + 400;
            proof {
                cycles = cycles + 1;
            }
        }
        while rem >= year_length(year) as u32
            invariant
                1 <= year <= 9999,
                days_before_year(year as int) + rem == n,
                n < DAY_NUMBER_END,
            decreases rem,
        {
            proof {
                lemma_year_step(year as int);
                if year == 9999 {
                    assert(days_before_year(10000) == DAY_NUMBER_END);
                }
            }
            rem = rem - year_length(year) as u32;
            year = year + 1;
        }
        let mut month: u8 = 1;
        let ghost doy = rem as int;
        while rem >= month_length(year, month) as u32
            invariant
                1 <= month <= 12,
                days_before_month(year as int, month as int) + rem == doy,
                doy < year_len(year as int),
            decreases rem,
        {
            proof {
                lemma_month_in_year(year as int, month as int);
            }
            rem = rem - month_length(year, month) as u32;
            month = month + 1;
        }
        let d = CalendarDate { year, month, day: (rem + 1) as u8 };
        proof {
            lemma_date_of_day_number(d);
        }
        Some(d)
    }
}

impl TimeOfDay {
    /// The time `hour:minute:second.nanosecond`, if each field is in range.
    pub fn new(hour: u8, minute: u8, second: u8, nanosecond: u32) -> (r: Option<TimeOfDay>)
        ensures
            r is Some <==> (hour < 24 && minute < 60 && second < 60 && nanosecond < 1_000_000_000),
            r is Some ==> r->0 == (TimeOfDay { hour, minute, second, nanosecond }),
    {
        if hour < 24 && minute < 60 && second < 60 && nanosecond < 1_000_000_000 {
            Some(TimeOfDay { hour, minute, second, nanosecond })
        } else {
            None
        }
    }

    /// Midnight.
    pub fn midnight() -> (r: TimeOfDay)
        ensures
            r.wf(),
            nanos_of_day(r) == 0,
    {
        TimeOfDay { hour: 0, minute: 0, second: 0, nanosecond: 0 }
    }

    /// Nanoseconds from midnight to this time.
    pub fn nanos_since_midnight(&self) -> (r: u64)
        requires
            self.wf(),
        ensures
            r as int == nanos_of_day(*self),
    {
        ((self.hour as u64 * 60 + self.minute as u64) * 60 + self.second as u64) * NANOS_PER_SECOND
            + self.nanosecond as u64
    }

    /// The time `n` nanoseconds after midnight, if that is within the day.
    pub fn from_nanos_since_midnight(n: u64) -> (r: Option<TimeOfDay>)
        ensures
            r is Some <==> n < NANOS_PER_DAY,
            r is Some ==> r->0.wf() && r->0 == time_of_nanos(n as int),
    {
        if n >= NANOS_PER_DAY {
            return None;
        }
        let t = TimeOfDay {
            hour: (n / 3_600_000_000_000) as u8,
            minute: ((n / 60_000_000_000) % 60) as u8,
            second: ((n / NANOS_PER_SECOND) % 60) as u8,
            nanosecond: (n % NANOS_PER_SECOND) as u32,
        };
        proof {
            lemma_nanos_of_time(n as int);
        }
        Some(t)
    }
}

/// `nanos_of_day` undoes `time_of_nanos` within a day.
pub proof fn lemma_nanos_of_time(n: int)
    requires
        0 <= n < NANOS_PER_DAY,
    ensures
        time_of_nanos(n).wf(),
        nanos_of_day(time_of_nanos(n)) == n,
{
    let secs = n / 1_000_000_000;
    let mins = secs / 60;
    lemma_fundamental_div_mod_converse(n, 1_000_000_000, secs, n % 1_000_000_000);
    lemma_fundamental_div_mod_converse(secs, 60, mins, secs % 60);
    lemma_fundamental_div_mod_converse(mins, 60, mins / 60, mins % 60);
    let in_minute = (secs % 60) * 1_000_000_000 + n % 1_000_000_000;
    let in_hour = (mins % 60) * 60_000_000_000 + in_minute;
    lemma_fundamental_div_mod_converse(n, 60_000_000_000, mins, in_minute);
    lemma_fundamental_div_mod_converse(n, 3_600_000_000_000, mins / 60, in_hour);
}

proof fn lemma_find_year(n: int, y: int) -> (r: int)
    requires
        1 <= y <= 9999,
        days_before_year(y) <= n < DAY_NUMBER_END,
    ensures
        1 <= r <= 9999,
        days_before_year(r) <= n < days_before_year(r) + year_len(r),
    decreases 10000 - y,
{
    lemma_year_step(y);
    if n < days_before_year(y) + year_len(y) {
        y
    } else {
        assert(days_before_year(10000) == DAY_NUMBER_END);
        lemma_find_year(n, y + 1)
    }
}

proof fn lemma_find_month(y: int, doy: int, m: int) -> (r: int)
    requires
        1 <= m <= 12,
        days_before_month(y, m) <= doy < year_len(y),
    ensures
        1 <= r <= 12,
        days_before_month(y, r) <= doy < days_before_month(y, r) + month_len(y, r),
    decreases 12 - m,
{
    lemma_month_in_year(y, m);
    if doy < days_before_month(y, m) + month_len(y, m) {
        m
    } else {
        lemma_find_month(y, doy, m + 1)
    }
}

/// Every day number in range names a valid date.
pub proof fn lemma_date_of_day_exists(n: int)
    requires
        0 <= n < DAY_NUMBER_END,
    ensures
        date_of_day(n).wf(),
        day_number(date_of_day(n)) == n,
{
    assert(days_before_year(1) == 0);
    let y = lemma_find_year(n, 1);
    let doy = n - days_before_year(y);
    let m = lemma_find_month(y, doy, 1);
    let d = CalendarDate {
        year: y as u16,
        month: m as u8,
        day: (doy - days_before_month(y, m) + 1) as u8,
    };
    assert(d.wf() && day_number(d) == n);
}

/// Nanoseconds from 0001-01-01T00:00 to `v`.
pub open spec fn instant_nanos(v: CalendarDateTime) -> int {
    day_number(v.date) * NANOS_PER_DAY + nanos_of_day(v.time)
}

/// Distinct valid dates and times are distinct instants.
pub proof fn lemma_instant_injective(a: CalendarDateTime, b: CalendarDateTime)
    requires
        a.wf(),
        b.wf(),
        instant_nanos(a) == instant_nanos(b),
    ensures
        a == b,
{
    lemma_time_of_nanos(a.time);
    lemma_time_of_nanos(b.time);
    let x = instant_nanos(a);
    let d = NANOS_PER_DAY as int;
    lemma_fundamental_div_mod_converse(x, d, day_number(a.date), nanos_of_day(a.time));
    lemma_fundamental_div_mod_converse(x, d, day_number(b.date), nanos_of_day(b.time));
    lemma_day_number_injective(a.date, b.date);
}

/// Nanoseconds in one minute.
pub const NANOS_PER_MINUTE: i64 = 60_000_000_000;

impl CalendarDateTime {
    /// This date and time moved by a whole number of minutes, if the result
    /// stays within 0001-01-01 .. 9999-12-31.
    pub fn checked_add_minutes(&self, minutes: i16) -> (r: Option<CalendarDateTime>)
        requires
            self.wf(),
        ensures
            r is Some <==> 0 <= instant_nanos(*self) + minutes * NANOS_PER_MINUTE
                < DAY_NUMBER_END * NANOS_PER_DAY,
            r is Some ==> r->0.wf() && instant_nanos(r->0) == instant_nanos(*self) + minutes
                * NANOS_PER_MINUTE,
    {
        proof {
            lemma_day_number_range(self.date);
            lemma_time_of_nanos(self.time);
        }
        // Shifted by 23 whole days, which exceed the largest `i16` minutes, the
        // sum cannot be negative.
        let biased: i64 = self.time.nanos_since_midnight() as i64 + minutes as i64
            * NANOS_PER_MINUTE + 23 * NANOS_PER_DAY as i64;
        let nanos: i64 = biased % NANOS_PER_DAY as i64;
        let day: i64 = self.date.day_number() as i64 + biased / NANOS_PER_DAY as i64 - 23;
        proof {
            lemma_fundamental_div_mod(biased as int, NANOS_PER_DAY as int);
        }
        if day < 0 || day >= DAY_NUMBER_END as i64 {
            return None;
        }
        let date = match CalendarDate::from_day_number(day as u32) {
            Some(d) => d,
            None => {
                return None;
            },
        };
        let time = match TimeOfDay::from_nanos_since_midnight(nanos as u64) {
            Some(t) => t,
            None => {
                return None;
            },
        };
        proof {
            lemma_date_of_day_exists(day as int);
            lemma_nanos_of_time(nanos as int);
        }
        Some(CalendarDateTime { date, time })
    }
}

impl OffsetDateTime {
    /// The local wall-clock date and time: the UTC instant plus the offset.
    pub fn local(&self) -> (r: Option<CalendarDateTime>)
        requires
            self.utc.wf(),
        ensures
            r is Some <==> 0 <= instant_nanos(self.utc) + self.offset_minutes * NANOS_PER_MINUTE
                < DAY_NUMBER_END * NANOS_PER_DAY,
            r is Some ==> r->0.wf() && instant_nanos(r->0) == instant_nanos(self.utc)
                + self.offset_minutes * NANOS_PER_MINUTE,
    {
        self.utc.checked_add_minutes(self.offset_minutes)
    }

    /// The value whose local wall-clock time is `local` at `offset_minutes`
    /// (within -840 ..= 840), if its UTC instant is in range.
    pub fn from_local(local: &CalendarDateTime, offset_minutes: i16) -> (r: Option<OffsetDateTime>)
        requires
            local.wf(),
        ensures
            r is Some <==> -840 <= offset_minutes <= 840 && 0 <= instant_nanos(*local)
                - offset_minutes * NANOS_PER_MINUTE < DAY_NUMBER_END * NANOS_PER_DAY,
            r is Some ==> r->0.utc.wf() && r->0.offset_minutes == offset_minutes && instant_nanos(
                r->0.utc,
            ) == instant_nanos(*local) - offset_minutes * NANOS_PER_MINUTE,
    {
        if offset_minutes < -840 || offset_minutes > 840 {
            return None;
        }
        match local.checked_add_minutes(-offset_minutes) {
            Some(utc) => Some(OffsetDateTime { utc, offset_minutes }),
            None => None,
        }
    }
}

} // verus!
