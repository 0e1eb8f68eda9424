//! Recurrence engine: does a [`Session`] block at a given local moment?
//!
//! All date math is integer arithmetic over the proleptic Gregorian calendar.
use vstd::prelude::*;

use crate::config::{CivilDate, Recurrence, ScheduleRule, Session, TimeWindow};

verus! {

// ---------------------------------------------------------------------------
// Calendar model
// ---------------------------------------------------------------------------

/// Days since 1970-01-01 of the civil date `(year, month, day)`, by the
/// era / year-of-era / day-of-year decomposition (March-based years).
pub open spec fn civil_days(year: int, month: int, day: int) -> int {
    let y = if month <= 2 {
        year - 1
    } else {
        year
    };
    let era = y / 400;
    let yoe = y - era * 400;
    let mp = if month > 2 {
        month - 3
    } else {
        month + 9
    };
    let doy = (153 * mp + 2) / 5 + day - 1;
    let doe = yoe * 365 + yoe / 4 - yoe / 100 + doy;
    era * 146097 + doe - 719468
}

/// Gregorian leap years.
pub open spec fn is_leap(year: int) -> bool {
    (year % 4 == 0 && year % 100 != 0) || year % 400 == 0
}

/// Number of days of `month` (1..=12) in `year`.
pub open spec fn days_in_month(year: int, month: int) -> int {
    if month == 2 {
        if is_leap(year) {
            29
        } else {
            28
        }
    } else if month == 4 || month == 6 || month == 9 || month == 11 {
        30
    } else {
        31
    }
}

/// A real calendar date.
pub open spec fn valid_date(year: int, month: int, day: int) -> bool {
    1 <= month <= 12 && 1 <= day <= days_in_month(year, month)
}

/// The calendar date after `(year, month, day)`.
pub open spec fn next_date(year: int, month: int, day: int) -> (int, int, int) {
    if day < days_in_month(year, month) {
        (year, month, day + 1)
    } else if month < 12 {
        (year, month + 1, 1)
    } else {
        (year + 1, 1, 1)
    }
}

/// Weekday `0=Mon .. 6=Sun` of the day `epoch_day` days after 1970-01-01
/// (a Thursday).
pub open spec fn weekday_of(epoch_day: int) -> int {
    (epoch_day + 3) % 7
}

/// Inputs on which the calendar arithmetic stays in range: the year before
/// a January or February date must be representable.
pub open spec fn civil_in_range(year: i32, month: u8) -> bool {
    month > 2 || year > i32::MIN
}

// ---------------------------------------------------------------------------
// Laws of the calendar
// ---------------------------------------------------------------------------

/// 1970-01-01 is epoch day 0.
pub proof fn lemma_epoch_origin()
    ensures
        civil_days(1970, 1, 1) == 0,
{
    assert(1969int / 400 == 4);
    assert(civil_days(1970, 1, 1) == 0);
}

/// Consecutive calendar dates are consecutive epoch days, across month,
/// leap-day, year and era boundaries alike.
pub proof fn lemma_next_day(year: int, month: int, day: int)
    requires
        valid_date(year, month, day),
    ensures
        ({
            let (y2, m2, d2) = next_date(year, month, day);
            civil_days(y2, m2, d2) == civil_days(year, month, day) + 1
        }),
{
    let (y2, m2, d2) = next_date(year, month, day);
    if day < days_in_month(year, month) {
    } else if month == 2 {
        // February -> March: the March-based year advances.
        let yp = year - 1;
        let era = yp / 400;
        let yoe = yp - era * 400;
        assert(0 <= yoe < 400);
        let era2 = year / 400;
        let yoe2 = year - era2 * 400;
        assert(0 <= yoe2 < 400);
        if yoe == 399 {
            assert(year == (era + 1) * 400);
            assert(era2 == era + 1);
            assert(yoe2 == 0);
            assert(year % 400 == 0);
            assert(day == 29);
            assert(civil_days(year, 2, day) == era * 146097 + 399int * 365 + 399int / 4 - 399int / 100
                + (153int * 11 + 2) / 5 + day - 1 - 719468);
            assert(civil_days(year, 3, 1) == era2 * 146097 - 719468);
        } else {
            assert(era2 == era);
            assert(yoe2 == yoe + 1);
            assert(year % 4 == yoe2 % 4);
            assert(year % 100 == yoe2 % 100);
            assert(year % 400 == yoe2 % 400);
            assert(yoe2 % 400 == yoe2);
            assert(civil_days(year, 2, day) == era * 146097 + yoe * 365 + yoe / 4 - yoe / 100
                + (153int * 11 + 2) / 5 + day - 1 - 719468);
            assert(civil_days(year, 3, 1) == era * 146097 + yoe2 * 365 + yoe2 / 4 - yoe2 / 100
                - 719468);
            assert((yoe + 1) / 4 - yoe / 4 == if (yoe + 1) % 4 == 0 {
                1int
            } else {
                0
            });
            assert((yoe + 1) / 100 - yoe / 100 == if (yoe + 1) % 100 == 0 {
                1int
            } else {
                0
            });
        }
    } else if month == 12 {
        assert(y2 == year + 1 && m2 == 1 && d2 == 1);
        assert((153 * 9 + 2) / 5 == 275);
        assert((153 * 10 + 2) / 5 == 306);
    } else {
        assert(y2 == year && m2 == month + 1 && d2 == 1);
        if month == 1 {
            assert((153 * 10 + 2) / 5 == 306);
            assert((153 * 11 + 2) / 5 == 337);
        } else {
            let mp = month - 3;
            assert(0 <= mp <= 8);
            assert((153 * (mp + 1) + 2) / 5 - (153 * mp + 2) / 5 == days_in_month(year, month))
                by {
                if mp == 0 {
                    assert((153 * 1 + 2) / 5 == 31);
                } else if mp == 1 {
                    assert((153 * 1 + 2) / 5 == 31);
                    assert((153 * 2 + 2) / 5 == 61);
                } else if mp == 2 {
                    assert((153 * 2 + 2) / 5 == 61);
                    assert((153 * 3 + 2) / 5 == 92);
                } else if mp == 3 {
                    assert((153 * 3 + 2) / 5 == 92);
                    assert((153 * 4 + 2) / 5 == 122);
                } else if mp == 4 {
                    assert((153 * 4 + 2) / 5 == 122);
                    assert((153 * 5 + 2) / 5 == 153);
                } else if mp == 5 {
                    assert((153 * 5 + 2) / 5 == 153);
                    assert((153 * 6 + 2) / 5 == 184);
                } else if mp == 6 {
                    assert((153 * 6 + 2) / 5 == 184);
                    assert((153 * 7 + 2) / 5 == 214);
                } else if mp == 7 {
                    assert((153 * 7 + 2) / 5 == 214);
                    assert((153 * 8 + 2) / 5 == 245);
                } else {
                    assert((153 * 8 + 2) / 5 == 245);
                    assert((153 * 9 + 2) / 5 == 275);
                }
            }
        }
    }
}

/// The weekday advances by one, cyclically, from one date to the next.
pub proof fn lemma_next_weekday(year: int, month: int, day: int)
    requires
        valid_date(year, month, day),
    ensures
        ({
            let (y2, m2, d2) = next_date(year, month, day);
            weekday_of(civil_days(y2, m2, d2)) == (weekday_of(civil_days(year, month, day)) + 1)
                % 7
        }),
{
    lemma_next_day(year, month, day);
}

/// The calendar repeats every 400 years, which hold 146097 days.
pub proof fn lemma_four_hundred_year_period(year: int, month: int, day: int)
    ensures
        civil_days(year + 400, month, day) == civil_days(year, month, day) + 146097,
{
    let y = if month <= 2 {
        year - 1
    } else {
        year
    };
    let era = y / 400;
    let yoe = y - era * 400;
    assert((y + 400) / 400 == era + 1);
    assert((y + 400) - (era + 1) * 400 == yoe);
}

/// The day after February 28 is March 1 except in leap years, which have a
/// February 29 in between.
pub proof fn lemma_leap_day(year: int)
    ensures
        civil_days(year, 3, 1) - civil_days(year, 2, 28) == if is_leap(year) {
            2int
        } else {
            1int
        },
{
    lemma_next_day(year, 2, 28);
    if is_leap(year) {
        lemma_next_day(year, 2, 29);
    }
}

/// Within a month, the next day is the next epoch day.
pub proof fn lemma_next_day_in_month(year: int, month: int, day: int)
    requires
        valid_date(year, month, day),
        day < days_in_month(year, month),
    ensures
        civil_days(year, month, day + 1) == civil_days(year, month, day) + 1,
{
    lemma_next_day(year, month, day);
}

// ---------------------------------------------------------------------------
// Executable engine
// ---------------------------------------------------------------------------

/// Days since 1970-01-01 for a civil (proleptic Gregorian) date; negative
/// before the epoch.
pub fn days_from_civil(year: i32, month: u8, day: u8) -> (r: i64)
    requires
        civil_in_range(year, month),
    ensures
        r == civil_days(year as int, month as int, day as int),
{
    let y: i64 = if month <= 2 {
        (year - 1) as i64
    } else {
        year as i64
    };
    let m = month as i64;
    let d = day as i64;
    let era: i64 = (if y >= 0 {
        y
    } else {
        y - 399
    }) / 400;
    assert(era == y / 400);
    let yoe = y - era * 400;
    let mp = if m > 2 {
        m - 3
    } else {
        m + 9
    };
    let doy = (153 * mp + 2) / 5 + d - 1;
    let doe = yoe * 365 + yoe / 4 - yoe / 100 + doy;
    era * 146097 + doe - 719468
}

/// A concrete local wall-clock instant to evaluate schedules against.
#[derive(Debug, Clone, Copy, PartialEq, Eq, Structural)]
pub struct LocalMoment {
    pub year: i32,
    pub month: u8,
    pub day: u8,
    pub hour: u8,
    pub minute: u8,
}

impl LocalMoment {
    /// The moment's epoch day.
    pub open spec fn day_number(self) -> int {
        civil_days(self.year as int, self.month as int, self.day as int)
    }

    /// Calendar arithmetic on the moment stays in range.
    pub open spec fn in_range(self) -> bool {
        civil_in_range(self.year, self.month)
    }

    /// Minutes elapsed since local midnight.
    pub fn minute_of_day(&self) -> (r: u16)
        ensures
            r == self.hour * 60 + self.minute,
    {
        self.hour as u16 * 60 + self.minute as u16
    }

    /// Days since 1970-01-01 (negative for earlier dates).
    pub fn epoch_day(&self) -> (r: i64)
        requires
            self.in_range(),
        ensures
            r == self.day_number(),
    {
        days_from_civil(self.year, self.month, self.day)
    }

    /// Weekday as `0=Mon .. 6=Sun`.
    pub fn weekday_mon0(&self) -> (r: u8)
        requires
            self.in_range(),
        ensures
            r == weekday_of(self.day_number()),
    {
        let e = self.epoch_day();
        let w = (e + 3) % 7;
        let w = if w < 0 {
            w + 7
        } else {
            w
        };
        assert(w == (e + 3) % 7);
        w as u8
    }
}

impl CivilDate {
    /// The date's epoch day.
    pub open spec fn day_number(self) -> int {
        civil_days(self.year as int, self.month as int, self.day as int)
    }

    /// Calendar arithmetic on the date stays in range.
    pub open spec fn in_range(self) -> bool {
        civil_in_range(self.year, self.month)
    }

    /// Days since 1970-01-01.
    pub fn epoch_day(&self) -> (r: i64)
        requires
            self.in_range(),
        ensures
            r == self.day_number(),
    {
        days_from_civil(self.year, self.month, self.day)
    }
}

/// A date and a moment on that date have the same epoch day, whatever the
/// moment's time of day: the one `days_from_civil` computes for the date.
pub proof fn lemma_epoch_days_agree(date: CivilDate, m: LocalMoment)
    requires
        date.year == m.year,
        date.month == m.month,
        date.day == m.day,
    ensures
        date.day_number() == m.day_number(),
        date.day_number() == civil_days(date.year as int, date.month as int, date.day as int),
        date.in_range() == m.in_range(),
{
}

impl TimeWindow {
    /// Whether `minute_of_day` falls in `[start_min, end_min)`.
    pub open spec fn holds(self, minute_of_day: int) -> bool {
        self.start_min <= minute_of_day < self.end_min
    }

    /// Whether `minute_of_day` falls in this half-open window.
    pub fn contains(&self, minute_of_day: u16) -> (r: bool)
        ensures
            r == self.holds(minute_of_day as int),
    {
        minute_of_day >= self.start_min && minute_of_day < self.end_min
    }
}

impl Recurrence {
    /// The day numbers the recurrence computes to decide on `m` stay in
    /// range: those of `m` and of the recurrence's dates, for the forms that
    /// compute any (every-N-days only when `n` is not 0).
    pub open spec fn computable_at(&self, m: LocalMoment) -> bool {
        match self {
            Recurrence::Everyday => true,
            Recurrence::MonthDays { .. } => true,
            Recurrence::Weekdays { .. } => m.in_range(),
            Recurrence::EveryNDays { n, anchor } => *n == 0 || (m.in_range() && anchor.in_range()),
            Recurrence::DateRange { start, end } => m.in_range() && start.in_range()
                && end.in_range(),
        }
    }

    /// Whether the recurrence selects the day of `m`.
    pub open spec fn selects(&self, m: LocalMoment) -> bool {
        match self {
            Recurrence::Everyday => true,
            Recurrence::Weekdays { days } => days@.contains(weekday_of(m.day_number()) as u8),
            Recurrence::MonthDays { start_day, end_day } => {
                let lo = if *start_day <= *end_day {
                    *start_day
                } else {
                    *end_day
                };
                let hi = if *start_day <= *end_day {
                    *end_day
                } else {
                    *start_day
                };
                lo <= m.day <= hi
            },
            Recurrence::EveryNDays { n, anchor } => {
                let delta = m.day_number() - anchor.day_number();
                *n != 0 && delta >= 0 && delta % (*n as int) == 0
            },
            Recurrence::DateRange { start, end } => {
                let a = start.day_number();
                let b = end.day_number();
                let lo = if a <= b {
                    a
                } else {
                    b
                };
                let hi = if a <= b {
                    b
                } else {
                    a
                };
                lo <= m.day_number() <= hi
            },
        }
    }

    /// Whether this recurrence selects the day of `m` (time of day ignored).
    pub fn matches_day(&self, m: &LocalMoment) -> (r: bool)
        requires
            self.computable_at(*m),
        ensures
            r == self.selects(*m),
    {
        match self {
            Recurrence::Everyday => true,
            Recurrence::Weekdays { days } => {
                let w = m.weekday_mon0();
                assert(self.selects(*m) == days@.contains(w));
                let mut i: usize = 0;
                while i < days.len()
                    invariant
                        i <= days.len(),
                        self.selects(*m) == days@.contains(w),
                        w == weekday_of(m.day_number()),
                        forall|k: int| 0 <= k < i ==> days@[k] != w,
                    decreases days.len() - i,
                {
                    if days[i] == w {
                        proof {
                            assert(days@[i as int] == w);
                        }
                        return true;
                    }
                    i += 1;
                }
                proof {
                    assert(!days@.contains(w));
                }
                false
            },
            Recurrence::MonthDays { start_day, end_day } => {
                let (lo, hi) = if *start_day <= *end_day {
                    (*start_day, *end_day)
                } else {
                    (*end_day, *start_day)
                };
                m.day >= lo && m.day <= hi
            },
            Recurrence::EveryNDays { n, anchor } => {
                if *n == 0 {
                    return false;
                }
                let delta = m.epoch_day() - anchor.epoch_day();
                delta >= 0 && delta % (*n as i64) == 0
            },
            Recurrence::DateRange { start, end } => {
                let day = m.epoch_day();
                let a = start.epoch_day();
                let b = end.epoch_day();
                let lo = if a <= b {
                    a
                } else {
                    b
                };
                let hi = if b >= a {
                    b
                } else {
                    a
                };
                day >= lo && day <= hi
            },
        }
    }
}

/// A recurrence selects days: two moments of the same date are selected
/// alike, whatever their time of day.
pub proof fn lemma_selection_ignores_time_of_day(r: Recurrence, m1: LocalMoment, m2: LocalMoment)
    requires
        m1.year == m2.year,
        m1.month == m2.month,
        m1.day == m2.day,
    ensures
        r.selects(m1) == r.selects(m2),
{
}

/// Whether some window in `windows` contains `minute`.
pub open spec fn some_window_holds(windows: Seq<TimeWindow>, minute: int) -> bool {
    exists|i: int| 0 <= i < windows.len() && (#[trigger] windows[i]).holds(minute)
}

impl ScheduleRule {
    /// The rule's calendar arithmetic for `m` stays in range.
    pub open spec fn computable_at(&self, m: LocalMoment) -> bool {
        self.recurrence.computable_at(m)
    }

    /// The rule is active at `m`: the recurrence selects the day and, when
    /// windows are given, the time of day falls inside one of them.
    pub open spec fn active_at(&self, m: LocalMoment) -> bool {
        self.recurrence.selects(m) && (self.windows@.len() == 0 || some_window_holds(
            self.windows@,
            m.hour * 60 + m.minute,
        ))
    }

    /// Whether this rule is active at `m`.
    pub fn matches(&self, m: &LocalMoment) -> (r: bool)
        requires
            self.computable_at(*m),
        ensures
            r == self.active_at(*m),
    {
        if !self.recurrence.matches_day(m) {
            return false;
        }
        if self.windows.len() == 0 {
            return true;
        }
        let minute = m.minute_of_day();
        let mut i: usize = 0;
        while i < self.windows.len()
            invariant
                i <= self.windows.len(),
                minute == m.hour * 60 + m.minute,
                self.recurrence.selects(*m),
                forall|k: int| 0 <= k < i ==> !(#[trigger] self.windows@[k]).holds(minute as int),
            decreases self.windows.len() - i,
        {
            if self.windows[i].contains(minute) {
                proof {
                    assert(self.windows@[i as int].holds(minute as int));
                }
                return true;
            }
            i += 1;
        }
        false
    }
}

/// Windows widen a rule: on a day its recurrence selects, a rule with
/// windows is active at a moment exactly when some window of the list, at
/// any position, contains the moment's minute of day. So adding a window
/// to a rule that has windows never makes it inactive, and makes it active
/// at every minute the new window contains.
pub proof fn lemma_windows_widen_a_rule(r1: ScheduleRule, r2: ScheduleRule, w: TimeWindow, m: LocalMoment)
    requires
        r2.recurrence == r1.recurrence,
        r2.windows@ == r1.windows@.push(w),
    ensures
        r1.windows@.len() > 0 ==> (r1.active_at(m) <==> (r1.recurrence.selects(m) && exists|i: int|
            0 <= i < r1.windows@.len() && r1.windows@[i].start_min <= m.hour * 60 + m.minute
                < #[trigger] r1.windows@[i].end_min)),
        r1.windows@.len() > 0 && r1.active_at(m) ==> r2.active_at(m),
        r2.recurrence.selects(m) && w.start_min <= m.hour * 60 + m.minute < w.end_min
            ==> r2.active_at(m),
{
    let minute = m.hour * 60 + m.minute;
    if r1.windows@.len() > 0 && r1.active_at(m) {
        let i = choose|i: int| 0 <= i < r1.windows@.len() && (#[trigger] r1.windows@[i]).holds(minute);
        assert(r2.windows@[i] == r1.windows@[i]);
    }
    if r2.recurrence.selects(m) && w.start_min <= minute < w.end_min {
        assert(r2.windows@[r1.windows@.len() as int] == w);
        assert(r2.windows@[r1.windows@.len() as int].holds(minute));
    }
    if r1.windows@.len() > 0 && r1.recurrence.selects(m) && exists|i: int|
        0 <= i < r1.windows@.len() && r1.windows@[i].start_min <= minute < #[trigger] r1.windows@[i].end_min {
        let i = choose|i: int|
            0 <= i < r1.windows@.len() && r1.windows@[i].start_min <= minute < #[trigger] r1.windows@[i].end_min;
        assert(r1.windows@[i].holds(minute));
    }
}

/// Whether some rule in `rules` is active at `m`.
pub open spec fn some_rule_active(rules: Seq<ScheduleRule>, m: LocalMoment) -> bool {
    exists|i: int| 0 <= i < rules.len() && (#[trigger] rules[i]).active_at(m)
}

impl Session {
    /// Deciding on `m` stays in calendar range: a disabled session decides
    /// nothing, an enabled one needs every rule's arithmetic for `m`.
    pub open spec fn computable_at(&self, m: LocalMoment) -> bool {
        self.enabled ==> forall|i: int|
            0 <= i < self.rules@.len() ==> (#[trigger] self.rules@[i]).computable_at(m)
    }

    /// The session blocks at `m`: enabled, and some rule is active.
    pub open spec fn active_at(&self, m: LocalMoment) -> bool {
        self.enabled && some_rule_active(self.rules@, m)
    }

    /// Whether this session should be blocking at `m`.
    pub fn is_active_at(&self, m: &LocalMoment) -> (r: bool)
        requires
            self.computable_at(*m),
        ensures
            r == self.active_at(*m),
    {
        if !self.enabled {
            return false;
        }
        let mut i: usize = 0;
        while i < self.rules.len()
            invariant
                i <= self.rules.len(),
                self.enabled,
                self.computable_at(*m),
                forall|k: int| 0 <= k < i ==> !(#[trigger] self.rules@[k]).active_at(*m),
            decreases self.rules.len() - i,
        {
            if self.rules[i].matches(m) {
                proof {
                    assert(self.rules@[i as int].active_at(*m));
                }
                return true;
            }
            i += 1;
        }
        false
    }
}

} // verus!
