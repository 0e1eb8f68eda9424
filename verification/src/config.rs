//! The app-owned configuration model: the website library and scheduled
//! sessions. The daemon never sees these; the scheduler turns them into
//! blocklist changes (see [`crate::schedule`] and [`crate::scheduler`]).
use vstd::prelude::*;

verus! {

/// A reusable "site" in the library: a label plus the domains and CIDRs that
/// blocking it should cover.
#[derive(Debug, Clone, PartialEq, Eq)]
pub struct WebsiteItem {
    pub id: String,
    pub label: String,
    pub domains: Vec<String>,
    pub cidrs: Vec<String>,
}

/// A named group of library items with schedule rules. It is active when it
/// is enabled and any of its rules matches the current local moment.
#[derive(Debug, Clone, PartialEq, Eq)]
pub struct Session {
    pub id: String,
    pub name: String,
    /// References into the library by [`WebsiteItem::id`].
    pub item_ids: Vec<String>,
    pub enabled: bool,
    pub rules: Vec<ScheduleRule>,
}

/// One recurrence plus the daily time windows it applies to. No windows means
/// "all day" on the days the recurrence matches.
#[derive(Debug, Clone, PartialEq, Eq)]
pub struct ScheduleRule {
    pub recurrence: Recurrence,
    pub windows: Vec<TimeWindow>,
}

/// A within-day window in minutes from local midnight, half-open
/// `[start_min, end_min)`.
#[derive(Debug, Clone, Copy, PartialEq, Eq, Structural)]
pub struct TimeWindow {
    pub start_min: u16,
    pub end_min: u16,
}

/// A recurrence preset. Days of the week are `0=Mon .. 6=Sun`.
#[derive(Debug, Clone, PartialEq, Eq)]
pub enum Recurrence {
    /// Every calendar day.
    Everyday,
    /// Specific weekdays, e.g. Mon–Fri = `[0,1,2,3,4]`.
    Weekdays { days: Vec<u8> },
    /// An inclusive day-of-month range (bounds in either order).
    MonthDays { start_day: u8, end_day: u8 },
    /// Every `n` days counting from `anchor` (the anchor day included).
    EveryNDays { n: u32, anchor: CivilDate },
    /// An inclusive fixed calendar range (bounds in either order).
    DateRange { start: CivilDate, end: CivilDate },
}

/// A timezone-free calendar date.
#[derive(Debug, Clone, Copy, PartialEq, Eq, Structural)]
pub struct CivilDate {
    pub year: i32,
    pub month: u8,
    pub day: u8,
}

} // verus!
