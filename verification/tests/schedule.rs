use app_blocker::config::{CivilDate, Recurrence, ScheduleRule, Session, TimeWindow};
use app_blocker::schedule::{days_from_civil, LocalMoment};
use app_blocker::scheduler::moment_from_clock;

fn at(y: i32, mo: u8, d: u8, h: u8, mi: u8) -> LocalMoment {
    LocalMoment { year: y, month: mo, day: d, hour: h, minute: mi }
}

#[test]
fn epoch_day_anchors() {
    assert_eq!(days_from_civil(1970, 1, 1), 0);
    assert_eq!(days_from_civil(1970, 1, 2), 1);
    assert_eq!(days_from_civil(1969, 12, 31), -1);
    assert_eq!(days_from_civil(2000, 1, 1), 10957);
}

#[test]
fn weekday_mapping() {
    // 2024-01-01 was a Monday.
    assert_eq!(at(2024, 1, 1, 0, 0).weekday_mon0(), 0);
    assert_eq!(at(2024, 1, 7, 0, 0).weekday_mon0(), 6);
}

#[test]
fn everyday_matches_any_day() {
    let r = Recurrence::Everyday;
    assert!(r.matches_day(&at(2024, 6, 15, 3, 0)));
}

#[test]
fn weekdays_mon_to_fri() {
    let r = Recurrence::Weekdays { days: vec![0, 1, 2, 3, 4] };
    assert!(r.matches_day(&at(2024, 6, 14, 9, 0)));
    assert!(!r.matches_day(&at(2024, 6, 15, 9, 0)));
}

#[test]
fn month_days_first_to_tenth() {
    let r = Recurrence::MonthDays { start_day: 1, end_day: 10 };
    assert!(r.matches_day(&at(2024, 6, 1, 0, 0)));
    assert!(r.matches_day(&at(2024, 6, 10, 0, 0)));
    assert!(!r.matches_day(&at(2024, 6, 11, 0, 0)));
}

#[test]
fn every_n_days_from_anchor() {
    let r = Recurrence::EveryNDays { n: 3, anchor: CivilDate { year: 2024, month: 6, day: 1 } };
    assert!(r.matches_day(&at(2024, 6, 1, 0, 0)));
    assert!(!r.matches_day(&at(2024, 6, 2, 0, 0)));
    assert!(r.matches_day(&at(2024, 6, 4, 0, 0)));
    assert!(!r.matches_day(&at(2024, 5, 29, 0, 0)));
}

#[test]
fn date_range_inclusive() {
    let r = Recurrence::DateRange {
        start: CivilDate { year: 2024, month: 6, day: 10 },
        end: CivilDate { year: 2024, month: 6, day: 12 },
    };
    assert!(!r.matches_day(&at(2024, 6, 9, 23, 59)));
    assert!(r.matches_day(&at(2024, 6, 10, 0, 0)));
    assert!(r.matches_day(&at(2024, 6, 12, 23, 59)));
    assert!(!r.matches_day(&at(2024, 6, 13, 0, 0)));
}

#[test]
fn windows_gate_time_of_day() {
    let rule = ScheduleRule {
        recurrence: Recurrence::Everyday,
        windows: vec![TimeWindow { start_min: 9 * 60, end_min: 17 * 60 }],
    };
    assert!(!rule.matches(&at(2024, 6, 15, 8, 59)));
    assert!(rule.matches(&at(2024, 6, 15, 9, 0)));
    assert!(rule.matches(&at(2024, 6, 15, 16, 59)));
    assert!(!rule.matches(&at(2024, 6, 15, 17, 0)));
}

#[test]
fn no_windows_means_all_day() {
    let rule = ScheduleRule { recurrence: Recurrence::Everyday, windows: vec![] };
    assert!(rule.matches(&at(2024, 6, 15, 0, 0)));
    assert!(rule.matches(&at(2024, 6, 15, 23, 59)));
}

#[test]
fn session_requires_enabled_and_a_matching_rule() {
    let mut s = Session {
        id: "s1".to_string(),
        name: "Focus".to_string(),
        item_ids: vec!["i1".to_string()],
        enabled: true,
        rules: vec![ScheduleRule {
            recurrence: Recurrence::Weekdays { days: vec![0, 1, 2, 3, 4] },
            windows: vec![TimeWindow { start_min: 9 * 60, end_min: 12 * 60 }],
        }],
    };
    assert!(s.is_active_at(&at(2024, 6, 14, 10, 0)));
    assert!(!s.is_active_at(&at(2024, 6, 14, 13, 0)));
    assert!(!s.is_active_at(&at(2024, 6, 15, 10, 0)));
    s.enabled = false;
    assert!(!s.is_active_at(&at(2024, 6, 14, 10, 0)));
}

// ---- further cases ----

#[test]
fn epoch_day_across_leap_day_and_century() {
    // 2024 is a leap year: Feb 28 -> Feb 29 -> Mar 1 are consecutive days.
    let feb28 = days_from_civil(2024, 2, 28);
    assert_eq!(days_from_civil(2024, 2, 29), feb28 + 1);
    assert_eq!(days_from_civil(2024, 3, 1), feb28 + 2);
    // 1900 is not a leap year: Feb 28 is followed by Mar 1.
    assert_eq!(days_from_civil(1900, 3, 1), days_from_civil(1900, 2, 28) + 1);
    // Year boundary.
    assert_eq!(days_from_civil(2024, 1, 1), days_from_civil(2023, 12, 31) + 1);
    assert_eq!(days_from_civil(2024, 1, 1), 19723);
}

#[test]
fn weekday_before_the_epoch() {
    // 1969-12-31 was a Wednesday.
    assert_eq!(at(1969, 12, 31, 0, 0).weekday_mon0(), 2);
    // 1970-01-01 was a Thursday.
    assert_eq!(at(1970, 1, 1, 0, 0).weekday_mon0(), 3);
    assert_eq!(at(1970, 1, 1, 0, 0).epoch_day(), 0);
}

#[test]
fn minute_of_day_counts_from_midnight() {
    assert_eq!(at(2024, 6, 15, 0, 0).minute_of_day(), 0);
    assert_eq!(at(2024, 6, 15, 13, 7).minute_of_day(), 787);
    assert_eq!(at(2024, 6, 15, 23, 59).minute_of_day(), 1439);
}

#[test]
fn time_window_is_half_open() {
    let w = TimeWindow { start_min: 60, end_min: 120 };
    assert!(!w.contains(59));
    assert!(w.contains(60));
    assert!(w.contains(119));
    assert!(!w.contains(120));
    let empty = TimeWindow { start_min: 120, end_min: 60 };
    assert!(!empty.contains(90));
}

#[test]
fn month_days_bounds_in_either_order() {
    let r = Recurrence::MonthDays { start_day: 10, end_day: 1 };
    assert!(r.matches_day(&at(2024, 6, 5, 0, 0)));
    assert!(!r.matches_day(&at(2024, 6, 11, 0, 0)));
}

#[test]
fn date_range_bounds_in_either_order() {
    let r = Recurrence::DateRange {
        start: CivilDate { year: 2024, month: 6, day: 12 },
        end: CivilDate { year: 2024, month: 6, day: 10 },
    };
    assert!(r.matches_day(&at(2024, 6, 11, 12, 0)));
    assert!(!r.matches_day(&at(2024, 6, 13, 0, 0)));
}

#[test]
fn every_zero_days_never_matches() {
    let r = Recurrence::EveryNDays { n: 0, anchor: CivilDate { year: 2024, month: 6, day: 1 } };
    assert!(!r.matches_day(&at(2024, 6, 1, 0, 0)));
}

#[test]
fn civil_date_epoch_day() {
    assert_eq!(CivilDate { year: 2000, month: 1, day: 1 }.epoch_day(), 10957);
    assert_eq!(CivilDate { year: 1970, month: 1, day: 1 }.epoch_day(), 0);
}

#[test]
fn moment_from_clock_keeps_fields() {
    let m = moment_from_clock(2024, 6, 15, 9, 30);
    assert_eq!(m, at(2024, 6, 15, 9, 30));
}

#[test]
fn every_zero_days_needs_no_date_arithmetic() {
    let r = Recurrence::EveryNDays { n: 0, anchor: CivilDate { year: i32::MIN, month: 1, day: 1 } };
    assert!(!r.matches_day(&at(i32::MIN, 1, 1, 0, 0)));
}

#[test]
fn day_of_month_and_everyday_work_at_the_calendar_edge() {
    assert!(Recurrence::Everyday.matches_day(&at(i32::MIN, 2, 1, 0, 0)));
    let r = Recurrence::MonthDays { start_day: 1, end_day: 3 };
    assert!(r.matches_day(&at(i32::MIN, 2, 2, 0, 0)));
}
