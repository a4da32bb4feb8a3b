use chrono::{Datelike, NaiveDate};
use opening_hours::calendar::{easter, weekday_index, LAST_DAY};
use opening_hours::day::{
    Date, DateOffset, DaySelector, HolidayKind, Holidays, Month, MonthdayRange, WeekDayOffset,
    WeekDayRange, WeekRange, Weekday, YearRange,
};
use opening_hours::extended_time::ExtendedTime;
use opening_hours::schedule::Schedule;
use opening_hours::time_domain::{DateTime, RuleKind, RuleOperator, RuleSequence, TimeDomain};
use opening_hours::time_selector::TimeSelector;

fn day(y: i32, m: u32, d: u32) -> i32 {
    NaiveDate::from_ymd_opt(y, m, d).unwrap().num_days_from_ce()
}

fn t(h: u8, m: u8) -> ExtendedTime {
    ExtendedTime::new(h, m)
}

fn at(y: i32, mo: u32, d: u32, h: u8, mi: u8) -> DateTime {
    DateTime::new(day(y, mo, d), t(h, mi))
}

fn weekdays(start: Weekday, end: Weekday) -> WeekDayRange {
    WeekDayRange::Fixed { start, end, offset: 0, nth: [false; 5] }
}

fn rule(
    weekday: Vec<WeekDayRange>,
    time: Vec<(ExtendedTime, ExtendedTime)>,
    kind: RuleKind,
    operator: RuleOperator,
) -> RuleSequence {
    RuleSequence {
        day_selector: DaySelector { weekday, ..Default::default() },
        time_selector: TimeSelector { time },
        kind,
        operator,
        comments: vec![],
    }
}

fn domain(rules: Vec<RuleSequence>) -> TimeDomain {
    TimeDomain { rules, holidays: Holidays::default() }
}

fn week_and_saturday() -> TimeDomain {
    domain(vec![
        rule(vec![weekdays(Weekday::Mon, Weekday::Fri)], vec![(t(9, 0), t(18, 0))], RuleKind::Open, RuleOperator::Normal),
        rule(vec![weekdays(Weekday::Sat, Weekday::Sat)], vec![(t(10, 0), t(14, 0))], RuleKind::Open, RuleOperator::Additional),
    ])
}

#[test]
fn weekday_range_monday_to_friday() {
    let sel = DaySelector { weekday: vec![weekdays(Weekday::Mon, Weekday::Fri)], ..Default::default() };
    let hol = Holidays::default();
    // 2024-01-01 is a Monday.
    for i in 0..14 {
        let d = day(2024, 1, 1) + i;
        assert_eq!(sel.filter(d, &hol), i % 7 < 5, "day offset {}", i);
    }
}

#[test]
fn month_range_wraps_over_new_year() {
    let sel = DaySelector {
        monthday: vec![MonthdayRange::Month { start: Month::November, end: Month::February, year: None }],
        ..Default::default()
    };
    let hol = Holidays::default();
    for m in 1..=12u32 {
        let expected = m == 11 || m == 12 || m == 1 || m == 2;
        assert_eq!(sel.filter(day(2023, m, 15), &hol), expected, "month {}", m);
    }
}

#[test]
fn normal_with_additional_saturday() {
    let td = week_and_saturday();
    // 2024-01-03 is a Wednesday, 2024-01-06 a Saturday.
    assert_eq!(td.state(at(2024, 1, 3, 12, 0)), RuleKind::Open);
    assert_eq!(td.state(at(2024, 1, 6, 12, 0)), RuleKind::Open);
    assert_eq!(td.state(at(2024, 1, 6, 9, 0)), RuleKind::Unknown);
    assert_eq!(td.state(at(2024, 1, 7, 12, 0)), RuleKind::Unknown);
    assert!(td.is_open(at(2024, 1, 3, 9, 0)));
    assert!(td.is_unknown(at(2024, 1, 3, 18, 0)));
    assert!(!td.is_closed(at(2024, 1, 3, 12, 0)));
}

#[test]
fn range_past_midnight_spills_into_next_day() {
    let td = domain(vec![rule(
        vec![weekdays(Weekday::Fri, Weekday::Fri)],
        vec![(t(22, 0), t(26, 0))],
        RuleKind::Open,
        RuleOperator::Normal,
    )]);
    // 2024-01-05 is a Friday.
    assert_eq!(td.state(at(2024, 1, 5, 23, 0)), RuleKind::Open);
    assert_eq!(td.state(at(2024, 1, 6, 1, 0)), RuleKind::Open);
    assert_eq!(td.state(at(2024, 1, 6, 2, 0)), RuleKind::Unknown);
    assert_eq!(td.state(at(2024, 1, 5, 21, 59)), RuleKind::Unknown);
    assert_eq!(td.next_change(at(2024, 1, 5, 22, 0)), at(2024, 1, 6, 2, 0));
}

#[test]
fn later_normal_rule_replaces_even_without_information() {
    let mut ph = rule(vec![], vec![(t(10, 0), t(12, 0))], RuleKind::Closed, RuleOperator::Normal);
    ph.day_selector.weekday = vec![WeekDayRange::Holiday { kind: HolidayKind::Public, offset: 0 }];
    let td = domain(vec![
        rule(vec![weekdays(Weekday::Mon, Weekday::Fri)], vec![(t(9, 0), t(18, 0))], RuleKind::Open, RuleOperator::Normal),
        ph,
    ]);
    assert_eq!(td.state(at(2024, 1, 3, 12, 0)), RuleKind::Unknown);
    let mut with_holiday = td.clone();
    with_holiday.holidays.public = vec![day(2024, 1, 3)];
    assert_eq!(with_holiday.state(at(2024, 1, 3, 11, 0)), RuleKind::Closed);
    assert_eq!(with_holiday.state(at(2024, 1, 3, 13, 0)), RuleKind::Unknown);
    assert_eq!(with_holiday.state(at(2024, 1, 4, 13, 0)), RuleKind::Unknown);
}

#[test]
fn fallback_used_only_without_information() {
    let td = domain(vec![
        rule(vec![weekdays(Weekday::Mon, Weekday::Fri)], vec![(t(9, 0), t(18, 0))], RuleKind::Open, RuleOperator::Normal),
        rule(vec![], vec![(t(0, 0), t(24, 0))], RuleKind::Closed, RuleOperator::Fallback),
    ]);
    assert_eq!(td.state(at(2024, 1, 3, 12, 0)), RuleKind::Open);
    assert_eq!(td.state(at(2024, 1, 3, 20, 0)), RuleKind::Unknown);
    // Saturday still hears from Friday's ranges (none run past midnight).
    assert_eq!(td.state(at(2024, 1, 6, 12, 0)), RuleKind::Unknown);
    assert_eq!(td.state(at(2024, 1, 7, 12, 0)), RuleKind::Closed);
}

#[test]
fn additional_merges_states_and_comments() {
    let mut second = rule(vec![], vec![(t(12, 0), t(20, 0))], RuleKind::Closed, RuleOperator::Additional);
    second.comments = vec!["late".to_string()];
    let mut first = rule(vec![], vec![(t(9, 0), t(14, 0))], RuleKind::Open, RuleOperator::Normal);
    first.comments = vec!["early".to_string()];
    let td = domain(vec![first, second]);
    let ranges = td.intervals(at(2024, 1, 3, 0, 0), at(2024, 1, 4, 0, 0));
    let summary: Vec<(u16, u16, RuleKind, Vec<String>)> = ranges
        .iter()
        .map(|r| (r.start.time.mins_from_midnight(), r.end.time.mins_from_midnight(), r.kind, r.comments.clone()))
        .collect();
    assert_eq!(
        summary,
        vec![
            (0, 540, RuleKind::Unknown, vec![]),
            (540, 840, RuleKind::Open, vec!["early".to_string()]),
            (840, 1200, RuleKind::Closed, vec!["late".to_string()]),
            (1200, 0, RuleKind::Unknown, vec![]),
        ]
    );
    assert_eq!(td.state(at(2024, 1, 3, 13, 0)), RuleKind::Open);
}

#[test]
fn easter_golden_values() {
    assert_eq!(easter(2024), (3, 31));
    assert_eq!(easter(2025), (4, 20));
    assert_eq!(easter(2019), (4, 21));
    assert_eq!(easter(2000), (4, 23));
    assert_eq!(easter(1818), (3, 22));
    assert_eq!(easter(2038), (4, 25));
    assert_eq!(easter(1943), (4, 25));
}

#[test]
fn easter_relative_date_range() {
    let easter_day = Date::Easter { year: None };
    let sel = DaySelector {
        monthday: vec![MonthdayRange::Date {
            start: (easter_day, DateOffset { wday_offset: WeekDayOffset::Unchanged, day_offset: -2 }),
            end: (easter_day, DateOffset { wday_offset: WeekDayOffset::Unchanged, day_offset: 1 }),
        }],
        ..Default::default()
    };
    let hol = Holidays::default();
    assert!(!sel.filter(day(2024, 3, 28), &hol));
    assert!(sel.filter(day(2024, 3, 29), &hol));
    assert!(sel.filter(day(2024, 4, 1), &hol));
    assert!(!sel.filter(day(2024, 4, 2), &hol));
    assert_eq!(easter_day.resolve(2025), Some(day(2025, 4, 20)));
}

#[test]
fn date_offset_snaps_to_weekday() {
    // 2024-01-03 is a Wednesday.
    let wed = day(2024, 1, 3);
    let next_mon = DateOffset { wday_offset: WeekDayOffset::Next(Weekday::Mon), day_offset: 0 };
    let prev_mon = DateOffset { wday_offset: WeekDayOffset::Prev(Weekday::Mon), day_offset: 0 };
    let same = DateOffset { wday_offset: WeekDayOffset::Next(Weekday::Wed), day_offset: 0 };
    let shifted = DateOffset { wday_offset: WeekDayOffset::Unchanged, day_offset: 10 };
    assert_eq!(next_mon.apply(wed), Some(day(2024, 1, 8)));
    assert_eq!(prev_mon.apply(wed), Some(day(2024, 1, 1)));
    assert_eq!(same.apply(wed), Some(wed));
    assert_eq!(shifted.apply(wed), Some(day(2024, 1, 13)));
    assert_eq!(weekday_index(wed), 2);
}

#[test]
fn fixed_date_range_and_invalid_date() {
    let sel = DaySelector {
        monthday: vec![MonthdayRange::Date {
            start: (Date::day(24, Month::December, 2024), DateOffset::default()),
            end: (Date::Fixed { year: None, month: Month::December, day: 26 }, DateOffset::default()),
        }],
        ..Default::default()
    };
    let hol = Holidays::default();
    assert!(!sel.filter(day(2024, 12, 23), &hol));
    assert!(sel.filter(day(2024, 12, 25), &hol));
    assert!(!sel.filter(day(2024, 12, 27), &hol));
    // The end takes the year under test, so the span reaches from 2024 on.
    assert!(sel.filter(day(2025, 12, 25), &hol));
    assert!(!sel.filter(day(2023, 12, 25), &hol));
    let feb30 = Date::Fixed { year: Some(2024), month: Month::February, day: 30 };
    assert_eq!(feb30.resolve(2024), None);
}

#[test]
fn year_and_week_ranges() {
    let hol = Holidays::default();
    let years = DaySelector { year: vec![YearRange { start: 2020, end: 2030, step: 2 }], ..Default::default() };
    assert!(years.filter(day(2024, 6, 1), &hol));
    assert!(!years.filter(day(2025, 6, 1), &hol));
    assert!(!years.filter(day(2032, 6, 1), &hol));
    let weeks = DaySelector { week: vec![WeekRange { start: 1, end: 2, step: 1 }], ..Default::default() };
    // 2024-01-01 opens ISO week 1; 2024-01-15 is in week 3.
    assert!(weeks.filter(day(2024, 1, 1), &hol));
    assert!(weeks.filter(day(2024, 1, 14), &hol));
    assert!(!weeks.filter(day(2024, 1, 15), &hol));
    assert!(weeks.filter(day(2020, 12, 31), &hol) == false);
}

#[test]
fn nth_weekday_of_month() {
    let hol = Holidays::default();
    let mut nth = [false; 5];
    nth[0] = true;
    let sel = DaySelector {
        weekday: vec![WeekDayRange::Fixed { start: Weekday::Mon, end: Weekday::Mon, offset: 0, nth }],
        ..Default::default()
    };
    assert!(sel.filter(day(2024, 1, 1), &hol));
    assert!(!sel.filter(day(2024, 1, 8), &hol));
    assert!(sel.filter(day(2024, 2, 5), &hol));
    let day_after = DaySelector {
        weekday: vec![WeekDayRange::Fixed { start: Weekday::Mon, end: Weekday::Mon, offset: 1, nth: [false; 5] }],
        ..Default::default()
    };
    assert!(day_after.filter(day(2024, 1, 2), &hol));
    assert!(!day_after.filter(day(2024, 1, 1), &hol));
}

#[test]
fn holiday_offset() {
    let hol = Holidays { public: vec![day(2024, 5, 1)], school: vec![] };
    let sel = DaySelector {
        weekday: vec![WeekDayRange::Holiday { kind: HolidayKind::Public, offset: 1 }],
        ..Default::default()
    };
    assert!(sel.filter(day(2024, 5, 2), &hol));
    assert!(!sel.filter(day(2024, 5, 1), &hol));
    assert!(hol.is_holiday(HolidayKind::Public, day(2024, 5, 1) as i64));
    assert!(!hol.is_holiday(HolidayKind::School, day(2024, 5, 1) as i64));
}

#[test]
fn intervals_cover_requested_span() {
    let td = week_and_saturday();
    assert!(td.intervals(at(2024, 1, 3, 12, 0), at(2024, 1, 3, 12, 0)).is_empty());
    let from = at(2024, 1, 3, 12, 0);
    let to = at(2024, 1, 8, 10, 0);
    let ranges = td.intervals(from, to);
    assert_eq!(ranges[0].start, from);
    assert_eq!(ranges.last().unwrap().end, to);
    for w in ranges.windows(2) {
        assert_eq!(w[0].end, w[1].start);
        assert_ne!(w[0].kind, w[1].kind);
    }
    for r in &ranges {
        assert!(r.start.minutes() < r.end.minutes());
        assert_eq!(td.state(r.start), r.kind);
    }
    assert_eq!(ranges.len(), 9);
}

#[test]
fn next_change_reproduces_interval_ends() {
    let td = week_and_saturday();
    let mut it = td.iter_from(at(2024, 1, 3, 12, 0));
    for _ in 0..8 {
        let r = it.next().unwrap();
        assert_eq!(td.next_change(r.start), r.end);
    }
    assert_eq!(td.next_change(at(2024, 1, 3, 12, 0)), at(2024, 1, 3, 18, 0));
    assert_eq!(td.next_change(at(2024, 1, 6, 14, 0)), at(2024, 1, 8, 9, 0));
}

#[test]
fn stream_ends_after_year_9999() {
    let td = week_and_saturday();
    let past = DateTime::new(LAST_DAY + 1, t(12, 0));
    assert_eq!(td.state(past), RuleKind::Unknown);
    assert_eq!(td.next_change(past), past);
    assert!(td.intervals(past, DateTime::new(LAST_DAY + 3, t(0, 0))).is_empty());
    let last = DateTime::new(LAST_DAY, t(20, 0));
    assert_eq!(td.next_change(last), DateTime::new(LAST_DAY + 1, t(0, 0)));
    assert_eq!(LAST_DAY, day(9999, 12, 31));
}

#[test]
fn addition_is_commutative_and_has_identity() {
    let a = Schedule::from_ranges(&vec![(t(9, 0), t(12, 0))], RuleKind::Open, &vec!["a".to_string()]);
    let b = Schedule::from_ranges(&vec![(t(11, 0), t(15, 0))], RuleKind::Closed, &vec!["b".to_string()]);
    let ab = a.clone().addition(b.clone());
    let ba = b.clone().addition(a.clone());
    let key = |s: &Schedule| -> Vec<(u16, u16, RuleKind, Vec<String>)> {
        s.ranges()
            .iter()
            .map(|r| {
                let mut c = r.comments.clone();
                c.sort();
                (r.start.mins_from_midnight(), r.end.mins_from_midnight(), r.kind, c)
            })
            .collect()
    };
    assert_eq!(key(&ab), key(&ba));
    assert_eq!(
        key(&ab),
        vec![
            (540, 660, RuleKind::Open, vec!["a".to_string()]),
            (660, 720, RuleKind::Open, vec!["a".to_string(), "b".to_string()]),
            (720, 900, RuleKind::Closed, vec!["b".to_string()]),
        ]
    );
    assert_eq!(key(&a.clone().addition(Schedule::empty())), key(&a));
    let filled = ab.filled();
    assert_eq!(filled.ranges().len(), 5);
    assert_eq!(filled.ranges()[0].kind, RuleKind::Unknown);
}

#[test]
fn next_change_scans_across_months() {
    let mut december = rule(vec![], vec![(t(8, 0), t(12, 0))], RuleKind::Open, RuleOperator::Normal);
    december.day_selector.monthday =
        vec![MonthdayRange::Month { start: Month::December, end: Month::December, year: None }];
    let td = domain(vec![december]);
    assert_eq!(td.next_change(at(2024, 1, 10, 12, 0)), at(2024, 12, 1, 8, 0));
    assert_eq!(td.state(at(2024, 12, 24, 9, 30)), RuleKind::Open);
    assert_eq!(td.next_change(at(2024, 12, 31, 9, 0)), at(2024, 12, 31, 12, 0));
}

#[test]
fn addition_is_associative_and_dedups_annotations() {
    let a = Schedule::from_ranges(&vec![(t(8, 0), t(10, 0))], RuleKind::Unknown, &vec!["x".to_string()]);
    let b = Schedule::from_ranges(&vec![(t(9, 0), t(11, 0))], RuleKind::Closed, &vec!["x".to_string(), "y".to_string()]);
    let c = Schedule::from_ranges(&vec![(t(9, 30), t(12, 0))], RuleKind::Open, &vec![]);
    let left = a.clone().addition(b.clone()).addition(c.clone());
    let right = a.clone().addition(b.clone().addition(c.clone()));
    let key = |s: &Schedule| -> Vec<(u16, u16, RuleKind, Vec<String>)> {
        s.ranges()
            .iter()
            .map(|r| {
                let mut c = r.comments.clone();
                c.sort();
                (r.start.mins_from_midnight(), r.end.mins_from_midnight(), r.kind, c)
            })
            .collect()
    };
    assert_eq!(key(&left), key(&right));
    let xy = vec!["x".to_string(), "y".to_string()];
    assert_eq!(
        key(&left),
        vec![
            (480, 540, RuleKind::Unknown, vec!["x".to_string()]),
            (540, 570, RuleKind::Closed, xy.clone()),
            (570, 660, RuleKind::Open, xy.clone()),
            (660, 720, RuleKind::Open, vec![]),
        ]
    );
    let ab = a.addition(b);
    assert_eq!(ab.ranges()[1].comments, xy);
}
