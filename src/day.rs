//! Calendar selectors: which days of the calendar a rule claims.
use vstd::prelude::*;

use crate::calendar::{
    day_from_ymd, day_of, day_of_day, days_of_ymd, easter, easter_spec, in_domain, iso_week_of,
    iso_week_of_day, month_of, month_of_day, weekday_index, weekday_of, year_of, year_of_day,
    DAY_LIMIT, MIN_DAY,
};

verus! {

/// Error for a month number outside 1 to 12.
#[derive(Debug, Clone, Copy, PartialEq, Eq, Structural)]
pub struct InvalidMonth;

/// Day of the week.
#[derive(Debug, Clone, Copy, PartialEq, Eq, Structural, Hash)]
pub enum Weekday {
    Mon,
    Tue,
    Wed,
    Thu,
    Fri,
    Sat,
    Sun,
}

impl Weekday {
    /// 0 for Monday up to 6 for Sunday.
    pub open spec fn index(self) -> int {
        match self {
            Weekday::Mon => 0,
            Weekday::Tue => 1,
            Weekday::Wed => 2,
            Weekday::Thu => 3,
            Weekday::Fri => 4,
            Weekday::Sat => 5,
            Weekday::Sun => 6,
        }
    }

    pub fn num_days_from_monday(self) -> (r: u8)
        ensures
            r == self.index(),
    {
        match self {
            Weekday::Mon => 0,
            Weekday::Tue => 1,
            Weekday::Wed => 2,
            Weekday::Thu => 3,
            Weekday::Fri => 4,
            Weekday::Sat => 5,
            Weekday::Sun => 6,
        }
    }
}

/// Two-letter name of a weekday.
pub fn wday_str(wday: Weekday) -> (r: &'static str)
    ensures
        r@ == match wday {
            Weekday::Mon => "Mo"@,
            Weekday::Tue => "Tu"@,
            Weekday::Wed => "We"@,
            Weekday::Thu => "Th"@,
            Weekday::Fri => "Fr"@,
            Weekday::Sat => "Sa"@,
            Weekday::Sun => "Su"@,
        },
{
    proof {
        reveal_strlit("Mo");
        reveal_strlit("Tu");
        reveal_strlit("We");
        reveal_strlit("Th");
        reveal_strlit("Fr");
        reveal_strlit("Sa");
        reveal_strlit("Su");
    }
    match wday {
        Weekday::Mon => "Mo",
        Weekday::Tue => "Tu",
        Weekday::Wed => "We",
        Weekday::Thu => "Th",
        Weekday::Fri => "Fr",
        Weekday::Sat => "Sa",
        Weekday::Sun => "Su",
    }
}

/// Month of the year.
#[derive(Debug, Clone, Copy, PartialEq, Eq, Structural, Hash, PartialOrd, Ord)]
pub enum Month {
    January,
    February,
    March,
    April,
    May,
    June,
    July,
    August,
    September,
    October,
    November,
    December,
}

impl Month {
    /// 1 for January up to 12 for December.
    pub open spec fn num(self) -> int {
        match self {
            Month::January => 1,
            Month::February => 2,
            Month::March => 3,
            Month::April => 4,
            Month::May => 5,
            Month::June => 6,
            Month::July => 7,
            Month::August => 8,
            Month::September => 9,
            Month::October => 10,
            Month::November => 11,
            Month::December => 12,
        }
    }

    pub fn number(self) -> (r: u8)
        ensures
            r == self.num(),
    {
        match self {
            Month::January => 1,
            Month::February => 2,
            Month::March => 3,
            Month::April => 4,
            Month::May => 5,
            Month::June => 6,
            Month::July => 7,
            Month::August => 8,
            Month::September => 9,
            Month::October => 10,
            Month::November => 11,
            Month::December => 12,
        }
    }

    /// The month with the given number, 1 to 12.
    pub fn try_from_u8(value: u8) -> (r: Result<Month, InvalidMonth>)
        ensures
            r is Ok <==> 1 <= value <= 12,
            r matches Ok(m) ==> m.num() == value,
    {
        match value {
            1 => Ok(Month::January),
            2 => Ok(Month::February),
            3 => Ok(Month::March),
            4 => Ok(Month::April),
            5 => Ok(Month::May),
            6 => Ok(Month::June),
            7 => Ok(Month::July),
            8 => Ok(Month::August),
            9 => Ok(Month::September),
            10 => Ok(Month::October),
            11 => Ok(Month::November),
            12 => Ok(Month::December),
            _ => Err(InvalidMonth),
        }
    }

    /// The following month, December wrapping to January.
    pub fn next(self) -> (r: Self)
        ensures
            r.num() == self.num() % 12 + 1,
    {
        let num = self.number();
        match Month::try_from_u8(num % 12 + 1) {
            Ok(m) => m,
            Err(_) => self,
        }
    }

    /// Full English name of the month.
    pub fn as_str(self) -> (r: &'static str)
        ensures
            r@ == match self {
                Month::January => "January"@,
                Month::February => "February"@,
                Month::March => "March"@,
                Month::April => "April"@,
                Month::May => "May"@,
                Month::June => "June"@,
                Month::July => "July"@,
                Month::August => "August"@,
                Month::September => "September"@,
                Month::October => "October"@,
                Month::November => "November"@,
                Month::December => "December"@,
            },
    {
        proof {
            reveal_strlit("January");
            reveal_strlit("February");
            reveal_strlit("March");
            reveal_strlit("April");
            reveal_strlit("May");
            reveal_strlit("June");
            reveal_strlit("July");
            reveal_strlit("August");
            reveal_strlit("September");
            reveal_strlit("October");
            reveal_strlit("November");
            reveal_strlit("December");
        }
        match self {
            Month::January => "January",
            Month::February => "February",
            Month::March => "March",
            Month::April => "April",
            Month::May => "May",
            Month::June => "June",
            Month::July => "July",
            Month::August => "August",
            Month::September => "September",
            Month::October => "October",
            Month::November => "November",
            Month::December => "December",
        }
    }
}

/// Whether `x` lies in the inclusive range from `s` to `e`, which wraps
/// around when `s` is after `e`.
pub open spec fn wrapping_contains(s: int, e: int, x: int) -> bool {
    if s <= e {
        s <= x <= e
    } else {
        s <= x || x <= e
    }
}

fn wrapping_contains_exec(s: u8, e: u8, x: u8) -> (r: bool)
    ensures
        r == wrapping_contains(s as int, e as int, x as int),
{
    if s <= e {
        s <= x && x <= e
    } else {
        s <= x || x <= e
    }
}

/// Every `step`-th year from `start` to `end`, both included.
#[derive(Debug, Clone, Copy, PartialEq, Eq, Structural)]
pub struct YearRange {
    pub start: u16,
    pub end: u16,
    pub step: u16,
}

impl YearRange {
    pub open spec fn spec_matches(self, y: int) -> bool {
        self.start <= y <= self.end && (y - self.start) % (self.step as int) == 0
    }

    pub fn matches_year(&self, y: i32) -> (r: bool)
        requires
            self.step >= 1,
        ensures
            r == self.spec_matches(y as int),
    {
        if (self.start as i32) <= y && y <= (self.end as i32) {
            (y - self.start as i32) % (self.step as i32) == 0
        } else {
            false
        }
    }
}

/// Every `step`-th ISO week from `start` to `end`, both included.
#[derive(Debug, Clone, Copy, PartialEq, Eq, Structural)]
pub struct WeekRange {
    pub start: u8,
    pub end: u8,
    pub step: u8,
}

impl WeekRange {
    pub open spec fn spec_matches(self, w: int) -> bool {
        self.start <= w <= self.end && (w - self.start) % (self.step as int) == 0
    }

    pub fn matches_week(&self, w: u32) -> (r: bool)
        requires
            self.step >= 1,
        ensures
            r == self.spec_matches(w as int),
    {
        if (self.start as u32) <= w && w <= (self.end as u32) {
            (w - self.start as u32) % (self.step as u32) == 0
        } else {
            false
        }
    }
}


/// Kind of holiday a selector can name.
#[derive(Debug, Clone, Copy, PartialEq, Eq, Structural)]
pub enum HolidayKind {
    Public,
    School,
}

/// The holiday oracle: the day numbers that count as public or school
/// holidays in the applicable region.
#[derive(Debug, Clone, Default)]
pub struct Holidays {
    pub public: Vec<i32>,
    pub school: Vec<i32>,
}

impl Holidays {
    pub open spec fn spec_is_holiday(self, kind: HolidayKind, d: int) -> bool {
        match kind {
            HolidayKind::Public => exists|i: int| 0 <= i < self.public@.len() && self.public@[i] == d,
            HolidayKind::School => exists|i: int| 0 <= i < self.school@.len() && self.school@[i] == d,
        }
    }

    /// Whether day `d` is a holiday of the given kind.
    pub fn is_holiday(&self, kind: HolidayKind, d: i64) -> (r: bool)
        ensures
            r == self.spec_is_holiday(kind, d as int),
    {
        let list = match kind {
            HolidayKind::Public => &self.public,
            HolidayKind::School => &self.school,
        };
        let mut i: usize = 0;
        while i < list.len()
            invariant
                i <= list@.len(),
                list@ == (match kind {
                    HolidayKind::Public => self.public@,
                    HolidayKind::School => self.school@,
                }),
                forall|j: int| 0 <= j < i ==> list@[j] != d,
            decreases list@.len() - i,
        {
            if list[i] as i64 == d {
                return true;
            }
            i += 1;
        }
        false
    }
}

/// A calendar date that is either fixed or follows Easter; a missing year
/// stands for the year of the day under test.
#[derive(Debug, Clone, Copy, PartialEq, Eq, Structural)]
pub enum Date {
    Fixed { year: Option<u16>, month: Month, day: u8 },
    Easter { year: Option<u16> },
}

impl Date {
    /// A fixed date pinned to a year.
    pub fn day(day: u8, month: Month, year: u16) -> (r: Self)
        ensures
            r == (Date::Fixed { year: Some(year), month, day }),
    {
        Date::Fixed { day, month, year: Some(year) }
    }

    /// The day number this date falls on when the year under test is `y`.
    pub open spec fn spec_resolve(self, y: int) -> Option<int> {
        let r = match self {
            Date::Fixed { year, month, day } => {
                let yy = match year { Some(v) => v as int, None => y };
                days_of_ymd(yy, month.num(), day as int)
            },
            Date::Easter { year } => {
                let yy = match year { Some(v) => v as int, None => y };
                if 0 <= yy <= 65535 {
                    days_of_ymd(yy, easter_spec(yy).0, easter_spec(yy).1)
                } else {
                    None
                }
            },
        };
        match r {
            Some(x) => if in_domain(x) { Some(x) } else { None },
            None => None,
        }
    }

    pub fn resolve(&self, y: i32) -> (r: Option<i32>)
        ensures
            r matches Some(x) ==> self.spec_resolve(y as int) == Some(x as int),
            r is None ==> self.spec_resolve(y as int) is None,
    {
        let r = match *self {
            Date::Fixed { year, month, day } => {
                let yy: i32 = match year { Some(v) => v as i32, None => y };
                day_from_ymd(yy, month.number() as u32, day as u32)
            },
            Date::Easter { year } => {
                let yy: i32 = match year { Some(v) => v as i32, None => y };
                if 0 <= yy && yy <= 65535 {
                    let (m, d) = easter(yy as u16);
                    day_from_ymd(yy, m as u32, d as u32)
                } else {
                    None
                }
            },
        };
        match r {
            Some(x) => if MIN_DAY <= x && x <= DAY_LIMIT { Some(x) } else { None },
            None => None,
        }
    }
}

/// Snap to the next or previous occurrence of a weekday.
#[derive(Debug, Clone, Copy, PartialEq, Eq, Structural)]
pub enum WeekDayOffset {
    Unchanged,
    Next(Weekday),
    Prev(Weekday),
}

impl Default for WeekDayOffset {
    fn default() -> (r: Self)
        ensures
            r == WeekDayOffset::Unchanged,
    {
        WeekDayOffset::Unchanged
    }
}

/// A shift by a number of days, then an optional weekday snap.
#[derive(Debug, Clone, Copy, PartialEq, Eq, Structural)]
pub struct DateOffset {
    pub wday_offset: WeekDayOffset,
    pub day_offset: i64,
}

impl Default for DateOffset {
    /// No shift and no snap.
    fn default() -> (r: Self)
        ensures
            r == (DateOffset { wday_offset: WeekDayOffset::Unchanged, day_offset: 0 }),
    {
        DateOffset { wday_offset: WeekDayOffset::Unchanged, day_offset: 0 }
    }
}

impl DateOffset {
    /// The day reached from day `a`, or `None` when it leaves the domain.
    pub open spec fn spec_apply(self, a: int) -> Option<int> {
        let b = a + self.day_offset;
        let c = match self.wday_offset {
            WeekDayOffset::Unchanged => b,
            WeekDayOffset::Next(w) => b + (w.index() - weekday_of(b)) % 7,
            WeekDayOffset::Prev(w) => b - (weekday_of(b) - w.index()) % 7,
        };
        if in_domain(b) && in_domain(c) {
            Some(c)
        } else {
            None
        }
    }

    pub fn apply(&self, a: i32) -> (r: Option<i32>)
        ensures
            r matches Some(x) ==> self.spec_apply(a as int) == Some(x as int),
            r is None ==> self.spec_apply(a as int) is None,
    {
        let b: i128 = a as i128 + self.day_offset as i128;
        if b < MIN_DAY as i128 || b > DAY_LIMIT as i128 {
            return None;
        }
        let b: i32 = b as i32;
        let wd: i32 = weekday_index(b) as i32;
        let c: i32 = match self.wday_offset {
            WeekDayOffset::Unchanged => b,
            WeekDayOffset::Next(w) => b + (w.num_days_from_monday() as i32 + 7 - wd) % 7,
            WeekDayOffset::Prev(w) => b - (wd + 7 - w.num_days_from_monday() as i32) % 7,
        };
        proof {
            match self.wday_offset {
                WeekDayOffset::Next(w) => {
                    assert((w.index() + 7 - wd) % 7 == (w.index() - wd) % 7) by (nonlinear_arith);
                },
                WeekDayOffset::Prev(w) => {
                    assert((wd + 7 - w.index()) % 7 == (wd - w.index()) % 7) by (nonlinear_arith);
                },
                WeekDayOffset::Unchanged => {},
            }
        }
        if MIN_DAY <= c && c <= DAY_LIMIT {
            Some(c)
        } else {
            None
        }
    }
}

/// Months, or a span between two (possibly movable) dates.
#[derive(Debug, Clone, Copy)]
pub enum MonthdayRange {
    Month { start: Month, end: Month, year: Option<u16> },
    Date { start: (Date, DateOffset), end: (Date, DateOffset) },
}

/// Day number of an offset date endpoint in the year under test.
pub open spec fn spec_endpoint(p: (Date, DateOffset), y: int) -> Option<int> {
    match p.0.spec_resolve(y) {
        Some(a) => p.1.spec_apply(a),
        None => None,
    }
}

fn endpoint(p: &(Date, DateOffset), y: i32) -> (r: Option<i32>)
    ensures
        r matches Some(x) ==> spec_endpoint(*p, y as int) == Some(x as int),
        r is None ==> spec_endpoint(*p, y as int) is None,
{
    match p.0.resolve(y) {
        Some(a) => p.1.apply(a),
        None => None,
    }
}

impl MonthdayRange {
    pub open spec fn spec_matches(self, d: int) -> bool {
        match self {
            MonthdayRange::Month { start, end, year } => {
                (match year { Some(y) => year_of(d) == y as int, None => true })
                    && wrapping_contains(start.num(), end.num(), month_of(d))
            },
            MonthdayRange::Date { start, end } => {
                match (spec_endpoint(start, year_of(d)), spec_endpoint(end, year_of(d))) {
                    (Some(s), Some(e)) => s <= d <= e,
                    _ => false,
                }
            },
        }
    }

    pub fn matches_day(&self, d: i32) -> (r: bool)
        requires
            in_domain(d as int),
        ensures
            r == self.spec_matches(d as int),
    {
        let y = year_of_day(d);
        match self {
            MonthdayRange::Month { start, end, year } => {
                let year_ok = match year {
                    Some(v) => y == *v as i32,
                    None => true,
                };
                let m = month_of_day(d) as u8;
                year_ok && wrapping_contains_exec(start.number(), end.number(), m)
            },
            MonthdayRange::Date { start, end } => {
                match (endpoint(start, y), endpoint(end, y)) {
                    (Some(s), Some(e)) => s <= d && d <= e,
                    _ => false,
                }
            },
        }
    }
}

/// Weekdays, possibly restricted to their n-th occurrences in the month, or
/// holidays; either shifted by a number of days.
#[derive(Debug, Clone, Copy)]
pub enum WeekDayRange {
    Fixed { start: Weekday, end: Weekday, offset: i64, nth: [bool; 5] },
    Holiday { kind: HolidayKind, offset: i64 },
}

impl WeekDayRange {
    pub open spec fn spec_matches(self, d: int, hol: Holidays) -> bool {
        match self {
            WeekDayRange::Fixed { start, end, offset, nth } => {
                let t = d - offset;
                in_domain(t) && wrapping_contains(start.index(), end.index(), weekday_of(t)) && (
                !(nth@[0] || nth@[1] || nth@[2] || nth@[3] || nth@[4]) || nth@[(day_of(t) - 1)
                    / 7])
            },
            WeekDayRange::Holiday { kind, offset } => hol.spec_is_holiday(kind, d - offset),
        }
    }

    pub fn matches_day(&self, d: i32, hol: &Holidays) -> (r: bool)
        ensures
            r == self.spec_matches(d as int, *hol),
    {
        match self {
            WeekDayRange::Fixed { start, end, offset, nth } => {
                let t: i128 = d as i128 - *offset as i128;
                if t < MIN_DAY as i128 || t > DAY_LIMIT as i128 {
                    return false;
                }
                let t: i32 = t as i32;
                let wd = weekday_index(t);
                if !wrapping_contains_exec(start.num_days_from_monday(), end.num_days_from_monday(), wd) {
                    return false;
                }
                if !(nth[0] || nth[1] || nth[2] || nth[3] || nth[4]) {
                    return true;
                }
                let pos = ((day_of_day(t) - 1) / 7) as usize;
                nth[pos]
            },
            WeekDayRange::Holiday { kind, offset } => {
                let t: i128 = d as i128 - *offset as i128;
                if t < i64::MIN as i128 || t > i64::MAX as i128 {
                    return false;
                }
                hol.is_holiday(*kind, t as i64)
            },
        }
    }
}

/// Which days a rule claims: a day matches when it matches every non-empty
/// list, and it matches a list when it matches one of its entries.
#[derive(Debug, Clone, Default)]
pub struct DaySelector {
    pub year: Vec<YearRange>,
    pub monthday: Vec<MonthdayRange>,
    pub week: Vec<WeekRange>,
    pub weekday: Vec<WeekDayRange>,
}

impl DaySelector {
    /// Every step is at least one.
    pub open spec fn wf(self) -> bool {
        &&& forall|i: int| 0 <= i < self.year@.len() ==> self.year@[i].step >= 1
        &&& forall|i: int| 0 <= i < self.week@.len() ==> self.week@[i].step >= 1
    }

    pub open spec fn year_ok(self, d: int) -> bool {
        self.year@.len() == 0 || exists|i: int|
            0 <= i < self.year@.len() && self.year@[i].spec_matches(year_of(d))
    }

    pub open spec fn monthday_ok(self, d: int) -> bool {
        self.monthday@.len() == 0 || exists|i: int|
            0 <= i < self.monthday@.len() && self.monthday@[i].spec_matches(d)
    }

    pub open spec fn week_ok(self, d: int) -> bool {
        self.week@.len() == 0 || exists|i: int|
            0 <= i < self.week@.len() && self.week@[i].spec_matches(iso_week_of(d))
    }

    pub open spec fn weekday_ok(self, d: int, hol: Holidays) -> bool {
        self.weekday@.len() == 0 || exists|i: int|
            0 <= i < self.weekday@.len() && self.weekday@[i].spec_matches(d, hol)
    }

    /// Whether the selector claims day `d`.
    pub open spec fn spec_filter(self, d: int, hol: Holidays) -> bool {
        &&& in_domain(d)
        &&& self.year_ok(d)
        &&& self.monthday_ok(d)
        &&& self.week_ok(d)
        &&& self.weekday_ok(d, hol)
    }

    pub fn filter(&self, d: i32, hol: &Holidays) -> (r: bool)
        requires
            self.wf(),
        ensures
            r == self.spec_filter(d as int, *hol),
    {
        if d < MIN_DAY || d > DAY_LIMIT {
            return false;
        }
        if self.year.len() > 0 {
            let y = year_of_day(d);
            let mut found = false;
            let mut i: usize = 0;
            while i < self.year.len()
                invariant
                    self.wf(),
                    i <= self.year@.len(),
                    y == year_of(d as int),
                    found == exists|j: int| 0 <= j < i && self.year@[j].spec_matches(year_of(d as int)),
                decreases self.year@.len() - i,
            {
                if self.year[i].matches_year(y) {
                    found = true;
                }
                i += 1;
            }
            if !found {
                return false;
            }
        }
        if self.monthday.len() > 0 {
            let mut found = false;
            let mut i: usize = 0;
            while i < self.monthday.len()
                invariant
                    in_domain(d as int),
                    i <= self.monthday@.len(),
                    found == exists|j: int| 0 <= j < i && self.monthday@[j].spec_matches(d as int),
                decreases self.monthday@.len() - i,
            {
                if self.monthday[i].matches_day(d) {
                    found = true;
                }
                i += 1;
            }
            if !found {
                return false;
            }
        }
        if self.week.len() > 0 {
            let w = iso_week_of_day(d);
            let mut found = false;
            let mut i: usize = 0;
            while i < self.week.len()
                invariant
                    self.wf(),
                    i <= self.week@.len(),
                    w == iso_week_of(d as int),
                    found == exists|j: int| 0 <= j < i && self.week@[j].spec_matches(iso_week_of(d as int)),
                decreases self.week@.len() - i,
            {
                if self.week[i].matches_week(w) {
                    found = true;
                }
                i += 1;
            }
            if !found {
                return false;
            }
        }
        if self.weekday.len() > 0 {
            let mut found = false;
            let mut i: usize = 0;
            while i < self.weekday.len()
                invariant
                    i <= self.weekday@.len(),
                    found == exists|j: int| 0 <= j < i && self.weekday@[j].spec_matches(d as int, *hol),
                decreases self.weekday@.len() - i,
            {
                if self.weekday[i].matches_day(d, hol) {
                    found = true;
                }
                i += 1;
            }
            if !found {
                return false;
            }
        }
        true
    }
}

/// A weekday range from Monday to Friday, with no offset and no n-th
/// occurrence, claims exactly the Mondays to Fridays of the domain.
pub proof fn lemma_monday_to_friday(nth: [bool; 5], d: int, hol: Holidays)
    requires
        !nth@[0] && !nth@[1] && !nth@[2] && !nth@[3] && !nth@[4],
    ensures
        (WeekDayRange::Fixed { start: Weekday::Mon, end: Weekday::Fri, offset: 0, nth }).spec_matches(d, hol)
            <==> in_domain(d) && 0 <= weekday_of(d) <= 4,
{
}

/// A month range from November to February claims exactly the days of
/// November, December, January and February.
pub proof fn lemma_november_to_february(d: int)
    requires
        1 <= month_of(d) <= 12,
    ensures
        (MonthdayRange::Month { start: Month::November, end: Month::February, year: Option::None }).spec_matches(d)
            <==> (month_of(d) == 11 || month_of(d) == 12 || month_of(d) == 1 || month_of(d) == 2),
{
}

} // verus!
