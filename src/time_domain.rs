//! Rules, their composition into one schedule per day, and the stream of
//! real-time intervals built from consecutive days.
use vstd::prelude::*;

use crate::calendar::LAST_DAY;
use crate::day::{DaySelector, Holidays};
use crate::extended_time::ExtendedTime;
use crate::schedule::{
    at, contains, copy_comments, lemma_at_member, contiguous, cset, combine, fill_value, in_ranges, val, wf_spans, Schedule,
    TimeRange, Value, DAY_MINUTES,
};
use crate::time_selector::TimeSelector;

verus! {

/// State a rule assigns to the times it covers.
#[derive(Debug, Clone, Copy, PartialEq, Eq, Structural, Hash, PartialOrd, Ord)]
pub enum RuleKind {
    Open,
    Closed,
    Unknown,
}

/// How a rule combines with the rules before it.
#[derive(Debug, Clone, Copy, PartialEq, Eq, Structural, Hash)]
pub enum RuleOperator {
    Normal,
    Additional,
    Fallback,
}

/// One rule: the days it claims, the times it gives them, the state of those
/// times, how it combines with the rules before it, and its annotations.
#[derive(Debug, Clone)]
pub struct RuleSequence {
    pub day_selector: DaySelector,
    pub time_selector: TimeSelector,
    pub kind: RuleKind,
    pub operator: RuleOperator,
    pub comments: Vec<String>,
}

impl RuleSequence {
    pub open spec fn wf(self) -> bool {
        self.day_selector.wf() && self.time_selector.wf()
    }

    /// Whether the rule says anything of day `d`: it claims `d` or the day
    /// before, whose ranges may run past midnight.
    pub open spec fn spec_has_info(self, d: int, hol: Holidays) -> bool {
        self.day_selector.spec_filter(d, hol) || self.day_selector.spec_filter(d - 1, hol)
    }

    /// What the rule says of minute `m` of day `d`.
    pub open spec fn spec_value(self, d: int, hol: Holidays, m: int) -> Option<Value> {
        if (self.day_selector.spec_filter(d, hol) && in_ranges(self.time_selector.time@, m)) || (
        self.day_selector.spec_filter(d - 1, hol) && in_ranges(
            self.time_selector.time@,
            m + DAY_MINUTES,
        )) {
            Some((self.kind, cset(self.comments@)))
        } else {
            None
        }
    }

    /// The schedule this rule alone gives to day `date`: `None` when it
    /// claims neither that day nor the day before.
    pub fn schedule_at(&self, date: i32, hol: &Holidays) -> (r: Option<Schedule>)
        requires
            self.wf(),
        ensures
            r is Some <==> self.spec_has_info(date as int, *hol),
            r matches Some(s) ==> s.wf() && forall|m: int|
                0 <= m < DAY_MINUTES ==> s.at(m) == self.spec_value(date as int, *hol, m),
    {
        let today = if self.day_selector.filter(date, hol) {
            let ranges = self.time_selector.intervals_at(date);
            Some(Schedule::from_ranges(&ranges, self.kind, &self.comments))
        } else {
            None
        };
        let yesterday = if date > i32::MIN && self.day_selector.filter(date - 1, hol) {
            let ranges = self.time_selector.intervals_at_next_day(date - 1);
            Some(Schedule::from_ranges(&ranges, self.kind, &self.comments))
        } else {
            None
        };
        proof {
            assert(!self.day_selector.spec_filter(i32::MIN - 1, *hol));
        }
        match (today, yesterday) {
            (Some(s1), Some(s2)) => {
                let r = s1.addition(s2);
                proof {
                    assert forall|m: int| 0 <= m < DAY_MINUTES implies r.at(m) == self.spec_value(date as int, *hol, m) by {
                        let c = cset(self.comments@);
                        assert(c.union(c) =~= c);
                    }
                }
                Some(r)
            },
            (Some(s1), None) => Some(s1),
            (None, Some(s2)) => Some(s2),
            (None, None) => None,
        }
    }
}

/// Whether the rules, folded from first to last, leave any information
/// about day `d`.
pub open spec fn fold_info(rules: Seq<RuleSequence>, d: int, hol: Holidays) -> bool
    decreases rules.len(),
{
    if rules.len() == 0 {
        false
    } else {
        let r = rules.last();
        let prev = fold_info(rules.drop_last(), d, hol);
        match r.operator {
            RuleOperator::Normal => r.spec_has_info(d, hol),
            _ => prev || r.spec_has_info(d, hol),
        }
    }
}

/// What the rules, folded from first to last, say of minute `m` of day `d`.
pub open spec fn fold_value(rules: Seq<RuleSequence>, d: int, hol: Holidays, m: int) -> Option<Value>
    decreases rules.len(),
{
    if rules.len() == 0 {
        None
    } else {
        let r = rules.last();
        let prev_info = fold_info(rules.drop_last(), d, hol);
        let prev = fold_value(rules.drop_last(), d, hol, m);
        let info = r.spec_has_info(d, hol);
        let cur = r.spec_value(d, hol, m);
        match r.operator {
            RuleOperator::Normal => if info { cur } else { None },
            RuleOperator::Additional => if prev_info && info {
                combine(prev, cur)
            } else if prev_info {
                prev
            } else if info {
                cur
            } else {
                None
            },
            RuleOperator::Fallback => if prev_info {
                prev
            } else if info {
                cur
            } else {
                None
            },
        }
    }
}

/// An ordered list of rules and the holidays they may refer to.
#[derive(Debug, Clone)]
pub struct TimeDomain {
    pub rules: Vec<RuleSequence>,
    pub holidays: Holidays,
}

impl TimeDomain {
    pub open spec fn wf(self) -> bool {
        forall|i: int| 0 <= i < self.rules@.len() ==> #[trigger] self.rules@[i].wf()
    }

    /// What the domain says of minute `m` of day `d`, before filling.
    pub open spec fn spec_value(self, d: int, m: int) -> Option<Value> {
        fold_value(self.rules@, d, self.holidays, m)
    }

    /// The schedule of day `date`: each rule's own schedule, folded from
    /// first to last. A Normal rule replaces what came before, even when it
    /// says nothing of the day; an Additional rule adds to it; a Fallback
    /// rule is used only when nothing before said anything.
    pub fn schedule_at(&self, date: i32) -> (r: Schedule)
        requires
            self.wf(),
        ensures
            r.wf(),
            forall|m: int| 0 <= m < DAY_MINUTES ==> r.at(m) == self.spec_value(date as int, m),
    {
        let mut acc: Option<Schedule> = None;
        let mut i: usize = 0;
        while i < self.rules.len()
            invariant
                self.wf(),
                i <= self.rules@.len(),
                acc is Some <==> fold_info(self.rules@.subrange(0, i as int), date as int, self.holidays),
                acc matches Some(s) ==> s.wf() && forall|m: int|
                    0 <= m < DAY_MINUTES ==> s.at(m) == fold_value(
                        self.rules@.subrange(0, i as int),
                        date as int,
                        self.holidays,
                        m,
                    ),
                acc is None ==> forall|m: int|
                    fold_value(self.rules@.subrange(0, i as int), date as int, self.holidays, m) is None,
            decreases self.rules@.len() - i,
        {
            let rule = &self.rules[i];
            assert(self.rules@.subrange(0, i + 1).drop_last() =~= self.rules@.subrange(0, i as int));
            assert(self.rules@.subrange(0, i + 1).last() == self.rules@[i as int]);
            assert(self.rules@[i as int].wf());
            let cur = rule.schedule_at(date, &self.holidays);
            acc = match rule.operator {
                RuleOperator::Normal => cur,
                RuleOperator::Additional => match (acc, cur) {
                    (Some(prev), Some(cur)) => Some(prev.addition(cur)),
                    (Some(prev), None) => Some(prev),
                    (None, cur) => cur,
                },
                RuleOperator::Fallback => match acc {
                    Some(prev) => Some(prev),
                    None => cur,
                },
            };
            i += 1;
        }
        assert(self.rules@.subrange(0, self.rules@.len() as int) =~= self.rules@);
        match acc {
            Some(s) => s,
            None => Schedule::empty(),
        }
    }
}

/// First instant past the stream: midnight after 9999-12-31.
pub open spec fn end_of_time() -> int {
    (LAST_DAY + 1) * DAY_MINUTES
}

/// A day number and a wall-clock time of that day.
#[derive(Debug, Clone, Copy, PartialEq, Eq, Structural)]
pub struct DateTime {
    pub date: i32,
    pub time: ExtendedTime,
}

impl DateTime {
    pub open spec fn wf(self) -> bool {
        self.time.wf() && self.time.total() < DAY_MINUTES
    }

    /// Minutes since midnight starting day 0.
    pub open spec fn instant(self) -> int {
        self.date * DAY_MINUTES + self.time.total()
    }

    pub fn new(date: i32, time: ExtendedTime) -> (r: Self)
        ensures
            r.date == date,
            r.time == time,
    {
        DateTime { date, time }
    }

    /// Minutes since midnight starting day 0.
    pub fn minutes(&self) -> (r: i64)
        ensures
            r == self.instant(),
    {
        let d: i64 = self.date as i64;
        d * 1440 + self.time.mins_from_midnight() as i64
    }
}

/// A span of real time, `start` included and `end` excluded, in one state.
#[derive(Debug, Clone)]
pub struct DateTimeRange {
    pub start: DateTime,
    pub end: DateTime,
    pub kind: RuleKind,
    pub comments: Vec<String>,
}

proof fn lemma_instant_split(d: int, m: int)
    requires
        0 <= m < DAY_MINUTES,
    ensures
        (d * DAY_MINUTES + m) / (DAY_MINUTES as int) == d,
        (d * DAY_MINUTES + m) % (DAY_MINUTES as int) == m,
{
    vstd::arithmetic::div_mod::lemma_fundamental_div_mod_converse(
        d * DAY_MINUTES + m,
        DAY_MINUTES as int,
        d,
        m,
    );
}

impl TimeDomain {
    /// State of the domain at an instant (in minutes), once each day is filled.
    pub open spec fn kind_at(self, t: int) -> RuleKind {
        fill_value(self.spec_value(t / (DAY_MINUTES as int), t % (DAY_MINUTES as int))).0
    }

    /// Annotations of the domain at an instant, once each day is filled.
    pub open spec fn comments_at(self, t: int) -> Set<Seq<char>> {
        fill_value(self.spec_value(t / (DAY_MINUTES as int), t % (DAY_MINUTES as int))).1
    }

    /// `x` lies between `from` and `to`, is not empty, and has one state
    /// all along, the state of its start.
    #[verifier::opaque]
    pub open spec fn is_run_within(self, x: DateTimeRange, from: int, to: int) -> bool {
        &&& from <= x.start.instant() < x.end.instant() <= to
        &&& x.end.instant() <= end_of_time()
        &&& x.start.wf() && x.end.wf()
        &&& x.kind == self.kind_at(x.start.instant())
        &&& forall|u: int| x.start.instant() <= u < x.end.instant() ==> #[trigger] self.kind_at(u) == x.kind
    }

    /// State at an instant as `state` reports it: Unknown past the end of
    /// the stream.
    pub open spec fn state_spec(self, t: DateTime) -> RuleKind {
        if t.date <= LAST_DAY {
            self.kind_at(t.instant())
        } else {
            RuleKind::Unknown
        }
    }

    /// `r` is where the state of instant `t` first changes: every instant
    /// from `t` to `r` (excluded) has that state, and `r` has another, or `r`
    /// is the end of the stream.
    pub open spec fn is_next_change(self, t: int, r: int) -> bool {
        &&& t < r <= end_of_time()
        &&& forall|u: int| t <= u < r ==> #[trigger] self.kind_at(u) == self.kind_at(t)
        &&& r < end_of_time() ==> self.kind_at(r) != self.kind_at(t)
    }
}

/// The next change of state is unique: two instants that both end the run of
/// one state starting at `t` are the same instant. So the end of every run
/// the stream produces is the next change seen from the run's start.
pub proof fn lemma_next_change_unique(td: TimeDomain, t: int, r1: int, r2: int)
    requires
        td.is_next_change(t, r1),
        td.is_next_change(t, r2),
    ensures
        r1 == r2,
{
    if r1 < r2 {
        assert(td.kind_at(r1) == td.kind_at(t));
    } else if r2 < r1 {
        assert(td.kind_at(r2) == td.kind_at(t));
    }
}

/// Every run that `intervals` yields has the state that `state` reports at
/// the run's start.
pub proof fn lemma_interval_state(td: TimeDomain, x: DateTimeRange, from: int, to: int)
    requires
        td.is_run_within(x, from, to),
    ensures
        x.kind == td.state_spec(x.start),
{
    reveal(TimeDomain::is_run_within);
    if x.start.date > LAST_DAY {
        assert(x.start.instant() >= end_of_time());
    }
}

impl TimeDomain {
    /// The stream of runs from instant `from` on.
    pub fn iter_from(&self, from: DateTime) -> (r: TimeDomainIterator<'_>)
        requires
            self.wf(),
            from.wf(),
        ensures
            r.inv(),
            r.domain() == *self,
            r.has_next() <==> from.date <= LAST_DAY,
            r.has_next() ==> r.position() <= from.instant() < r.peek_end(),
            r.has_next() ==> self.kind_at(r.position()) == self.kind_at(from.instant()),
    {
        TimeDomainIterator::new(self, from)
    }

    /// The first instant after `current_time` whose state differs from its
    /// state (or the end of the stream); `current_time` itself past the end.
    pub fn next_change(&self, current_time: DateTime) -> (r: DateTime)
        requires
            self.wf(),
            current_time.wf(),
        ensures
            r.wf(),
            current_time.date <= LAST_DAY ==> self.is_next_change(current_time.instant(), r.instant()),
            current_time.date > LAST_DAY ==> r == current_time,
    {
        let mut it = self.iter_from(current_time);
        match it.next() {
            Some(x) => {
                proof {
                    let t = current_time.instant();
                    assert forall|u: int| t <= u < x.end.instant() implies #[trigger] self.kind_at(u) == self.kind_at(t) by {
                        assert(self.kind_at(u) == self.kind_at(x.start.instant()));
                    }
                }
                x.end
            },
            None => current_time,
        }
    }

    /// State at an instant: Unknown past the end of the stream.
    pub fn state(&self, current_time: DateTime) -> (r: RuleKind)
        requires
            self.wf(),
            current_time.wf(),
        ensures
            r == self.state_spec(current_time),
    {
        let it = self.iter_from(current_time);
        match it.peek_kind() {
            Some(k) => k,
            None => RuleKind::Unknown,
        }
    }

    pub fn is_open(&self, current_time: DateTime) -> (r: bool)
        requires
            self.wf(),
            current_time.wf(),
        ensures
            r == (current_time.date <= LAST_DAY && self.kind_at(current_time.instant()) == RuleKind::Open),
    {
        self.state(current_time) == RuleKind::Open
    }

    pub fn is_closed(&self, current_time: DateTime) -> (r: bool)
        requires
            self.wf(),
            current_time.wf(),
        ensures
            r == (current_time.date <= LAST_DAY && self.kind_at(current_time.instant()) == RuleKind::Closed),
    {
        self.state(current_time) == RuleKind::Closed
    }

    pub fn is_unknown(&self, current_time: DateTime) -> (r: bool)
        requires
            self.wf(),
            current_time.wf(),
        ensures
            r == (current_time.date > LAST_DAY || self.kind_at(current_time.instant()) == RuleKind::Unknown),
    {
        self.state(current_time) == RuleKind::Unknown
    }

    /// The next run of the stream clipped to `to`, or `None` when the
    /// stream has ended or its next run starts at `to` or later.
    fn next_run(&self, it: &mut TimeDomainIterator, from: DateTime, to: DateTime) -> (r: Option<DateTimeRange>)
        requires
            self.wf(),
            old(it).inv(),
            old(it).domain() == *self,
            to.wf(),
            from.instant() <= old(it).position() <= end_of_time(),
            !old(it).has_next() ==> old(it).position() == end_of_time(),
        ensures
            final(it).inv(),
            final(it).domain() == *self,
            final(it).position() <= end_of_time(),
            old(it).position() <= final(it).position(),
            !final(it).has_next() ==> final(it).position() == end_of_time(),
            r is None ==> old(it).position() >= to.instant() || old(it).position() == end_of_time(),
            r is Some ==> old(it).position() < final(it).position() && old(it).position() < to.instant(),
            r matches Some(z) ==> {
                &&& z.start.instant() == old(it).position()
                &&& z.end.instant() == if final(it).position() < to.instant() {
                    final(it).position()
                } else {
                    to.instant()
                }
                &&& self.is_run_within(z, from.instant(), to.instant())
                &&& cset(z.comments@) == self.comments_at(z.start.instant())
            },
    {
        match it.next() {
            None => None,
            Some(y) => {
                if y.start.minutes() >= to.minutes() {
                    None
                } else {
                    let end = if y.end.minutes() < to.minutes() { y.end } else { to };
                    let z = DateTimeRange { start: y.start, end, kind: y.kind, comments: y.comments };
                    proof {
                        assert forall|u: int| z.start.instant() <= u < z.end.instant() implies #[trigger] self.kind_at(u) == z.kind by {
                            assert(self.kind_at(u) == self.kind_at(y.start.instant()));
                        }
                        assert(self.is_run_within(z, from.instant(), to.instant())) by {
                            reveal(TimeDomain::is_run_within);
                        }
                    }
                    Some(z)
                }
            },
        }
    }

    /// The runs of the stream between `from` and `to`, clipped to them: they
    /// follow each other from `from` up to `to` (or the end of the stream),
    /// and each has one state, that of its start.
    pub fn intervals(&self, from: DateTime, to: DateTime) -> (r: Vec<DateTimeRange>)
        requires
            self.wf(),
            from.wf(),
            to.wf(),
        ensures
            from.instant() >= to.instant() || from.date > LAST_DAY ==> r@.len() == 0,
            from.instant() < to.instant() && from.date <= LAST_DAY ==> {
                &&& r@.len() > 0
                &&& r@[0].start.instant() == from.instant()
                &&& r@.last().end.instant() == if to.instant() < end_of_time() {
                    to.instant()
                } else {
                    end_of_time()
                }
            },
            forall|i: int, j: int|
                0 <= i && j == i + 1 && j < r@.len() ==> #[trigger] r@[i].end.instant() == #[trigger] r@[j].start.instant(),
            forall|i: int| 0 <= i < r@.len() ==> self.is_run_within(#[trigger] r@[i], from.instant(), to.instant()),
            forall|i: int|
                0 < i < r@.len() ==> cset((#[trigger] r@[i]).comments@) == self.comments_at(r@[i].start.instant()),
    {
        let mut out: Vec<DateTimeRange> = Vec::new();
        let from_m = from.minutes();
        let to_m = to.minutes();
        if from_m >= to_m {
            return out;
        }
        let mut it = self.iter_from(from);
        let first = it.next();
        let x = match first {
            Some(x) => x,
            None => {
                return out;
            },
        };
        let end = if x.end.minutes() < to_m { x.end } else { to };
        proof {
            assert forall|u: int| from.instant() <= u < end.instant() implies #[trigger] self.kind_at(u) == x.kind by {
                assert(self.kind_at(u) == self.kind_at(x.start.instant()));
            }
        }
        let z = DateTimeRange { start: from, end, kind: x.kind, comments: x.comments };
        assert(self.is_run_within(z, from.instant(), to.instant())) by {
            reveal(TimeDomain::is_run_within);
        }
        out.push(z);
        let mut done = false;
        while !done
            invariant
                self.wf(),
                it.inv(),
                it.domain() == *self,
                from.instant() < to.instant(),
                to.instant() == to_m,
                from.wf(),
                to.wf(),
                from.instant() <= it.position(),
                it.position() <= end_of_time(),
                !it.has_next() ==> it.position() == end_of_time(),
                out@.len() > 0,
                out@[0].start.instant() == from.instant(),
                !done ==> out@.last().end.instant() == if it.position() < to.instant() { it.position() } else { to.instant() },
                done ==> out@.last().end.instant() == if to.instant() < end_of_time() { to.instant() } else { end_of_time() },
                forall|i: int, j: int|
                    0 <= i && j == i + 1 && j < out@.len() ==> #[trigger] out@[i].end.instant() == #[trigger] out@[j].start.instant(),
                forall|i: int| 0 <= i < out@.len() ==> self.is_run_within(#[trigger] out@[i], from.instant(), to.instant()),
                forall|i: int|
                    0 < i < out@.len() ==> cset((#[trigger] out@[i]).comments@) == self.comments_at(out@[i].start.instant()),
            decreases end_of_time() - it.position() + if done { 0int } else { 1int },
        {
            let ghost prev = out@;
            match self.next_run(&mut it, from, to) {
                None => {
                    done = true;
                },
                Some(z) => {
                    out.push(z);
                    proof {
                        assert(prev.last() == out@[prev.len() - 1]);
                        assert forall|i: int| 0 <= i < prev.len() implies out@[i] == prev[i] by {}
                    }
                },
            }
        }
        out
    }
}

/// A cursor over the domain's filled days, yielding maximal runs of one
/// state in real time.
pub struct TimeDomainIterator<'d> {
    time_domain: &'d TimeDomain,
    curr_date: i32,
    curr_schedule: Vec<TimeRange>,
    pos: usize,
}

impl<'d> TimeDomainIterator<'d> {
    pub closed spec fn domain(self) -> TimeDomain {
        *self.time_domain
    }

    /// Whether a run remains to be produced.
    pub closed spec fn has_next(self) -> bool {
        self.pos < self.curr_schedule@.len()
    }

    /// Instant at which the next run starts.
    pub closed spec fn position(self) -> int {
        if self.pos < self.curr_schedule@.len() {
            self.curr_date * DAY_MINUTES + self.curr_schedule@[self.pos as int].start.total()
        } else {
            self.curr_date * DAY_MINUTES
        }
    }

    /// Instant at which the range under the cursor ends.
    pub closed spec fn peek_end(self) -> int {
        self.curr_date * DAY_MINUTES + self.curr_schedule@[self.pos as int].end.total()
    }

    /// The cursor holds the filled schedule of its day, and stands on a
    /// range of it exactly while the day is not past the end of the stream.
    pub closed spec fn inv(self) -> bool {
        &&& self.time_domain.wf()
        &&& (self.pos < self.curr_schedule@.len() <==> self.curr_date <= LAST_DAY)
        &&& self.curr_date <= LAST_DAY ==> {
            &&& wf_spans(self.curr_schedule@)
            &&& contiguous(self.curr_schedule@, DAY_MINUTES as int)
            &&& forall|m: int|
                0 <= m < DAY_MINUTES ==> at(self.curr_schedule@, m) == Some(
                    fill_value(self.time_domain.spec_value(self.curr_date as int, m)),
                )
        }
    }

    proof fn lemma_current_range(self, m: int)
        requires
            self.inv(),
            self.has_next(),
            contains(self.curr_schedule@[self.pos as int], m),
        ensures
            self.time_domain.kind_at(self.curr_date * DAY_MINUTES + m) == self.curr_schedule@[self.pos as int].kind,
            self.time_domain.comments_at(self.curr_date * DAY_MINUTES + m) == cset(self.curr_schedule@[self.pos as int].comments@),
    {
        lemma_at_member(self.curr_schedule@, self.pos as int, m);
        lemma_instant_split(self.curr_date as int, m);
    }

    fn load_day(td: &TimeDomain, date: i32) -> (r: Vec<TimeRange>)
        requires
            td.wf(),
        ensures
            wf_spans(r@),
            contiguous(r@, DAY_MINUTES as int),
            forall|m: int|
                0 <= m < DAY_MINUTES ==> at(r@, m) == Some(fill_value(td.spec_value(date as int, m))),
    {
        let sched = td.schedule_at(date);
        let filled = sched.filled();
        let r = filled.into_ranges();
        assert forall|m: int| 0 <= m < DAY_MINUTES implies at(r@, m) == Some(fill_value(td.spec_value(date as int, m))) by {
            assert(filled.at(m) == Some(fill_value(sched.at(m))));
            assert(sched.at(m) == td.spec_value(date as int, m));
        }
        r
    }

    /// Starts the stream at `start`: the cursor stands on the range of that
    /// day holding the start time, or the stream is empty when the day is
    /// past 9999-12-31.
    pub fn new(time_domain: &'d TimeDomain, start: DateTime) -> (r: Self)
        requires
            time_domain.wf(),
            start.wf(),
        ensures
            r.inv(),
            r.domain() == *time_domain,
            r.has_next() <==> start.date <= LAST_DAY,
            r.has_next() ==> r.position() <= start.instant() < r.peek_end(),
            r.has_next() ==> time_domain.kind_at(r.position()) == time_domain.kind_at(start.instant()),
    {
        if start.date > LAST_DAY {
            return TimeDomainIterator { time_domain, curr_date: start.date, curr_schedule: Vec::new(), pos: 0 };
        }
        let curr_schedule = Self::load_day(time_domain, start.date);
        let t = start.time.mins_from_midnight();
        let mut pos: usize = 0;
        while !(curr_schedule[pos].start.mins_from_midnight() <= t && t < curr_schedule[pos].end.mins_from_midnight())
            invariant
                wf_spans(curr_schedule@),
                contiguous(curr_schedule@, DAY_MINUTES as int),
                t < DAY_MINUTES,
                pos < curr_schedule@.len(),
                curr_schedule@[pos as int].start.total() <= t,
            decreases curr_schedule@.len() - pos,
        {
            if pos == curr_schedule.len() - 1 {
                assert(curr_schedule@.last() == curr_schedule@[pos as int]);
            }
            assert(curr_schedule@[pos as int].end.total() == curr_schedule@[pos + 1].start.total());
            pos += 1;
        }
        let r = TimeDomainIterator { time_domain, curr_date: start.date, curr_schedule, pos };
        proof {
            r.lemma_current_range(t as int);
            r.lemma_current_range(curr_schedule@[pos as int].start.total());
        }
        r
    }

    /// State of the range under the cursor, if any.
    pub fn peek_kind(&self) -> (r: Option<RuleKind>)
        requires
            self.inv(),
        ensures
            r is Some <==> self.has_next(),
            r matches Some(k) ==> k == self.domain().kind_at(self.position()),
    {
        if self.pos < self.curr_schedule.len() {
            proof {
                self.lemma_current_range(self.curr_schedule@[self.pos as int].start.total());
            }
            Some(self.curr_schedule[self.pos].kind)
        } else {
            None
        }
    }

    /// Moves the cursor to the next range, loading the next day when this
    /// one is used up.
    fn advance(&mut self)
        requires
            old(self).inv(),
            old(self).has_next(),
        ensures
            final(self).inv(),
            final(self).domain() == old(self).domain(),
            final(self).position() == old(self).peek_end(),
            !final(self).has_next() ==> final(self).position() == end_of_time(),
    {
        proof {
            let s = self.curr_schedule@;
            if self.pos + 1 < s.len() {
                assert(s[self.pos as int].end.total() == s[self.pos + 1].start.total());
            }
        }
        let n = self.curr_schedule.len();
        self.pos += 1;
        if self.pos == n {
            self.curr_date += 1;
            if self.curr_date <= LAST_DAY {
                self.curr_schedule = Self::load_day(self.time_domain, self.curr_date);
            } else {
                self.curr_schedule = Vec::new();
            }
            self.pos = 0;
        }
    }

    /// The next maximal run of one state: from the cursor up to the first
    /// instant whose state differs, or up to the end of the stream.
    pub fn next(&mut self) -> (r: Option<DateTimeRange>)
        requires
            old(self).inv(),
        ensures
            final(self).inv(),
            final(self).domain() == old(self).domain(),
            r is Some <==> old(self).has_next(),
            r is None ==> final(self).position() == old(self).position() && !final(self).has_next(),
            r is Some ==> final(self).position() <= end_of_time(),
            r is Some && !final(self).has_next() ==> final(self).position() == end_of_time(),
            r matches Some(x) ==> {
                &&& x.start.wf()
                &&& x.end.wf()
                &&& x.start.instant() == old(self).position()
                &&& x.end.instant() == final(self).position()
                &&& old(self).peek_end() <= x.end.instant()
                &&& x.kind == old(self).domain().kind_at(x.start.instant())
                &&& cset(x.comments@) == old(self).domain().comments_at(x.start.instant())
                &&& old(self).domain().is_next_change(x.start.instant(), x.end.instant())
            },
    {
        if self.pos >= self.curr_schedule.len() {
            return None;
        }
        let ghost before = *self;
        let ghost td = *self.time_domain;
        let kind = self.curr_schedule[self.pos].kind;
        let comments = copy_comments(&self.curr_schedule[self.pos].comments);
        let start = DateTime { date: self.curr_date, time: self.curr_schedule[self.pos].start };
        let ghost start_i = start.instant();
        proof {
            self.lemma_current_range(self.curr_schedule@[self.pos as int].start.total());
            assert forall|u: int| start_i <= u < before.peek_end() implies #[trigger] td.kind_at(u) == kind by {
                self.lemma_current_range(u - self.curr_date * DAY_MINUTES);
            }
        }
        self.advance();
        while self.pos < self.curr_schedule.len() && self.curr_schedule[self.pos].kind == kind
            invariant
                self.inv(),
                *self.time_domain == td,
                start_i < self.position() <= end_of_time(),
                before.peek_end() <= self.position(),
                !self.has_next() ==> self.position() == end_of_time(),
                forall|u: int| start_i <= u < self.position() ==> #[trigger] td.kind_at(u) == kind,
            decreases end_of_time() - self.position(),
        {
            let ghost cur = *self;
            proof {
                assert forall|u: int| start_i <= u < cur.peek_end() implies #[trigger] td.kind_at(u) == kind by {
                    if u >= cur.position() {
                        cur.lemma_current_range(u - cur.curr_date * DAY_MINUTES);
                    }
                }
            }
            self.advance();
        }
        proof {
            if self.has_next() {
                self.lemma_current_range(self.curr_schedule@[self.pos as int].start.total());
            }
        }
        let end = if self.pos < self.curr_schedule.len() {
            DateTime { date: self.curr_date, time: self.curr_schedule[self.pos].start }
        } else {
            DateTime { date: self.curr_date, time: ExtendedTime::new(0, 0) }
        };
        Some(DateTimeRange { start, end, kind, comments })
    }
}

} // verus!