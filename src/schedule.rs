//! The schedule of one day: sorted, disjoint time ranges with a state and
//! annotations, and the algebra that merges them.
use vstd::prelude::*;

use crate::extended_time::ExtendedTime;
use crate::time_domain::RuleKind;

verus! {

/// Minutes in a day.
pub const DAY_MINUTES: u16 = 1440;

/// A range of one day, `start` included and `end` excluded.
#[derive(Debug, Clone)]
pub struct TimeRange {
    pub start: ExtendedTime,
    pub end: ExtendedTime,
    pub kind: RuleKind,
    pub comments: Vec<String>,
}

/// The annotations of a list, as a set of texts.
pub open spec fn cset(c: Seq<String>) -> Set<Seq<char>> {
    Set::new(|x: Seq<char>| exists|i: int| 0 <= i < c.len() && c[i]@ == x)
}

/// What a schedule says of one minute: a state and a set of annotations.
pub type Value = (RuleKind, Set<Seq<char>>);

pub open spec fn val(r: TimeRange) -> Value {
    (r.kind, cset(r.comments@))
}

pub open spec fn contains(r: TimeRange, m: int) -> bool {
    r.start.total() <= m < r.end.total()
}

/// What a list of ranges says of minute `m`; later ranges take precedence,
/// which in a well-formed list never matters as ranges are disjoint.
pub open spec fn at(s: Seq<TimeRange>, m: int) -> Option<Value>
    decreases s.len(),
{
    if s.len() == 0 {
        None
    } else if contains(s.last(), m) {
        Some(val(s.last()))
    } else {
        at(s.drop_last(), m)
    }
}

/// Ranges lie in the day, are non-empty, sorted and disjoint, and two
/// ranges that touch differ in state or annotations.
pub open spec fn wf_spans(s: Seq<TimeRange>) -> bool {
    &&& forall|i: int|
        0 <= i < s.len() ==> {
            &&& s[i].start.wf()
            &&& s[i].end.wf()
            &&& 0 <= s[i].start.total() < s[i].end.total() <= DAY_MINUTES
        }
    &&& forall|i: int, j: int|
        0 <= i && j == i + 1 && j < s.len() ==> #[trigger] s[i].end.total() <= #[trigger] s[j].start.total()
    &&& forall|i: int, j: int|
        0 <= i && j == i + 1 && j < s.len() ==> #[trigger] s[i].end.total() == #[trigger] s[j].start.total() ==> val(s[i]) != val(s[j])
}

/// Ranges follow each other without gaps, from midnight to `m`.
pub open spec fn contiguous(s: Seq<TimeRange>, m: int) -> bool {
    &&& s.len() > 0
    &&& s[0].start.total() == 0
    &&& s.last().end.total() == m
    &&& forall|i: int, j: int|
        0 <= i && j == i + 1 && j < s.len() ==> #[trigger] s[i].end.total() == #[trigger] s[j].start.total()
}

/// State of a minute covered by two schedules at once.
pub open spec fn merge_kind(a: RuleKind, b: RuleKind) -> RuleKind {
    if a == RuleKind::Open || b == RuleKind::Open {
        RuleKind::Open
    } else if a == RuleKind::Closed || b == RuleKind::Closed {
        RuleKind::Closed
    } else {
        RuleKind::Unknown
    }
}

/// What a filled schedule says of a minute, from what the schedule says.
pub open spec fn fill_value(v: Option<Value>) -> Value {
    match v {
        Some(x) => x,
        None => (RuleKind::Unknown, Set::<Seq<char>>::empty()),
    }
}

/// What the sum of two schedules says of a minute, from what each says.
pub open spec fn combine(a: Option<Value>, b: Option<Value>) -> Option<Value> {
    match (a, b) {
        (None, b) => b,
        (a, None) => a,
        (Some(x), Some(y)) => Some((merge_kind(x.0, y.0), x.1.union(y.1))),
    }
}

proof fn lemma_at_push(s: Seq<TimeRange>, x: TimeRange, m: int)
    ensures
        at(s.push(x), m) == if contains(x, m) {
            Some(val(x))
        } else {
            at(s, m)
        },
{
    assert(s.push(x).drop_last() =~= s);
}

proof fn lemma_at_past_end(s: Seq<TimeRange>, m: int)
    requires
        forall|i: int| 0 <= i < s.len() ==> s[i].end.total() <= m,
    ensures
        at(s, m) is None,
    decreases s.len(),
{
    if s.len() > 0 {
        lemma_at_past_end(s.drop_last(), m);
    }
}

fn kind_merge(a: RuleKind, b: RuleKind) -> (r: RuleKind)
    ensures
        r == merge_kind(a, b),
{
    if a == RuleKind::Open || b == RuleKind::Open {
        RuleKind::Open
    } else if a == RuleKind::Closed || b == RuleKind::Closed {
        RuleKind::Closed
    } else {
        RuleKind::Unknown
    }
}

fn has_comment(v: &Vec<String>, s: &String) -> (r: bool)
    ensures
        r == exists|i: int| 0 <= i < v@.len() && v@[i]@ == s@,
{
    let mut i: usize = 0;
    while i < v.len()
        invariant
            i <= v@.len(),
            forall|j: int| 0 <= j < i ==> v@[j]@ != s@,
        decreases v@.len() - i,
    {
        if v[i] == *s {
            return true;
        }
        i += 1;
    }
    false
}

pub(crate) fn copy_comments(v: &Vec<String>) -> (r: Vec<String>)
    ensures
        r@.len() == v@.len(),
        forall|i: int| 0 <= i < v@.len() ==> r@[i]@ == v@[i]@,
        cset(r@) == cset(v@),
{
    let mut r: Vec<String> = Vec::new();
    let mut i: usize = 0;
    while i < v.len()
        invariant
            i <= v@.len(),
            r@.len() == i,
            forall|j: int| 0 <= j < i ==> r@[j]@ == v@[j]@,
        decreases v@.len() - i,
    {
        r.push(v[i].clone());
        i += 1;
    }
    assert(cset(r@) =~= cset(v@));
    r
}

/// Annotations of both lists, each text once from `b` when `a` lacks it.
fn union_comments(a: &Vec<String>, b: &Vec<String>) -> (r: Vec<String>)
    ensures
        cset(r@) == cset(a@).union(cset(b@)),
{
    let mut r = copy_comments(a);
    let mut j: usize = 0;
    while j < b.len()
        invariant
            j <= b@.len(),
            cset(r@) == cset(a@).union(cset(b@.subrange(0, j as int))),
        decreases b@.len() - j,
    {
        if !has_comment(&r, &b[j]) {
            let ghost prev = r@;
            r.push(b[j].clone());
            assert(cset(r@) =~= cset(prev).insert(b@[j as int]@)) by {
                assert(forall|i: int| 0 <= i < prev.len() ==> r@[i] == prev[i]);
                assert(r@[prev.len() as int] == b@[j as int]);
            }
        } else {
            assert(cset(r@).contains(b@[j as int]@));
        }
        assert(cset(b@.subrange(0, j + 1)) =~= cset(b@.subrange(0, j as int)).insert(b@[j as int]@)) by {
            assert(b@.subrange(0, j + 1)[j as int] == b@[j as int]);
            assert(forall|i: int| 0 <= i < j ==> b@.subrange(0, j + 1)[i] == b@.subrange(0, j as int)[i]);
        }
        j += 1;
    }
    assert(b@.subrange(0, b@.len() as int) =~= b@);
    r
}

/// Whether two annotation lists hold the same texts.
fn same_comments(a: &Vec<String>, b: &Vec<String>) -> (r: bool)
    ensures
        r == (cset(a@) == cset(b@)),
{
    let mut i: usize = 0;
    while i < a.len()
        invariant
            i <= a@.len(),
            forall|k: int| 0 <= k < i ==> cset(b@).contains(a@[k]@),
        decreases a@.len() - i,
    {
        if !has_comment(b, &a[i]) {
            assert(cset(a@).contains(a@[i as int]@));
            return false;
        }
        i += 1;
    }
    let mut j: usize = 0;
    while j < b.len()
        invariant
            j <= b@.len(),
            forall|k: int| 0 <= k < a@.len() ==> cset(b@).contains(a@[k]@),
            forall|k: int| 0 <= k < j ==> cset(a@).contains(b@[k]@),
        decreases b@.len() - j,
    {
        if !has_comment(a, &b[j]) {
            assert(cset(b@).contains(b@[j as int]@));
            return false;
        }
        j += 1;
    }
    assert(cset(a@) =~= cset(b@));
    true
}

/// Whether minute `m` lies in one of the ranges, each from its first
/// minute included to its second excluded.
pub open spec fn in_ranges(ranges: Seq<(ExtendedTime, ExtendedTime)>, m: int) -> bool
    decreases ranges.len(),
{
    if ranges.len() == 0 {
        false
    } else {
        (ranges.last().0.total() <= m < ranges.last().1.total()) || in_ranges(ranges.drop_last(), m)
    }
}

/// Index of the range that holds minute `m`, if any.
fn lookup(s: &Vec<TimeRange>, m: u16) -> (r: Option<usize>)
    ensures
        match r {
            Some(i) => i < s@.len() && contains(s@[i as int], m as int) && at(s@, m as int) == Some(
                val(s@[i as int]),
            ),
            None => at(s@, m as int) is None,
        },
{
    let mut i: usize = s.len();
    assert(s@.subrange(0, i as int) =~= s@);
    while i > 0
        invariant
            i <= s@.len(),
            at(s@, m as int) == at(s@.subrange(0, i as int), m as int),
        decreases i,
    {
        assert(s@.subrange(0, i as int).drop_last() =~= s@.subrange(0, i - 1));
        if s[i - 1].start.mins_from_midnight() <= m && m < s[i - 1].end.mins_from_midnight() {
            return Some(i - 1);
        }
        i -= 1;
    }
    None
}

/// Lengthens the last range up to minute `e`.
fn extend_last(out: &mut Vec<TimeRange>, m: u16, e: u16)
    requires
        wf_spans(old(out)@),
        m < e <= DAY_MINUTES,
        old(out)@.len() > 0,
        old(out)@.last().end.total() == m,
    ensures
        final(out)@.len() == old(out)@.len(),
        final(out)@.drop_last() == old(out)@.drop_last(),
        final(out)@.last().start == old(out)@.last().start,
        final(out)@.last().end.wf(),
        final(out)@.last().end.total() == e,
        val(final(out)@.last()) == val(old(out)@.last()),
{
    let ghost prev = out@;
    let last = out.pop();
    match last {
        Some(mut last) => {
            last.end = ExtendedTime::from_mins_from_midnight(e);
            out.push(last);
            assert(out@.drop_last() =~= prev.drop_last());
        },
        None => {},
    }
}

/// Appends the minutes from `m` to `e` (excluded) with the given state and
/// annotations, extending the last range when it ends at `m` and says the
/// same.
fn push_run(out: &mut Vec<TimeRange>, m: u16, e: u16, kind: RuleKind, comments: Vec<String>)
    requires
        wf_spans(old(out)@),
        m < e <= DAY_MINUTES,
        forall|i: int| 0 <= i < old(out)@.len() ==> old(out)@[i].end.total() <= m,
    ensures
        wf_spans(final(out)@),
        final(out)@.len() > 0,
        final(out)@.last().end.total() == e,
        forall|i: int| 0 <= i < final(out)@.len() ==> final(out)@[i].end.total() <= e,
        forall|k: int| k < m ==> at(final(out)@, k) == at(old(out)@, k),
        forall|k: int| m <= k < e ==> at(final(out)@, k) == Some((kind, cset(comments@))),
        old(out)@.len() == 0 ==> final(out)@.len() == 1 && final(out)@[0].start.total() == m,
        contiguous(old(out)@, m as int) ==> contiguous(final(out)@, e as int),
{
    let n = out.len();
    let ghost prev = out@;
    if n > 0 && out[n - 1].end.mins_from_midnight() == m && out[n - 1].kind == kind
        && same_comments(&out[n - 1].comments, &comments) {
        extend_last(out, m, e);
        proof {
            let last = out@.last();
            assert(out@ =~= prev.drop_last().push(last));
            assert(prev =~= prev.drop_last().push(prev.last()));
            assert forall|k: int| k < e implies at(out@, k) == (if k < m { at(prev, k) } else { Some((kind, cset(comments@))) }) by {
                lemma_at_push(prev.drop_last(), last, k);
                lemma_at_push(prev.drop_last(), prev.last(), k);
            }
            assert forall|i: int| 0 <= i < out@.len() - 1 implies out@[i] == prev[i] by {
                assert(out@[i] == out@.drop_last()[i]);
                assert(prev[i] == prev.drop_last()[i]);
            }
            assert(wf_spans(out@));
        }
    } else {
        let r = TimeRange {
            start: ExtendedTime::from_mins_from_midnight(m),
            end: ExtendedTime::from_mins_from_midnight(e),
            kind,
            comments,
        };
        out.push(r);
        proof {
            assert forall|k: int| k < e implies at(out@, k) == (if k < m { at(prev, k) } else { Some((kind, cset(comments@))) }) by {
                lemma_at_push(prev, r, k);
            }
            assert forall|i: int| 0 <= i < prev.len() implies out@[i] == prev[i] by {}
            assert(wf_spans(out@));
        }
    }
}

/// Neither end of range `x` lies strictly between minutes `m` and `r`.
pub open spec fn no_boundary(x: TimeRange, m: int, r: int) -> bool {
    !(m < x.start.total() < r) && !(m < x.end.total() < r)
}

/// First minute after `m`, and not after `bound`, at which a range of `s`
/// starts or ends.
fn next_boundary(s: &Vec<TimeRange>, m: u16, bound: u16) -> (r: u16)
    requires
        m < bound <= DAY_MINUTES,
    ensures
        m < r <= bound,
        forall|i: int| 0 <= i < s@.len() ==> no_boundary(#[trigger] s@[i], m as int, r as int),
{
    let mut r = bound;
    let mut i: usize = 0;
    while i < s.len()
        invariant
            m < r <= bound,
            i <= s@.len(),
            forall|j: int| 0 <= j < i ==> no_boundary(#[trigger] s@[j], m as int, r as int),
        decreases s@.len() - i,
    {
        let a = s[i].start.mins_from_midnight();
        let b = s[i].end.mins_from_midnight();
        if m < a && a < r {
            r = a;
        }
        if m < b && b < r {
            r = b;
        }
        i += 1;
    }
    r
}

/// Between two boundaries a list of ranges says the same of every minute.
proof fn lemma_at_constant(s: Seq<TimeRange>, m: int, r: int, k: int)
    requires
        forall|i: int| 0 <= i < s.len() ==> no_boundary(#[trigger] s[i], m, r),
        m <= k < r,
    ensures
        at(s, k) == at(s, m),
    decreases s.len(),
{
    if s.len() > 0 {
        assert(no_boundary(s[s.len() - 1], m, r));
        let t = s.drop_last();
        assert forall|i: int| 0 <= i < t.len() implies no_boundary(#[trigger] t[i], m, r) by {
            assert(t[i] == s[i]);
        }
        lemma_at_constant(t, m, r, k);
    }
}

/// First minute after `m`, and not after `bound`, at which one of the
/// ranges starts or ends.
fn next_range_boundary(ranges: &Vec<(ExtendedTime, ExtendedTime)>, m: u16, bound: u16) -> (r: u16)
    requires
        m < bound <= DAY_MINUTES,
    ensures
        m < r <= bound,
        forall|i: int|
            0 <= i < ranges@.len() ==> !(m < (#[trigger] ranges@[i]).0.total() < r) && !(m < ranges@[i].1.total() < r),
{
    let mut r = bound;
    let mut i: usize = 0;
    while i < ranges.len()
        invariant
            m < r <= bound,
            i <= ranges@.len(),
            forall|j: int|
                0 <= j < i ==> !(m < (#[trigger] ranges@[j]).0.total() < r) && !(m < ranges@[j].1.total() < r),
        decreases ranges@.len() - i,
    {
        let a = ranges[i].0.mins_from_midnight();
        let b = ranges[i].1.mins_from_midnight();
        if m < a && a < r {
            r = a;
        }
        if m < b && b < r {
            r = b;
        }
        i += 1;
    }
    r
}

proof fn lemma_in_ranges_constant(t: Seq<(ExtendedTime, ExtendedTime)>, m: int, r: int, k: int)
    requires
        forall|i: int| 0 <= i < t.len() ==> !(m < (#[trigger] t[i]).0.total() < r) && !(m < t[i].1.total() < r),
        m <= k < r,
    ensures
        in_ranges(t, k) == in_ranges(t, m),
    decreases t.len(),
{
    if t.len() > 0 {
        assert(!(m < t[t.len() - 1].0.total() < r));
        let u = t.drop_last();
        assert forall|i: int| 0 <= i < u.len() implies !(m < (#[trigger] u[i]).0.total() < r) && !(m < u[i].1.total() < r) by {
            assert(u[i] == t[i]);
        }
        lemma_in_ranges_constant(u, m, r, k);
    }
}

/// The time ranges of one day, sorted and disjoint; not necessarily covering
/// the whole day.
#[derive(Debug, Clone)]
pub struct Schedule {
    inner: Vec<TimeRange>,
}

impl Schedule {
    pub closed spec fn spans(self) -> Seq<TimeRange> {
        self.inner@
    }

    pub open spec fn wf(self) -> bool {
        wf_spans(self.spans())
    }

    /// What the schedule says of minute `m`, if anything.
    pub open spec fn at(self, m: int) -> Option<Value> {
        at(self.spans(), m)
    }

    /// The schedule that says nothing of any minute.
    pub fn empty() -> (r: Self)
        ensures
            r.wf(),
            r.spans().len() == 0,
            forall|m: int| r.at(m) is None,
    {
        Schedule { inner: Vec::new() }
    }

    /// The ranges of the schedule, in order.
    pub fn ranges(&self) -> (r: &Vec<TimeRange>)
        ensures
            r@ == self.spans(),
    {
        &self.inner
    }

    /// The ranges of the schedule, in order, taken out of it.
    pub fn into_ranges(self) -> (r: Vec<TimeRange>)
        ensures
            r@ == self.spans(),
    {
        self.inner
    }

    /// The schedule that gives `kind` and `comments` to every minute of the
    /// day inside one of `ranges` (each from its first minute included to
    /// its second excluded), and says nothing of the others.
    pub fn from_ranges(ranges: &Vec<(ExtendedTime, ExtendedTime)>, kind: RuleKind, comments: &Vec<String>) -> (r: Self)
        ensures
            r.wf(),
            forall|m: int|
                0 <= m < DAY_MINUTES ==> r.at(m) == if in_ranges(ranges@, m) {
                    Some((kind, cset(comments@)))
                } else {
                    None
                },
    {
        let mut out: Vec<TimeRange> = Vec::new();
        let mut m: u16 = 0;
        while m < DAY_MINUTES
            invariant
                m <= DAY_MINUTES,
                wf_spans(out@),
                forall|i: int| 0 <= i < out@.len() ==> out@[i].end.total() <= m,
                forall|k: int|
                    0 <= k < m ==> at(out@, k) == if in_ranges(ranges@, k) {
                        Some((kind, cset(comments@)))
                    } else {
                        None
                    },
            decreases DAY_MINUTES - m,
        {
            let mut hit = false;
            let mut i: usize = 0;
            while i < ranges.len()
                invariant
                    i <= ranges@.len(),
                    hit == in_ranges(ranges@.subrange(0, i as int), m as int),
                decreases ranges@.len() - i,
            {
                let (s, e) = ranges[i];
                assert(ranges@.subrange(0, i + 1).drop_last() =~= ranges@.subrange(0, i as int));
                if s.mins_from_midnight() <= m && m < e.mins_from_midnight() {
                    hit = true;
                }
                i += 1;
            }
            assert(ranges@.subrange(0, ranges@.len() as int) =~= ranges@);
            let r = next_range_boundary(ranges, m, DAY_MINUTES);
            proof {
                assert forall|k: int| m <= k < r implies in_ranges(ranges@, k) == in_ranges(ranges@, m as int) by {
                    lemma_in_ranges_constant(ranges@, m as int, r as int, k);
                }
            }
            if hit {
                push_run(&mut out, m, r, kind, copy_comments(comments));
            } else {
                proof {
                    assert forall|k: int| m <= k < r implies at(out@, k) is None by {
                        lemma_at_past_end(out@, k);
                    }
                }
            }
            m = r;
        }
        Schedule { inner: out }
    }

    /// Merges two schedules of the same day: a minute covered by one keeps
    /// what that one says; a minute covered by both gets the merged state
    /// (Open over Closed over Unknown) and the union of the annotations.
    pub fn addition(self, other: Self) -> (r: Self)
        requires
            self.wf(),
            other.wf(),
        ensures
            r.wf(),
            is_sum(r, self, other),
    {
        let mut out: Vec<TimeRange> = Vec::new();
        let mut m: u16 = 0;
        while m < DAY_MINUTES
            invariant
                m <= DAY_MINUTES,
                wf_spans(out@),
                forall|i: int| 0 <= i < out@.len() ==> out@[i].end.total() <= m,
                forall|k: int|
                    0 <= k < m ==> at(out@, k) == combine(at(self.inner@, k), at(other.inner@, k)),
            decreases DAY_MINUTES - m,
        {
            let ia = lookup(&self.inner, m);
            let ib = lookup(&other.inner, m);
            let r1 = next_boundary(&self.inner, m, DAY_MINUTES);
            let r = next_boundary(&other.inner, m, r1);
            proof {
                assert forall|k: int| m <= k < r implies at(self.inner@, k) == at(self.inner@, m as int) && at(other.inner@, k) == at(other.inner@, m as int) by {
                    assert forall|i: int| 0 <= i < self.inner@.len() implies no_boundary(#[trigger] self.inner@[i], m as int, r as int) by {
                        assert(no_boundary(self.inner@[i], m as int, r1 as int));
                    }
                    lemma_at_constant(self.inner@, m as int, r as int, k);
                    lemma_at_constant(other.inner@, m as int, r as int, k);
                }
            }
            match (ia, ib) {
                (None, None) => {
                    proof {
                        assert forall|k: int| m <= k < r implies at(out@, k) is None by {
                            lemma_at_past_end(out@, k);
                        }
                    }
                },
                (Some(i), None) => {
                    push_run(&mut out, m, r, self.inner[i].kind, copy_comments(&self.inner[i].comments));
                },
                (None, Some(j)) => {
                    push_run(&mut out, m, r, other.inner[j].kind, copy_comments(&other.inner[j].comments));
                },
                (Some(i), Some(j)) => {
                    let k = kind_merge(self.inner[i].kind, other.inner[j].kind);
                    let c = union_comments(&self.inner[i].comments, &other.inner[j].comments);
                    push_run(&mut out, m, r, k, c);
                },
            }
            m = r;
        }
        Schedule { inner: out }
    }

    /// The schedule covering the whole day: minutes this one says nothing of
    /// become Unknown without annotations.
    pub fn filled(&self) -> (r: Self)
        requires
            self.wf(),
        ensures
            r.wf(),
            contiguous(r.spans(), DAY_MINUTES as int),
            forall|m: int|
                0 <= m < DAY_MINUTES ==> r.at(m) == Some(fill_value(self.at(m))),
    {
        let mut out: Vec<TimeRange> = Vec::new();
        let mut m: u16 = 0;
        while m < DAY_MINUTES
            invariant
                m <= DAY_MINUTES,
                wf_spans(out@),
                m > 0 ==> contiguous(out@, m as int),
                m == 0 ==> out@.len() == 0,
                forall|i: int| 0 <= i < out@.len() ==> out@[i].end.total() <= m,
                forall|k: int|
                    0 <= k < m ==> at(out@, k) == Some(fill_value(at(self.inner@, k))),
            decreases DAY_MINUTES - m,
        {
            let r = next_boundary(&self.inner, m, DAY_MINUTES);
            proof {
                assert forall|k: int| m <= k < r implies at(self.inner@, k) == at(self.inner@, m as int) by {
                    lemma_at_constant(self.inner@, m as int, r as int, k);
                }
            }
            match lookup(&self.inner, m) {
                Some(i) => {
                    push_run(&mut out, m, r, self.inner[i].kind, copy_comments(&self.inner[i].comments));
                },
                None => {
                    let empty: Vec<String> = Vec::new();
                    assert(cset(empty@) =~= Set::<Seq<char>>::empty());
                    push_run(&mut out, m, r, RuleKind::Unknown, empty);
                },
            }
            m = r;
        }
        Schedule { inner: out }
    }
}

/// `r` is a sum of `a` and `b`: what `addition` returns.
pub open spec fn is_sum(r: Schedule, a: Schedule, b: Schedule) -> bool {
    &&& r.wf()
    &&& forall|m: int| 0 <= m < DAY_MINUTES ==> #[trigger] r.at(m) == combine(a.at(m), b.at(m))
}

/// Two schedules have the same ranges, with the same states and annotation
/// sets.
pub open spec fn same_ranges(x: Schedule, y: Schedule) -> bool {
    &&& x.spans().len() == y.spans().len()
    &&& forall|i: int|
        0 <= i < x.spans().len() ==> (#[trigger] x.spans()[i]).start.total() == y.spans()[i].start.total()
            && x.spans()[i].end.total() == y.spans()[i].end.total() && val(x.spans()[i]) == val(y.spans()[i])
}

/// Addition is commutative: the sum of `a` and `b` and the sum of `b` and
/// `a` have the same ranges.
pub proof fn lemma_addition_commutative(a: Schedule, b: Schedule, ab: Schedule, ba: Schedule)
    requires
        is_sum(ab, a, b),
        is_sum(ba, b, a),
    ensures
        same_ranges(ab, ba),
{
    assert forall|m: int| 0 <= m < DAY_MINUTES implies #[trigger] at(ab.spans(), m) == at(ba.spans(), m) by {
        assert(ab.at(m) == combine(a.at(m), b.at(m)));
        assert(ba.at(m) == combine(b.at(m), a.at(m)));
        match (a.at(m), b.at(m)) {
            (Some(x), Some(y)) => {
                assert(x.1.union(y.1) =~= y.1.union(x.1));
            },
            _ => {},
        }
    }
    lemma_canonical(ab.spans(), ba.spans());
}

/// Addition is associative: adding `c` to the sum of `a` and `b` gives the
/// same ranges as adding the sum of `b` and `c` to `a`.
pub proof fn lemma_addition_associative(
    a: Schedule,
    b: Schedule,
    c: Schedule,
    ab: Schedule,
    ab_c: Schedule,
    bc: Schedule,
    a_bc: Schedule,
)
    requires
        is_sum(ab, a, b),
        is_sum(ab_c, ab, c),
        is_sum(bc, b, c),
        is_sum(a_bc, a, bc),
    ensures
        same_ranges(ab_c, a_bc),
{
    assert forall|m: int| 0 <= m < DAY_MINUTES implies #[trigger] at(ab_c.spans(), m) == at(a_bc.spans(), m) by {
        assert(ab.at(m) == combine(a.at(m), b.at(m)));
        assert(ab_c.at(m) == combine(ab.at(m), c.at(m)));
        assert(bc.at(m) == combine(b.at(m), c.at(m)));
        assert(a_bc.at(m) == combine(a.at(m), bc.at(m)));
        match (a.at(m), b.at(m), c.at(m)) {
            (Some(x), Some(y), Some(z)) => {
                assert(x.1.union(y.1).union(z.1) =~= x.1.union(y.1.union(z.1)));
            },
            _ => {},
        }
    }
    lemma_canonical(ab_c.spans(), a_bc.spans());
}

/// The empty schedule is the identity of addition: adding it to a
/// well-formed schedule gives the same ranges.
pub proof fn lemma_addition_identity(a: Schedule, e: Schedule, ae: Schedule)
    requires
        a.wf(),
        e.spans().len() == 0,
        is_sum(ae, a, e),
    ensures
        same_ranges(ae, a),
{
    assert forall|m: int| 0 <= m < DAY_MINUTES implies #[trigger] at(ae.spans(), m) == at(a.spans(), m) by {
        assert(ae.at(m) == combine(a.at(m), e.at(m)));
        assert(e.at(m) is None);
    }
    lemma_canonical(ae.spans(), a.spans());
}

/// A filled schedule splits the day into ranges: every minute of the day
/// lies in exactly one of them.
pub proof fn lemma_filled_partitions_day(s: Schedule, m: int)
    requires
        s.wf(),
        contiguous(s.spans(), DAY_MINUTES as int),
        0 <= m < DAY_MINUTES,
    ensures
        exists|i: int| 0 <= i < s.spans().len() && contains(#[trigger] s.spans()[i], m),
        forall|i: int, j: int|
            0 <= i < s.spans().len() && 0 <= j < s.spans().len() && contains(#[trigger] s.spans()[i], m)
                && contains(#[trigger] s.spans()[j], m) ==> i == j,
{
    let sp = s.spans();
    lemma_covered(sp, m, sp.len() as int);
    assert forall|i: int, j: int|
        0 <= i < sp.len() && 0 <= j < sp.len() && contains(#[trigger] sp[i], m) && contains(
            #[trigger] sp[j],
            m,
        ) implies i == j by {
        if i < j {
            lemma_ordered(sp, i, j);
        } else if j < i {
            lemma_ordered(sp, j, i);
        }
    }
}

pub(crate) proof fn lemma_ordered(s: Seq<TimeRange>, i: int, j: int)
    requires
        wf_spans(s),
        0 <= i < j < s.len(),
    ensures
        s[i].end.total() <= s[j].start.total(),
    decreases j - i,
{
    if j > i + 1 {
        lemma_ordered(s, i, j - 1);
        assert(s[j - 1].end.total() <= s[j].start.total());
    } else {
        assert(s[i].end.total() <= s[i + 1].start.total());
    }
}

proof fn lemma_covered(s: Seq<TimeRange>, m: int, k: int)
    requires
        contiguous(s, DAY_MINUTES as int),
        0 <= m < DAY_MINUTES,
        0 < k <= s.len(),
        m < s[k - 1].end.total(),
    ensures
        exists|i: int| 0 <= i < k && contains(#[trigger] s[i], m),
    decreases k,
{
    if s[k - 1].start.total() <= m {
        assert(contains(s[k - 1], m));
    } else {
        assert(s[k - 2].end.total() == s[k - 1].start.total());
        lemma_covered(s, m, k - 1);
    }
}

proof fn lemma_wf_drop_last(s: Seq<TimeRange>)
    requires
        wf_spans(s),
        s.len() > 0,
    ensures
        wf_spans(s.drop_last()),
{
    let t = s.drop_last();
    assert forall|a: int, b: int| 0 <= a && b == a + 1 && b < t.len() implies #[trigger] t[a].end.total() <= #[trigger] t[b].start.total() by {
        assert(s[a].end.total() <= s[b].start.total());
    }
    assert forall|a: int, b: int| 0 <= a && b == a + 1 && b < t.len() implies (#[trigger] t[a].end.total() == #[trigger] t[b].start.total() ==> val(t[a]) != val(t[b])) by {
        assert(s[a].end.total() <= s[b].start.total());
    }
}

pub(crate) proof fn lemma_at_member(s: Seq<TimeRange>, i: int, m: int)
    requires
        wf_spans(s),
        0 <= i < s.len(),
        contains(s[i], m),
    ensures
        at(s, m) == Some(val(s[i])),
    decreases s.len(),
{
    if i < s.len() - 1 {
        lemma_ordered(s, i, s.len() - 1);
        lemma_wf_drop_last(s);
        lemma_at_member(s.drop_last(), i, m);
    }
}

proof fn lemma_at_some(s: Seq<TimeRange>, m: int)
    requires
        at(s, m) is Some,
    ensures
        exists|j: int| 0 <= j < s.len() && contains(#[trigger] s[j], m) && at(s, m) == Some(val(s[j])),
    decreases s.len(),
{
    if !contains(s.last(), m) {
        lemma_at_some(s.drop_last(), m);
        let j = choose|j: int| 0 <= j < s.drop_last().len() && contains(#[trigger] s.drop_last()[j], m) && at(s.drop_last(), m) == Some(val(s.drop_last()[j]));
        assert(s[j] == s.drop_last()[j]);
    } else {
        assert(contains(s[s.len() - 1], m));
    }
}

/// What the list without its last range says: the same before that range,
/// nothing from its start on.
proof fn lemma_at_drop_last(s: Seq<TimeRange>, m: int)
    requires
        wf_spans(s),
        s.len() > 0,
    ensures
        m < s.last().start.total() ==> at(s.drop_last(), m) == at(s, m),
        m >= s.last().start.total() ==> at(s.drop_last(), m) is None,
{
    if m >= s.last().start.total() {
        let t = s.drop_last();
        assert forall|i: int| 0 <= i < t.len() implies t[i].end.total() <= m by {
            lemma_ordered(s, i, s.len() - 1);
        }
        lemma_at_past_end(t, m);
    }
}

/// Just before the last range starts, the list does not say what that range
/// says.
proof fn lemma_at_before_last(s: Seq<TimeRange>)
    requires
        wf_spans(s),
        s.len() > 0,
        s.last().start.total() > 0,
    ensures
        at(s, s.last().start.total() - 1) != Some(val(s.last())),
{
    let n = s.len() as int;
    let m = s.last().start.total() - 1;
    let t = s.drop_last();
    lemma_at_drop_last(s, m);
    if at(t, m) is Some {
        lemma_at_some(t, m);
        let j = choose|j: int| 0 <= j < t.len() && contains(#[trigger] t[j], m) && at(t, m) == Some(val(t[j]));
        assert(t[j] == s[j]);
        lemma_ordered(s, j, n - 1);
        if j < n - 2 {
            lemma_ordered(s, j, n - 2);
        }
        assert(s[n - 2].end.total() <= s[n - 1].start.total());
    }
}

/// Well-formed lists of ranges are canonical: two that say the same of every
/// minute of the day have the same ranges, with the same states and the same
/// annotation sets.
pub proof fn lemma_canonical(s: Seq<TimeRange>, t: Seq<TimeRange>)
    requires
        wf_spans(s),
        wf_spans(t),
        forall|m: int| 0 <= m < DAY_MINUTES ==> #[trigger] at(s, m) == at(t, m),
    ensures
        s.len() == t.len(),
        forall|i: int|
            0 <= i < s.len() ==> (#[trigger] s[i]).start.total() == t[i].start.total() && s[i].end.total()
                == t[i].end.total() && val(s[i]) == val(t[i]),
    decreases s.len() + t.len(),
{
    if s.len() == 0 && t.len() > 0 {
        let m = t.last().start.total();
        lemma_at_member(t, t.len() - 1, m);
        assert(at(s, m) == at(t, m));
    } else if t.len() == 0 && s.len() > 0 {
        let m = s.last().start.total();
        lemma_at_member(s, s.len() - 1, m);
        assert(at(s, m) == at(t, m));
    } else if s.len() > 0 {
        let ls = s.last();
        let lt = t.last();
        let ns = s.len() - 1;
        let nt = t.len() - 1;
        if ls.end.total() < lt.end.total() {
            let m = lt.end.total() - 1;
            lemma_at_member(t, nt, m);
            assert forall|i: int| 0 <= i < s.len() implies s[i].end.total() <= m by {
                if i < ns {
                    lemma_ordered(s, i, ns);
                }
            }
            lemma_at_past_end(s, m);
            assert(at(s, m) == at(t, m));
        }
        if lt.end.total() < ls.end.total() {
            let m = ls.end.total() - 1;
            lemma_at_member(s, ns, m);
            assert forall|i: int| 0 <= i < t.len() implies t[i].end.total() <= m by {
                if i < nt {
                    lemma_ordered(t, i, nt);
                }
            }
            lemma_at_past_end(t, m);
            assert(at(s, m) == at(t, m));
        }
        assert(ls.end.total() == lt.end.total());
        if ls.start.total() < lt.start.total() {
            let m = lt.start.total() - 1;
            lemma_at_member(s, ns, m);
            lemma_at_member(s, ns, lt.start.total());
            lemma_at_member(t, nt, lt.start.total());
            lemma_at_before_last(t);
            assert(at(s, m) == at(t, m));
            assert(at(s, lt.start.total()) == at(t, lt.start.total()));
        }
        if lt.start.total() < ls.start.total() {
            let m = ls.start.total() - 1;
            lemma_at_member(t, nt, m);
            lemma_at_member(t, nt, ls.start.total());
            lemma_at_member(s, ns, ls.start.total());
            lemma_at_before_last(s);
            assert(at(s, m) == at(t, m));
            assert(at(s, ls.start.total()) == at(t, ls.start.total()));
        }
        assert(ls.start.total() == lt.start.total());
        lemma_at_member(s, ns, ls.start.total());
        lemma_at_member(t, nt, ls.start.total());
        assert(at(s, ls.start.total()) == at(t, ls.start.total()));
        lemma_wf_drop_last(s);
        lemma_wf_drop_last(t);
        assert forall|m: int| 0 <= m < DAY_MINUTES implies #[trigger] at(s.drop_last(), m) == at(t.drop_last(), m) by {
            lemma_at_drop_last(s, m);
            lemma_at_drop_last(t, m);
            assert(at(s, m) == at(t, m));
        }
        lemma_canonical(s.drop_last(), t.drop_last());
        assert forall|i: int| 0 <= i < s.len() implies (#[trigger] s[i]).start.total() == t[i].start.total() && s[i].end.total()
                == t[i].end.total() && val(s[i]) == val(t[i]) by {
            if i < ns {
                assert(s[i] == s.drop_last()[i]);
                assert(t[i] == t.drop_last()[i]);
            }
        }
    }
}

} // verus!
