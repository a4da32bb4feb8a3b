//! The time ranges a rule gives to the days it claims.
use vstd::prelude::*;

use crate::extended_time::ExtendedTime;
use crate::schedule::{in_ranges, DAY_MINUTES};

verus! {

proof fn lemma_in_ranges_push(r: Seq<(ExtendedTime, ExtendedTime)>, x: (ExtendedTime, ExtendedTime), m: int)
    ensures
        in_ranges(r.push(x), m) == ((x.0.total() <= m < x.1.total()) || in_ranges(r, m)),
{
    assert(r.push(x).drop_last() =~= r);
}

proof fn lemma_in_ranges_prefix(t: Seq<(ExtendedTime, ExtendedTime)>, i: int, m: int)
    requires
        0 <= i < t.len(),
    ensures
        in_ranges(t.subrange(0, i + 1), m) == ((t[i].0.total() <= m < t[i].1.total()) || in_ranges(
            t.subrange(0, i),
            m,
        )),
{
    assert(t.subrange(0, i + 1).drop_last() =~= t.subrange(0, i));
}

/// Time ranges, each from its first time included to its second excluded;
/// a range may run past midnight (up to 255:59) into the next day.
#[derive(Debug, Clone)]
pub struct TimeSelector {
    pub time: Vec<(ExtendedTime, ExtendedTime)>,
}

impl TimeSelector {
    pub open spec fn wf(self) -> bool {
        forall|i: int| 0 <= i < self.time@.len() ==> self.time@[i].0.wf() && #[trigger] self.time@[i].1.wf()
    }

    /// The part of the ranges that falls on the day they are given to.
    pub fn intervals_at(&self, _date: i32) -> (r: Vec<(ExtendedTime, ExtendedTime)>)
        requires
            self.wf(),
        ensures
            forall|m: int| 0 <= m < DAY_MINUTES ==> in_ranges(r@, m) == in_ranges(self.time@, m),
            forall|m: int| in_ranges(r@, m) ==> 0 <= m < DAY_MINUTES,
    {
        let mut r: Vec<(ExtendedTime, ExtendedTime)> = Vec::new();
        let mut i: usize = 0;
        while i < self.time.len()
            invariant
                self.wf(),
                i <= self.time@.len(),
                forall|m: int|
                    0 <= m < DAY_MINUTES ==> in_ranges(r@, m) == in_ranges(self.time@.subrange(0, i as int), m),
                forall|m: int| in_ranges(r@, m) ==> 0 <= m < DAY_MINUTES,
            decreases self.time@.len() - i,
        {
            let (s, e) = self.time[i];
            let ghost prev = r@;
            assert(self.time@.subrange(0, i + 1).drop_last() =~= self.time@.subrange(0, i as int));
            let sm = s.mins_from_midnight();
            let em = e.mins_from_midnight();
            if sm < DAY_MINUTES && sm < em {
                let end = if em < DAY_MINUTES { em } else { DAY_MINUTES };
                let x = (ExtendedTime::from_mins_from_midnight(sm), ExtendedTime::from_mins_from_midnight(end));
                r.push(x);
                assert(r@.drop_last() =~= prev);
            }
            proof {
                let sub = self.time@.subrange(0, i + 1);
                assert forall|m: int| 0 <= m < DAY_MINUTES implies in_ranges(r@, m) == in_ranges(sub, m) by {
                    lemma_in_ranges_prefix(self.time@, i as int, m);
                    if r@.len() > prev.len() {
                        lemma_in_ranges_push(prev, r@.last(), m);
                    }
                }
                assert forall|m: int| in_ranges(r@, m) implies 0 <= m < DAY_MINUTES by {
                    if r@.len() > prev.len() {
                        lemma_in_ranges_push(prev, r@.last(), m);
                    }
                }
            }
            i += 1;
        }
        assert(self.time@.subrange(0, self.time@.len() as int) =~= self.time@);
        r
    }

    /// The part of the ranges given to the day before that runs past
    /// midnight, moved back by one day.
    pub fn intervals_at_next_day(&self, _date: i32) -> (r: Vec<(ExtendedTime, ExtendedTime)>)
        requires
            self.wf(),
        ensures
            forall|m: int|
                0 <= m < DAY_MINUTES ==> in_ranges(r@, m) == in_ranges(self.time@, m + DAY_MINUTES),
            forall|m: int| in_ranges(r@, m) ==> 0 <= m < DAY_MINUTES,
    {
        let mut r: Vec<(ExtendedTime, ExtendedTime)> = Vec::new();
        let mut i: usize = 0;
        while i < self.time.len()
            invariant
                self.wf(),
                i <= self.time@.len(),
                forall|m: int|
                    0 <= m < DAY_MINUTES ==> in_ranges(r@, m) == in_ranges(
                        self.time@.subrange(0, i as int),
                        m + DAY_MINUTES,
                    ),
                forall|m: int| in_ranges(r@, m) ==> 0 <= m < DAY_MINUTES,
            decreases self.time@.len() - i,
        {
            let (s, e) = self.time[i];
            let ghost prev = r@;
            assert(self.time@.subrange(0, i + 1).drop_last() =~= self.time@.subrange(0, i as int));
            let sm = s.mins_from_midnight();
            let em = e.mins_from_midnight();
            if em > DAY_MINUTES && sm < em {
                let start = if sm > DAY_MINUTES { sm - DAY_MINUTES } else { 0 };
                let end = if em - DAY_MINUTES < DAY_MINUTES { em - DAY_MINUTES } else { DAY_MINUTES };
                if start < end {
                    let x = (ExtendedTime::from_mins_from_midnight(start), ExtendedTime::from_mins_from_midnight(end));
                    r.push(x);
                    assert(r@.drop_last() =~= prev);
                }
            }
            proof {
                let sub = self.time@.subrange(0, i + 1);
                assert forall|m: int| 0 <= m < DAY_MINUTES implies in_ranges(r@, m) == in_ranges(sub, m + DAY_MINUTES) by {
                    lemma_in_ranges_prefix(self.time@, i as int, m + DAY_MINUTES);
                    if r@.len() > prev.len() {
                        lemma_in_ranges_push(prev, r@.last(), m);
                    }
                }
                assert forall|m: int| in_ranges(r@, m) implies 0 <= m < DAY_MINUTES by {
                    if r@.len() > prev.len() {
                        lemma_in_ranges_push(prev, r@.last(), m);
                    }
                }
            }
            i += 1;
        }
        assert(self.time@.subrange(0, self.time@.len() as int) =~= self.time@);
        r
    }
}

} // verus!
