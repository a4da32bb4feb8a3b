//! Evaluation engine for recurring opening-hours rules: calendar selectors,
//! per-day schedules, rule composition and a lazy day-by-day interval stream.
use vstd::prelude::*;

pub mod calendar;
pub mod day;
pub mod extended_time;
pub mod schedule;
pub mod time_domain;
pub mod time_selector;

verus! {

} // verus!
