//! A time of day that may run past midnight (26:00 is 02:00 on the next day).
use vstd::prelude::*;

use std::num::TryFromIntError;

verus! {

/// Hours and minutes counted from the midnight that starts the day; the hour
/// may exceed 23 to express a span that continues into the next day.
#[derive(Clone, Copy, Debug, PartialEq, Eq, Structural, Hash, PartialOrd, Ord)]
pub struct ExtendedTime {
    hour: u8,
    minute: u8,
}

/// Largest number of minutes an `ExtendedTime` can hold (255:59).
pub const MAX_MINUTES: u16 = 15359;

impl ExtendedTime {
    /// The minute field is always below 60.
    pub open spec fn wf(self) -> bool {
        self.spec_minute() < 60
    }

    pub closed spec fn spec_hour(self) -> u8 {
        self.hour
    }

    pub closed spec fn spec_minute(self) -> u8 {
        self.minute
    }

    /// Minutes elapsed since the midnight that starts the day.
    pub open spec fn total(self) -> int {
        60 * self.spec_hour() + self.spec_minute()
    }

    /// Builds `hour:minute`; the minute must be below 60.
    pub fn new(hour: u8, minute: u8) -> (r: Self)
        requires
            minute < 60,
        ensures
            r.wf(),
            r.spec_hour() == hour,
            r.spec_minute() == minute,
    {
        Self { hour, minute }
    }

    pub fn hour(self) -> (r: u8)
        ensures
            r == self.spec_hour(),
    {
        self.hour
    }

    pub fn minute(self) -> (r: u8)
        ensures
            r == self.spec_minute(),
    {
        self.minute
    }

    /// Shifts the time by a signed number of minutes; fails when the result
    /// falls before midnight or beyond 255:59.
    pub fn add_minutes(&self, minutes: i16) -> (r: Result<Self, TryFromIntError>)
        requires
            self.wf(),
        ensures
            r.is_ok() <==> 0 <= self.total() + minutes <= MAX_MINUTES,
            r matches Ok(t) ==> t.wf() && t.total() == self.total() + minutes,
    {
        let as_minutes: i32 = self.mins_from_midnight() as i32 + minutes as i32;
        match u16::try_from(as_minutes) {
            Ok(m) => match u8::try_from(m / 60) {
                Ok(hour) => Ok(Self { hour, minute: (m % 60) as u8 }),
                Err(e) => Err(e),
            },
            Err(e) => Err(e),
        }
    }

    /// Shifts the hour by a signed number of hours; fails when the hour would
    /// leave `0..=255`.
    pub fn add_hours(&self, hours: i16) -> (r: Result<Self, TryFromIntError>)
        requires
            self.wf(),
        ensures
            r.is_ok() <==> 0 <= self.spec_hour() + hours <= 255,
            r matches Ok(t) ==> t.wf() && t.spec_hour() == self.spec_hour() + hours
                && t.spec_minute() == self.spec_minute(),
    {
        let h: i32 = self.hour as i32 + hours as i32;
        match u8::try_from(h) {
            Ok(hour) => Ok(Self { hour, minute: self.minute }),
            Err(e) => Err(e),
        }
    }

    /// The time lying the given number of minutes after midnight.
    pub fn from_mins_from_midnight(minute: u16) -> (r: Self)
        requires
            minute <= MAX_MINUTES,
        ensures
            r.wf(),
            r.total() == minute,
            r.spec_hour() == minute / 60,
            r.spec_minute() == minute % 60,
    {
        let hour = (minute / 60) as u8;
        let minute = (minute % 60) as u8;
        Self { hour, minute }
    }

    pub fn mins_from_midnight(self) -> (r: u16)
        ensures
            r == self.total(),
    {
        self.minute as u16 + 60 * self.hour as u16
    }
}

} // verus!
