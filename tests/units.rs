use opening_hours::day::{wday_str, InvalidMonth, Month, Weekday};
use opening_hours::extended_time::ExtendedTime;

#[test]
fn extended_time_arithmetic() {
    let t = ExtendedTime::new(10, 30);
    assert_eq!(t.hour(), 10);
    assert_eq!(t.minute(), 30);
    assert_eq!(t.mins_from_midnight(), 630);
    assert_eq!(t.add_minutes(45).unwrap(), ExtendedTime::new(11, 15));
    assert_eq!(t.add_minutes(-630).unwrap(), ExtendedTime::new(0, 0));
    assert!(t.add_minutes(-631).is_err());
    assert_eq!(t.add_hours(16).unwrap(), ExtendedTime::new(26, 30));
    assert!(t.add_hours(-11).is_err());
    assert!(t.add_hours(250).is_err());
    assert_eq!(ExtendedTime::from_mins_from_midnight(1590), ExtendedTime::new(26, 30));
    assert!(ExtendedTime::new(255, 59).add_minutes(1).is_err());
    assert!(ExtendedTime::new(1, 0) < ExtendedTime::new(1, 1));
}

#[test]
fn months() {
    assert_eq!(Month::December.next(), Month::January);
    assert_eq!(Month::March.next(), Month::April);
    assert_eq!(Month::September.as_str(), "September");
    assert_eq!(Month::try_from_u8(2), Ok(Month::February));
    assert_eq!(Month::try_from_u8(13), Err(InvalidMonth));
    assert_eq!(Month::try_from_u8(0), Err(InvalidMonth));
    assert_eq!(Month::October.number(), 10);
}

#[test]
fn weekday_names() {
    assert_eq!(wday_str(Weekday::Mon), "Mo");
    assert_eq!(wday_str(Weekday::Sun), "Su");
    assert_eq!(Weekday::Thu.num_days_from_monday(), 3);
}
