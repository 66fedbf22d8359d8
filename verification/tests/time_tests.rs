use calendar_core::datetime::{in_written_zone, parse_ics_datetime};
use calendar_core::escape::{ics_escape, ics_unescape};
use calendar_core::time::{Date, FoundZone, Step, Weekday, Zone, Zoned};

fn date(y: i16, m: i8, d: i8) -> Date {
    Date::new(y, m, d).unwrap()
}

fn named(name: &str) -> Zone {
    Zone::Named(FoundZone::find(name.into()).unwrap())
}

#[test]
fn dates_exist_or_not() {
    assert!(Date::new(2024, 2, 29).is_some());
    assert!(Date::new(2023, 2, 29).is_none());
    assert!(Date::new(10000, 1, 1).is_none());
    assert!(Date::new(2026, 0, 1).is_none());
    assert!(Date::new(2026, 4, 31).is_none());
}

#[test]
fn weekdays_and_distances() {
    assert_eq!(date(2026, 1, 12).weekday(), Weekday::Monday);
    assert_eq!(date(1970, 1, 1).weekday(), Weekday::Thursday);
    assert_eq!(date(-9999, 1, 1).weekday(), Weekday::Monday);
    assert_eq!(date(1970, 1, 1).days_since(date(1, 1, 1)), 719162);
    assert_eq!(date(9999, 12, 31).days_since(date(-9999, 1, 1)), 7304483);
}

#[test]
fn steps_lead_where_they_should() {
    assert_eq!(date(2024, 1, 31).plus(Step::Months(1)), Some(date(2024, 2, 29)));
    assert_eq!(date(2024, 2, 29).plus(Step::Years(-1)), Some(date(2023, 2, 28)));
    assert_eq!(date(2024, 1, 31).plus(Step::Months(-14)), Some(date(2022, 11, 30)));
    assert_eq!(date(2024, 12, 31).plus(Step::Days(1)), Some(date(2025, 1, 1)));
    assert_eq!(date(9999, 12, 31).plus(Step::Days(1)), None);
    assert_eq!(date(-9999, 1, 1).plus(Step::Months(-1)), None);
    assert_eq!(date(2024, 5, 5).plus(Step::Days(0)), Some(date(2024, 5, 5)));
}

#[test]
fn iso_texts() {
    let mut s = String::new();
    date(26, 3, 5).push_iso(&mut s);
    s.push(' ');
    date(-26, 3, 5).push_iso(&mut s);
    assert_eq!(s, "0026-03-05 -000026-03-05");
}

#[test]
fn moments_of_universal_time() {
    let z = date(1970, 1, 2).at(3, 4, 5, 6).to_zoned(Zone::Utc).unwrap();
    assert_eq!(z.unix_second(), 86400 + 3 * 3600 + 4 * 60 + 5);
    assert_eq!(z.subsec_nanosecond(), 6);
    assert_eq!(Zoned::utc_at(z.unix_second(), 6), z);
    assert_eq!(z.to_utc(), z);
    assert_eq!(z.to_system().unix_second(), z.unix_second());
    assert!(date(9999, 12, 31).at(0, 0, 0, 0).to_zoned(Zone::Utc).is_none());
    assert!(date(-9999, 1, 1).at(0, 0, 0, 0).to_zoned(Zone::Utc).is_none());
    let before = Zoned::utc_at(-1, 0);
    assert_eq!(before.date(), date(1969, 12, 31));
    assert_eq!((before.hour(), before.minute(), before.second()), (23, 59, 59));
}

#[test]
fn days_are_added_by_the_local_date() {
    let z = date(2026, 3, 28).at(12, 0, 0, 0).to_zoned(named("Etc/GMT-5")).unwrap();
    assert_eq!(z.hour(), 12);
    let next = z.plus_days(1).unwrap();
    assert_eq!(next.date(), date(2026, 3, 29));
    assert_eq!(next.unix_second() - z.unix_second(), 86400);
    assert_eq!(z.plus_days(0), Some(z.clone()));
    let last = date(9999, 12, 30).at(0, 0, 0, 0).to_zoned(Zone::Utc).unwrap();
    assert!(last.plus_days(1).is_none());
}

#[test]
fn now_is_in_the_zone_that_is_asked_for() {
    assert_eq!(Zoned::now().zone(), Zone::System);
    assert_eq!(Zoned::now_in(Zone::Utc).zone(), Zone::Utc);
    assert_eq!(Zoned::now_in(named("Etc/GMT-5")).zone(), named("Etc/GMT-5"));
    assert!(FoundZone::find("No/Such_Zone".into()).is_none());
}

#[test]
fn ics_times_in_all_forms() {
    let day = parse_ics_datetime("20241225", Some("Etc/GMT-5")).unwrap();
    assert_eq!(day.date(), date(2024, 12, 25));
    assert_eq!(day.zone(), Zone::Utc);
    let utc = parse_ics_datetime("20241225T103015Z", None).unwrap();
    assert_eq!((utc.hour(), utc.minute(), utc.second()), (10, 30, 15));
    assert_eq!(utc.zone(), Zone::Utc);
    let floating = parse_ics_datetime("20241225T103015", None).unwrap();
    assert_eq!(floating, utc);
    let local = parse_ics_datetime("20241225T103015", Some("Etc/GMT-5")).unwrap();
    assert_eq!(local.hour(), 10);
    assert_eq!(utc.unix_second() - local.unix_second(), 5 * 3600);
    assert!(parse_ics_datetime("20241225T103015", Some("No/Such_Zone")).is_none());
    assert!(parse_ics_datetime("20241325", None).is_none());
    assert!(parse_ics_datetime("20241225T250000Z", None).is_none());
    assert!(parse_ics_datetime("2024-12-25", None).is_none());
    assert!(parse_ics_datetime("", None).is_none());
    let again = in_written_zone(local.datetime(), "20241225T103015", Some("Etc/GMT-5")).unwrap();
    assert_eq!(again, local);
}

#[test]
fn escapes_are_undone() {
    assert_eq!(ics_escape("a\\b;c,d\ne"), "a\\\\b\\;c\\,d\\ne");
    assert_eq!(ics_unescape("a\\\\b\\;c\\,d\\ne\\Nf"), "a\\b;c,d\ne\nf");
    assert_eq!(ics_unescape("\\x\\"), "\\x\\");
    for s in ["", "\\", "\\n", "\n;,", "plain"] {
        assert_eq!(ics_unescape(&ics_escape(s)), s);
    }
}

#[test]
fn every_local_time_is_a_moment_of_the_machine() {
    let noon = date(2026, 6, 1).at(12, 0, 0, 0);
    let z = noon.to_zoned(Zone::System).unwrap();
    assert_eq!(z.zone(), Zone::System);
    assert!(z.date().is_same(date(2026, 6, 1)));
    assert_eq!(date(9999, 12, 31).at(23, 59, 59, 0).to_zoned(Zone::Utc), None);
}
