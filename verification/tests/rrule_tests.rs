use calendar_core::event::CalendarEvent;
use calendar_core::expand::expand_recurring;
use calendar_core::ics::parse_ics_events;
use calendar_core::recurrence::{days_in_month, expand_by_rules, nth_weekday_in_month};
use calendar_core::rule::{parse_rrule_string, RRuleFreq};
use calendar_core::time::{Date, Weekday};

/// Helper: build a minimal CalendarEvent with an RRULE, starting on the given date.
fn event_with_rrule(start: &str, rrule: &str) -> CalendarEvent {
    let ics = format!(
        "BEGIN:VCALENDAR\r\nVERSION:2.0\r\nPRODID:-//TEST//EN\r\n\
         BEGIN:VEVENT\r\nUID:test-rrule\r\n\
         DTSTART:{start}\r\n\
         SUMMARY:Recurring\r\n\
         RRULE:{rrule}\r\n\
         END:VEVENT\r\nEND:VCALENDAR\r\n"
    );
    let mut events = parse_ics_events(&ics, "test", "#0000FF");
    assert_eq!(events.len(), 1, "expected exactly 1 event from ICS");
    events.remove(0)
}

fn event_with_rrule_and_exdate(start: &str, rrule: &str, exdate: &str) -> CalendarEvent {
    let ics = format!(
        "BEGIN:VCALENDAR\r\nVERSION:2.0\r\nPRODID:-//TEST//EN\r\n\
         BEGIN:VEVENT\r\nUID:test-exdate\r\n\
         DTSTART:{start}\r\n\
         SUMMARY:Recurring\r\n\
         RRULE:{rrule}\r\n\
         EXDATE:{exdate}\r\n\
         END:VEVENT\r\nEND:VCALENDAR\r\n"
    );
    let mut events = parse_ics_events(&ics, "test", "#0000FF");
    assert_eq!(events.len(), 1);
    events.remove(0)
}

fn event_with_rdate(start: &str, rdate: &str) -> CalendarEvent {
    let ics = format!(
        "BEGIN:VCALENDAR\r\nVERSION:2.0\r\nPRODID:-//TEST//EN\r\n\
         BEGIN:VEVENT\r\nUID:test-rdate\r\n\
         DTSTART:{start}\r\n\
         SUMMARY:Extra dates\r\n\
         RDATE:{rdate}\r\n\
         END:VEVENT\r\nEND:VCALENDAR\r\n"
    );
    let mut events = parse_ics_events(&ics, "test", "#0000FF");
    assert_eq!(events.len(), 1);
    events.remove(0)
}

/// Wide range for expansion.
fn wide_range() -> (Date, Date) {
    (Date::new(2026, 1, 1).unwrap(), Date::new(2030, 12, 31).unwrap())
}

// daily rule COUNT=5
#[test]
fn daily_rule_count_5() {
    let ev = event_with_rrule("20260110T090000Z", "FREQ=DAILY;COUNT=5");
    let (start, end) = wide_range();
    let expanded = expand_recurring(vec![ev], start, end);
    assert_eq!(expanded.len(), 5);
    let dates: Vec<Date> = expanded.iter().map(|e| e.date()).collect();
    assert_eq!(dates[0], Date::new(2026, 1, 10).unwrap());
    assert_eq!(dates[4], Date::new(2026, 1, 14).unwrap());
    // Consecutive days
    for w in dates.windows(2) {
        let diff = w[1].days_since(w[0]);
        assert_eq!(diff, 1);
    }
}

// weekly BYDAY=MO,WE,FR COUNT=6
#[test]
fn weekly_byday_count_6() {
    // Start on Monday 2026-01-12
    let ev = event_with_rrule("20260112T090000Z", "FREQ=WEEKLY;BYDAY=MO,WE,FR;COUNT=6");
    let (start, end) = wide_range();
    let expanded = expand_recurring(vec![ev], start, end);
    assert_eq!(expanded.len(), 6, "expected 6 occurrences, got {}", expanded.len());
    for e in &expanded {
        let wd = e.date().weekday();
        assert!(
            wd == Weekday::Monday || wd == Weekday::Wednesday || wd == Weekday::Friday,
            "unexpected weekday: {:?} on {:?}",
            wd,
            e.date()
        );
    }
}

// monthly BYMONTHDAY=15 COUNT=3
#[test]
fn monthly_bymonthday_15_count_3() {
    let ev = event_with_rrule("20260115T090000Z", "FREQ=MONTHLY;BYMONTHDAY=15;COUNT=3");
    let (start, end) = wide_range();
    let expanded = expand_recurring(vec![ev], start, end);
    assert_eq!(expanded.len(), 3);
    assert_eq!(expanded[0].date(), Date::new(2026, 1, 15).unwrap());
    assert_eq!(expanded[1].date(), Date::new(2026, 2, 15).unwrap());
    assert_eq!(expanded[2].date(), Date::new(2026, 3, 15).unwrap());
}

// yearly COUNT=3
#[test]
fn yearly_count_3() {
    let ev = event_with_rrule("20260601T120000Z", "FREQ=YEARLY;COUNT=3");
    let (start, end) = wide_range();
    let expanded = expand_recurring(vec![ev], start, end);
    assert_eq!(expanded.len(), 3);
    assert_eq!(expanded[0].date().year(), 2026);
    assert_eq!(expanded[1].date().year(), 2027);
    assert_eq!(expanded[2].date().year(), 2028);
}

// INTERVAL=3 daily
#[test]
fn daily_interval_3_count_4() {
    let ev = event_with_rrule("20260110T090000Z", "FREQ=DAILY;INTERVAL=3;COUNT=4");
    let (start, end) = wide_range();
    let expanded = expand_recurring(vec![ev], start, end);
    assert_eq!(expanded.len(), 4);
    let dates: Vec<Date> = expanded.iter().map(|e| e.date()).collect();
    for w in dates.windows(2) {
        assert_eq!(w[1].days_since(w[0]), 3);
    }
}

// UNTIL
#[test]
fn daily_until() {
    let ev = event_with_rrule("20260110T090000Z", "FREQ=DAILY;UNTIL=20260115T000000Z");
    let (start, end) = wide_range();
    let expanded = expand_recurring(vec![ev], start, end);
    assert!(!expanded.is_empty());
    for e in &expanded {
        assert!(e.date() <= Date::new(2026, 1, 15).unwrap());
    }
    // Last occurrence should be on or before Jan 15
    let last = expanded.last().unwrap().date();
    assert!(last <= Date::new(2026, 1, 15).unwrap());
}

// EXDATE
#[test]
fn daily_exdate_skipped() {
    let ev = event_with_rrule_and_exdate(
        "20260110T090000Z",
        "FREQ=DAILY;COUNT=5",
        "20260112T090000Z",
    );
    let (start, end) = wide_range();
    let expanded = expand_recurring(vec![ev], start, end);
    // 5 occurrences minus the excluded Jan 12 = 4
    assert_eq!(expanded.len(), 4);
    let dates: Vec<Date> = expanded.iter().map(|e| e.date()).collect();
    assert!(!dates.contains(&Date::new(2026, 1, 12).unwrap()));
}

// RDATE
#[test]
fn rdate_extra_occurrence() {
    let ev = event_with_rdate("20260110T090000Z", "20260220T090000Z");
    let (start, end) = wide_range();
    let expanded = expand_recurring(vec![ev], start, end);
    // Original + 1 RDATE = 2
    assert_eq!(expanded.len(), 2);
    let dates: Vec<Date> = expanded.iter().map(|e| e.date()).collect();
    assert!(dates.contains(&Date::new(2026, 1, 10).unwrap()));
    assert!(dates.contains(&Date::new(2026, 2, 20).unwrap()));
}

// iteration cap at 1000
#[test]
fn iteration_cap_1000() {
    let ev = event_with_rrule("20260110T090000Z", "FREQ=DAILY");
    let start = Date::new(2026, 1, 1).unwrap();
    let end = Date::new(2050, 12, 31).unwrap();
    let expanded = expand_recurring(vec![ev], start, end);
    assert!(expanded.len() <= 1000, "should cap at 1000, got {}", expanded.len());
}

// leap year handling: monthly starting Jan 31 through Feb
#[test]
fn monthly_through_february() {
    let ev = event_with_rrule("20260131T120000Z", "FREQ=MONTHLY;COUNT=3");
    let (start, end) = wide_range();
    let expanded = expand_recurring(vec![ev], start, end);
    assert_eq!(expanded.len(), 3);
    assert_eq!(expanded[0].date(), Date::new(2026, 1, 31).unwrap());
    // Feb has 28 days in 2026
    let feb = expanded[1].date();
    assert_eq!(feb.month(), 2);
    assert!(feb.day() == 28 || feb.day() == 29); // clamped
}

// BYDAY with positive position: 2TU = second Tuesday
#[test]
fn monthly_byday_2tu() {
    let ev = event_with_rrule("20260113T090000Z", "FREQ=MONTHLY;BYDAY=2TU;COUNT=3");
    let (start, end) = wide_range();
    let expanded = expand_recurring(vec![ev], start, end);
    assert_eq!(expanded.len(), 3);
    for e in &expanded {
        assert_eq!(e.date().weekday(), Weekday::Tuesday);
        // Should be the 8th-14th day of the month (second week)
        assert!(e.date().day() >= 8 && e.date().day() <= 14);
    }
}

// BYDAY with negative position: -1FR = last Friday
#[test]
fn monthly_byday_last_friday() {
    let ev = event_with_rrule("20260130T090000Z", "FREQ=MONTHLY;BYDAY=-1FR;COUNT=3");
    let (start, end) = wide_range();
    let expanded = expand_recurring(vec![ev], start, end);
    assert_eq!(expanded.len(), 3);
    for e in &expanded {
        assert_eq!(e.date().weekday(), Weekday::Friday);
        // Last Friday — day should be >= 22
        assert!(
            e.date().day() >= 22,
            "last Friday of month should be day >= 22, got {}",
            e.date().day()
        );
    }
}

fn date(y: i16, m: i8, d: i8) -> Date {
    Date::new(y, m, d).unwrap()
}

#[test]
fn rule_text_is_read() {
    let r = parse_rrule_string("FREQ=MONTHLY;INTERVAL=2;COUNT=7;UNTIL=20261231;BYDAY=MO, 2TU,-1FR,XX;BYMONTH=1,13,12;BYMONTHDAY=-1,0,31,32").unwrap();
    assert_eq!(r.freq, RRuleFreq::Monthly);
    assert_eq!(r.interval, 2);
    assert_eq!(r.count, Some(7));
    assert_eq!(r.until, Some(date(2026, 12, 31)));
    assert_eq!(
        r.by_day,
        vec![(None, Weekday::Monday), (Some(2), Weekday::Tuesday), (Some(-1), Weekday::Friday)]
    );
    assert_eq!(r.by_month, vec![1, 12]);
    assert_eq!(r.by_monthday, vec![-1, 31]);
    assert!(parse_rrule_string("INTERVAL=2").is_none());
    assert!(parse_rrule_string("FREQ=HOURLY").is_none());
    assert!(parse_rrule_string("").is_none());
    assert_eq!(parse_rrule_string("FREQ=DAILY;INTERVAL=x").unwrap().interval, 1);
}

#[test]
fn months_have_their_lengths() {
    assert_eq!(days_in_month(2024, 2), 29);
    assert_eq!(days_in_month(2026, 2), 28);
    assert_eq!(days_in_month(1900, 2), 28);
    assert_eq!(days_in_month(2000, 2), 29);
    assert_eq!(days_in_month(2026, 12), 31);
    assert_eq!(days_in_month(9999, 12), 31);
    assert_eq!(days_in_month(i16::MAX, 12), 30);
    assert_eq!(days_in_month(2026, 0), 31);
}

#[test]
fn weekdays_of_a_month() {
    let all = nth_weekday_in_month(2026, 1, Weekday::Friday, None);
    assert_eq!(
        all,
        vec![date(2026, 1, 2), date(2026, 1, 9), date(2026, 1, 16), date(2026, 1, 23), date(2026, 1, 30)]
    );
    assert_eq!(nth_weekday_in_month(2026, 1, Weekday::Friday, Some(2)), vec![date(2026, 1, 9)]);
    assert_eq!(nth_weekday_in_month(2026, 1, Weekday::Friday, Some(-1)), vec![date(2026, 1, 30)]);
    assert_eq!(nth_weekday_in_month(2026, 1, Weekday::Friday, Some(0)), vec![date(2026, 1, 2)]);
    assert!(nth_weekday_in_month(2026, 1, Weekday::Friday, Some(6)).is_empty());
    assert!(nth_weekday_in_month(2026, 13, Weekday::Friday, None).is_empty());
}

#[test]
fn a_period_is_expanded_in_order() {
    let rule = parse_rrule_string("FREQ=WEEKLY;BYDAY=SU,MO,WE").unwrap();
    assert_eq!(
        expand_by_rules(date(2026, 1, 14), &rule),
        vec![date(2026, 1, 12), date(2026, 1, 14), date(2026, 1, 18)]
    );
    let yearly = parse_rrule_string("FREQ=YEARLY;BYMONTH=2,1").unwrap();
    assert_eq!(
        expand_by_rules(date(2026, 3, 31), &yearly),
        vec![date(2026, 1, 31), date(2026, 2, 28)]
    );
    let ends = parse_rrule_string("FREQ=MONTHLY;BYMONTHDAY=-1,1").unwrap();
    assert_eq!(
        expand_by_rules(date(2024, 2, 10), &ends),
        vec![date(2024, 2, 1), date(2024, 2, 29)]
    );
}

#[test]
fn occurrences_are_moved_copies() {
    let ev = event_with_rrule("20260110T090000Z", "FREQ=DAILY;COUNT=2");
    let (start, end) = wide_range();
    let out = expand_recurring(vec![ev.clone()], start, end);
    assert_eq!(out[0].uid, "test-rrule");
    assert_eq!(out[0].rrule, ev.rrule);
    assert_eq!(out[1].uid, "test-rrule_2026-01-11");
    assert_eq!(out[1].rrule, None);
    assert_eq!(out[1].dtstart.hour(), 9);
    assert_eq!(out[1].dtstart.unix_second() - out[0].dtstart.unix_second(), 86400);
}

#[test]
fn single_events_pass_through() {
    let mut ev = event_with_rrule("20200110T090000Z", "FREQ=DAILY");
    ev.rrule = None;
    let (start, end) = wide_range();
    let out = expand_recurring(vec![ev.clone()], start, end);
    assert_eq!(out.len(), 1);
    assert_eq!(out[0].uid, ev.uid);
    assert_eq!(out[0].date(), ev.date());
    ev.rrule = Some("nonsense".to_string());
    assert_eq!(expand_recurring(vec![ev], start, end).len(), 1);
}

#[test]
fn the_cap_is_reached() {
    let ev = event_with_rrule("20260110T090000Z", "FREQ=DAILY");
    let out = expand_recurring(vec![ev], date(2026, 1, 1), date(2050, 12, 31));
    assert_eq!(out.len(), 1000);
    assert_eq!(out[999].date().days_since(out[0].date()), 999);
}

#[test]
fn huge_intervals_end_the_rule() {
    let ev = event_with_rrule("20260110T090000Z", "FREQ=WEEKLY;INTERVAL=2147483647");
    let (start, end) = wide_range();
    assert_eq!(expand_recurring(vec![ev], start, end).len(), 1);
}

#[test]
fn occurrences_stay_in_the_range() {
    let start = Date::new(2026, 2, 1).unwrap();
    let end = Date::new(2026, 3, 15).unwrap();
    let skipped = Date::new(2026, 2, 16).unwrap();
    let weekly = "FREQ=WEEKLY;BYDAY=MO,TH";
    let a = event_with_rrule_and_exdate("20260105T090000Z", weekly, "20260216T090000Z");
    let b = event_with_rrule("20250131T090000Z", "FREQ=MONTHLY;BYMONTHDAY=-1");
    let found = expand_recurring(vec![a, b], start, end);
    assert!(found.iter().all(|e| !e.date().is_before(start) && !end.is_before(e.date())));
    assert!(found.iter().all(|e| !e.date().is_same(skipped)));
    assert_eq!(found.len(), 12);
    assert_eq!(found[0].uid, "test-exdate_2026-02-02");
    assert_eq!(found[10].uid, "test-exdate_2026-03-12");
    assert_eq!(found[11].uid, "test-rrule_2026-02-28");
}

#[test]
fn a_later_start_only_drops_occurrences() {
    let rules = ["FREQ=DAILY;INTERVAL=3;COUNT=12", "FREQ=WEEKLY;BYDAY=MO,TH;COUNT=9"];
    let events = || rules.iter().map(|r| event_with_rrule("20260105T090000Z", r)).collect();
    let end = Date::new(2026, 12, 31).unwrap();
    let later = Date::new(2026, 1, 21).unwrap();
    let all = expand_recurring(events(), Date::new(2026, 1, 1).unwrap(), end);
    let some = expand_recurring(events(), later, end);
    let kept: Vec<_> =
        all.iter().filter(|e| !e.date().is_before(later)).map(|e| e.uid.clone()).collect();
    assert_eq!(all.len(), 21);
    assert_eq!(kept, some.iter().map(|e| e.uid.clone()).collect::<Vec<_>>());
    assert_eq!(some.len(), 10);
}

#[test]
fn occurrences_stay_in_their_zone() {
    let ics = "BEGIN:VCALENDAR\r\nVERSION:2.0\r\nBEGIN:VEVENT\r\nUID:z\r\n\
               DTSTART;TZID=Etc/GMT-5:20260105T090000\r\nRRULE:FREQ=DAILY;COUNT=3\r\n\
               EXDATE;TZID=Etc/GMT-5:20260106T090000\r\nEND:VEVENT\r\nEND:VCALENDAR\r\n";
    let (start, end) = wide_range();
    let found = expand_recurring(parse_ics_events(ics, "s", "c"), start, end);
    assert_eq!(found.len(), 2);
    assert_eq!(found[1].uid, "z_2026-01-07");
    assert_eq!(found[1].dtstart.hour(), 9);
    assert_eq!(found[1].dtstart.offset(), 5 * 3600);
    assert_eq!(found[1].dtstart.unix_second() - found[0].dtstart.unix_second(), 2 * 86400);
}
