use calendar_core::agenda::{events_by_date, sort_events, upcoming_events};
use calendar_core::event::CalendarEvent;
use calendar_core::forms::{event_span, parse_hex_color, parse_hhmm, parse_todo_due};
use calendar_core::sync::compute_sync_range;
use calendar_core::time::{Date, Zone};

struct Rgb {
    r: f32,
    g: f32,
    b: f32,
}

fn color(hex: &str) -> Rgb {
    let (r, g, b) = parse_hex_color(hex);
    Rgb { r: r as f32 / 255.0, g: g as f32 / 255.0, b: b as f32 / 255.0 }
}

// ── Color parsing ──────────────────────────────────────────

#[test]
fn hex_color_full() {
    let c = color("#FF0000");
    // Red channel should be 1.0
    assert!((c.r - 1.0).abs() < 0.01);
    assert!(c.g.abs() < 0.01);
    assert!(c.b.abs() < 0.01);
}

#[test]
fn hex_color_blue() {
    let c = color("#0000FF");
    assert!(c.r.abs() < 0.01);
    assert!(c.g.abs() < 0.01);
    assert!((c.b - 1.0).abs() < 0.01);
}

#[test]
fn hex_color_short_returns_fallback() {
    // Short hex like "#fff" has only 3 chars after #, < 6
    let c = color("#fff");
    // Fallback is rgb8(128,128,128)
    let expected = 128.0 / 255.0;
    assert!((c.r - expected).abs() < 0.01);
    assert!((c.g - expected).abs() < 0.01);
    assert!((c.b - expected).abs() < 0.01);
}

#[test]
fn hex_color_empty_returns_fallback() {
    let c = color("");
    let expected = 128.0 / 255.0;
    assert!((c.r - expected).abs() < 0.01);
}

#[test]
fn hex_color_garbage_returns_fallback() {
    let c = color("not-a-color");
    let expected = 128.0 / 255.0;
    // With garbage, from_str_radix fails → unwrap_or(128)
    assert!((c.r - expected).abs() < 0.01);
}

// ── HH:MM parsing ─────────────────────────────────────────

#[test]
fn parse_hhmm_valid() {
    assert_eq!(parse_hhmm("09:30"), Some((9, 30)));
}

#[test]
fn parse_hhmm_midnight() {
    assert_eq!(parse_hhmm("00:00"), Some((0, 0)));
}

#[test]
fn parse_hhmm_end_of_day() {
    assert_eq!(parse_hhmm("23:59"), Some((23, 59)));
}

#[test]
fn parse_hhmm_24_invalid() {
    // 24:00 is out of range 0..24
    assert_eq!(parse_hhmm("24:00"), None);
}

#[test]
fn parse_hhmm_negative_invalid() {
    assert_eq!(parse_hhmm("-1:00"), None);
}

#[test]
fn parse_hhmm_garbage() {
    assert_eq!(parse_hhmm("abc"), None);
}

#[test]
fn parse_hhmm_empty() {
    assert_eq!(parse_hhmm(""), None);
}

// ── parse_todo_due ────────────────────────────────────────

#[test]
fn parse_todo_due_date_only() {
    let z = parse_todo_due("2026-03-15", "");
    assert!(z.is_some());
    let z = z.unwrap();
    assert_eq!(z.date(), Date::new(2026, 3, 15).unwrap());
}

#[test]
fn parse_todo_due_with_time() {
    let z = parse_todo_due("2026-03-15", "14:30");
    assert!(z.is_some());
    let z = z.unwrap();
    assert_eq!(z.date(), Date::new(2026, 3, 15).unwrap());
    assert_eq!(z.hour(), 14);
    assert_eq!(z.minute(), 30);
}

#[test]
fn parse_todo_due_empty_date() {
    assert!(parse_todo_due("", "").is_none());
}

#[test]
fn parse_todo_due_invalid_date() {
    assert!(parse_todo_due("not-a-date", "").is_none());
}

#[test]
fn parse_todo_due_invalid_time() {
    // Valid date but invalid time
    assert!(parse_todo_due("2026-03-15", "25:00").is_none());
}

// ── compute_sync_range ───────────────────────────────────────

#[test]
fn sync_range_basic() {
    let today = Date::new(2026, 6, 15).unwrap();
    let (start, end) = compute_sync_range(today, 30, 90);
    assert_eq!(start, "20260516T000000Z");
    assert_eq!(end, "20260913T000000Z");
}

#[test]
fn sync_range_zero_days() {
    let today = Date::new(2026, 1, 1).unwrap();
    let (start, end) = compute_sync_range(today, 0, 0);
    assert_eq!(start, "20260101T000000Z");
    assert_eq!(end, "20260101T000000Z");
}

#[test]
fn sync_range_across_year_boundary() {
    let today = Date::new(2026, 1, 15).unwrap();
    let (start, _end) = compute_sync_range(today, 30, 30);
    // 30 days before 2026-01-15 = 2025-12-16
    assert_eq!(start, "20251216T000000Z");
}

// ── upcoming_events ────────────────────────────────────────

fn make_test_event(uid: &str, year: i16, month: i8, day: i8) -> CalendarEvent {
    let dtstart = Date::new(year, month, day)
        .unwrap()
        .at(10, 0, 0, 0)
        .to_zoned(Zone::Utc)
        .unwrap();
    CalendarEvent {
        uid: uid.into(),
        source_id: "test".into(),
        summary: format!("Event {uid}"),
        description: None,
        location: None,
        dtstart,
        dtend: None,
        all_day: false,
        url: None,
        color: "#0078D4".into(),
        etag: None,
        href: None,
        rrule: None,
        exdates: Vec::new(),
        rdates: Vec::new(),
    }
}

#[test]
fn upcoming_events_count_limit() {
    let events: Vec<CalendarEvent> = (1..=10)
        .map(|i| make_test_event(&format!("e{i}"), 2026, 6, i as i8))
        .collect();
    let from = Date::new(2026, 6, 1).unwrap();
    let result = upcoming_events(&events, from, 5);
    assert_eq!(result.len(), 5);
    assert_eq!(result[0].uid, "e1");
    assert_eq!(result[4].uid, "e5");
}

#[test]
fn upcoming_events_excludes_past() {
    let events = vec![
        make_test_event("past1", 2026, 5, 1),
        make_test_event("past2", 2026, 5, 15),
        make_test_event("future1", 2026, 6, 10),
        make_test_event("future2", 2026, 6, 20),
    ];
    let from = Date::new(2026, 6, 1).unwrap();
    let result = upcoming_events(&events, from, 10);
    assert_eq!(result.len(), 2);
    assert_eq!(result[0].uid, "future1");
    assert_eq!(result[1].uid, "future2");
}

#[test]
fn upcoming_events_empty() {
    let from = Date::new(2026, 6, 1).unwrap();
    let result = upcoming_events(&[], from, 5);
    assert!(result.is_empty());
}

// ── events_by_date ───────────────────────────────────────

#[test]
fn events_by_date_grouping() {
    let events = vec![
        make_test_event("a", 2026, 6, 1),
        make_test_event("b", 2026, 6, 5),
        make_test_event("c", 2026, 6, 10),
    ];
    let map = events_by_date(&events);
    assert_eq!(map.len(), 3);
    assert!(map.contains_key(&Date::new(2026, 6, 1).unwrap()));
    assert!(map.contains_key(&Date::new(2026, 6, 5).unwrap()));
    assert!(map.contains_key(&Date::new(2026, 6, 10).unwrap()));
    assert_eq!(map.get(&Date::new(2026, 6, 1).unwrap()).unwrap().len(), 1);
}

#[test]
fn events_by_date_same_day() {
    let events = vec![
        make_test_event("x1", 2026, 7, 4),
        make_test_event("x2", 2026, 7, 4),
        make_test_event("x3", 2026, 7, 4),
    ];
    let map = events_by_date(&events);
    assert_eq!(map.len(), 1);
    let day = map.get(&Date::new(2026, 7, 4).unwrap()).unwrap();
    assert_eq!(day.len(), 3);
}

#[test]
fn colors_are_exact() {
    assert_eq!(parse_hex_color("#0078D4"), (0, 0x78, 0xd4));
    assert_eq!(parse_hex_color("ff8000aa"), (255, 128, 0));
    assert_eq!(parse_hex_color("##+1zz10"), (1, 128, 16));
}

#[test]
fn times_are_read_loosely() {
    assert_eq!(parse_hhmm(" 7 : 05 :x"), Some((7, 5)));
    assert_eq!(parse_hhmm("12:60"), None);
    assert_eq!(parse_hhmm("12"), None);
}

#[test]
fn spans_of_events() {
    let d = Date::new(2026, 3, 15).unwrap();
    let (start, end) = event_span(d, true, "", "");
    assert_eq!(start.unwrap().date(), d);
    let end = end.unwrap();
    assert_eq!(end.date(), Date::new(2026, 3, 16).unwrap());
    assert_eq!(end.zone(), Zone::Utc);
    let (start, end) = event_span(d, false, "08:15", "nine");
    let start = start.unwrap();
    assert_eq!((start.hour(), start.minute()), (8, 15));
    assert_eq!(start.zone(), Zone::System);
    assert_eq!(end.unwrap().hour(), 10);
}

#[test]
fn ranges_keep_four_digits_and_stay_in_range() {
    assert_eq!(compute_sync_range(Date::new(33, 4, 3).unwrap(), 0, 1).1, "00330404T000000Z");
    assert_eq!(
        compute_sync_range(Date::new(9999, 12, 31).unwrap(), 0, 1).1,
        "99991231T000000Z"
    );
}

#[test]
fn events_are_sorted_by_start_and_stay_in_order() {
    let mut events = vec![
        make_test_event("late", 2026, 6, 2),
        make_test_event("b", 2026, 6, 1),
        make_test_event("a", 2026, 6, 1),
    ];
    sort_events(&mut events);
    let uids: Vec<&str> = events.iter().map(|e| e.uid.as_str()).collect();
    assert_eq!(uids, vec!["b", "a", "late"]);
}

#[test]
fn groups_are_in_the_order_of_dates() {
    let events = vec![
        make_test_event("c", 2026, 6, 10),
        make_test_event("a", 2026, 6, 1),
        make_test_event("d", 2026, 6, 10),
    ];
    let map = events_by_date(&events);
    assert_eq!(map.len(), 2);
    assert!(!map.is_empty());
    assert_eq!(map.day(0).0, Date::new(2026, 6, 1).unwrap());
    let second = map.day(1);
    assert_eq!(second.0, Date::new(2026, 6, 10).unwrap());
    assert_eq!(second.1[0].uid, "c");
    assert_eq!(second.1[1].uid, "d");
    assert!(map.get(&Date::new(2026, 6, 2).unwrap()).is_none());
}
