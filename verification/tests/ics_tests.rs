use calendar_core::event::CalendarEvent;
use calendar_core::component::Property;
use calendar_core::ics::{dates_of_moments, event_with, parse_ics_events};
use calendar_core::time::{Date, Zone, Zoned};
use calendar_core::todo::{parse_ics_todos, todo_with, CalendarTodo};

fn make_event(
    uid: &str,
    summary: &str,
    start: Zoned,
    end: Option<Zoned>,
    all_day: bool,
) -> CalendarEvent {
    CalendarEvent {
        uid: uid.to_string(),
        source_id: "test".to_string(),
        summary: summary.to_string(),
        description: Some("A description".to_string()),
        location: Some("Room 101".to_string()),
        dtstart: start,
        dtend: end,
        all_day,
        url: None,
        color: "#FF0000".to_string(),
        etag: None,
        href: None,
        rrule: None,
        exdates: Vec::new(),
        rdates: Vec::new(),
    }
}

fn utc(y: i16, m: i8, d: i8, h: i8, min: i8) -> Zoned {
    Date::new(y, m, d).unwrap().at(h, min, 0, 0).to_zoned(Zone::Utc).unwrap()
}

// round-trip CalendarEvent
#[test]
fn event_round_trip() {
    let start = utc(2026, 3, 15, 10, 0);
    let end = utc(2026, 3, 15, 11, 30);
    let ev = make_event("round-trip-1", "Team Meeting", start.clone(), Some(end.clone()), false);
    let ics = ev.to_ics();
    let parsed = parse_ics_events(&ics, "test", "#FF0000");
    assert_eq!(parsed.len(), 1);
    let p = &parsed[0];
    assert_eq!(p.uid, "round-trip-1");
    assert_eq!(p.summary, "Team Meeting");
    assert_eq!(p.dtstart.date(), start.date());
    assert_eq!(p.dtstart.hour(), 10);
    assert_eq!(p.dtend.as_ref().unwrap().hour(), 11);
    assert_eq!(p.dtend.as_ref().unwrap().minute(), 30);
    assert!(!p.all_day);
    assert_eq!(p.description.as_deref(), Some("A description"));
    assert_eq!(p.location.as_deref(), Some("Room 101"));
}

// all-day event round-trip
#[test]
fn all_day_event_round_trip() {
    let start = Date::new(2026, 6, 1).unwrap().at(0, 0, 0, 0).to_zoned(Zone::Utc).unwrap();
    let end = Date::new(2026, 6, 2).unwrap().at(0, 0, 0, 0).to_zoned(Zone::Utc).unwrap();
    let ev = make_event("allday-1", "Holiday", start.clone(), Some(end), true);
    let ics = ev.to_ics();
    let parsed = parse_ics_events(&ics, "test", "#00FF00");
    assert_eq!(parsed.len(), 1);
    let p = &parsed[0];
    assert!(p.all_day);
    assert_eq!(p.date(), Date::new(2026, 6, 1).unwrap());
}

// description escaping
#[test]
fn description_escaping() {
    let start = utc(2026, 1, 1, 9, 0);
    let mut ev = make_event("escape-1", "Test", start, None, false);
    ev.description = Some("Line 1\nLine 2; commas, here".to_string());
    let ics = ev.to_ics();
    let parsed = parse_ics_events(&ics, "test", "#0000FF");
    assert_eq!(parsed.len(), 1);
    let desc = parsed[0].description.as_ref().unwrap();
    assert!(desc.contains("Line 1") && desc.contains("Line 2"));
}

// VTODO round-trip
#[test]
fn todo_round_trip() {
    let todo = CalendarTodo {
        uid: "todo-rt-1".to_string(),
        source_id: "test".to_string(),
        summary: "Buy groceries".to_string(),
        description: Some("Milk, eggs, bread".to_string()),
        due: Some(utc(2026, 4, 15, 17, 0)),
        completed: false,
        priority: Some(1),
        color: "#FFAA00".to_string(),
        etag: None,
        href: None,
    };
    let ics = todo.to_ics();
    let parsed = parse_ics_todos(&ics, "test", "#FFAA00");
    assert_eq!(parsed.len(), 1);
    let p = &parsed[0];
    assert_eq!(p.uid, "todo-rt-1");
    assert_eq!(p.summary, "Buy groceries");
    assert!(!p.completed);
    assert!(p.due.is_some());
    assert_eq!(p.due.as_ref().unwrap().date(), Date::new(2026, 4, 15).unwrap());
}

const NEXTCLOUD_RRULE_EXDATE: &str = "BEGIN:VCALENDAR\r\n\
VERSION:2.0\r\n\
PRODID:-//Nextcloud calendar v4.7.0\r\n\
BEGIN:VTIMEZONE\r\n\
TZID:Europe/Berlin\r\n\
BEGIN:STANDARD\r\n\
DTSTART:19701025T030000\r\n\
TZOFFSETFROM:+0200\r\n\
TZOFFSETTO:+0100\r\n\
END:STANDARD\r\n\
END:VTIMEZONE\r\n\
BEGIN:VEVENT\r\n\
UID:nextcloud-1\r\n\
DTSTART:20260105T090000Z\r\n\
DTEND:20260105T100000Z\r\n\
SUMMARY:Weekly review\r\n\
RRULE:FREQ=WEEKLY;BYDAY=MO;COUNT=8\r\n\
EXDATE:20260119T090000Z\r\n\
BEGIN:VALARM\r\n\
ACTION:DISPLAY\r\n\
TRIGGER:-PT15M\r\n\
END:VALARM\r\n\
END:VEVENT\r\n\
END:VCALENDAR\r\n";

#[test]
fn parse_vevent_with_rrule_and_exdate() {
    let events = parse_ics_events(NEXTCLOUD_RRULE_EXDATE, "nc", "#3366CC");
    assert_eq!(events.len(), 1);
    assert_eq!(events[0].rrule.as_deref(), Some("FREQ=WEEKLY;BYDAY=MO;COUNT=8"));
    assert_eq!(events[0].exdates.len(), 1);
    assert_eq!(events[0].exdates[0], Date::new(2026, 1, 19).unwrap());
}

const RDATE_EVENT: &str = "BEGIN:VCALENDAR\r\n\
VERSION:2.0\r\n\
PRODID:-//TEST//EN\r\n\
BEGIN:VEVENT\r\n\
UID:rdate-1\r\n\
DTSTART:20260401T120000Z\r\n\
SUMMARY:Extra\r\n\
RDATE:20260415T120000Z\r\n\
END:VEVENT\r\n\
END:VCALENDAR\r\n";

#[test]
fn parse_vevent_with_rdate() {
    let events = parse_ics_events(RDATE_EVENT, "test", "#00CC00");
    assert_eq!(events.len(), 1);
    assert_eq!(events[0].rdates.len(), 1);
    assert_eq!(events[0].rdates[0], Date::new(2026, 4, 15).unwrap());
}

const TODO_WITH_DUE: &str = "BEGIN:VCALENDAR\r\n\
VERSION:2.0\r\n\
PRODID:-//TEST//EN\r\n\
BEGIN:VTODO\r\n\
UID:todo-due\r\n\
SUMMARY:File taxes\r\n\
DUE:20260415T170000Z\r\n\
STATUS:NEEDS-ACTION\r\n\
END:VTODO\r\n\
END:VCALENDAR\r\n";

#[test]
fn parse_vtodo_with_due() {
    let todos = parse_ics_todos(TODO_WITH_DUE, "test", "#FF0000");
    assert_eq!(todos.len(), 1);
    assert_eq!(todos[0].summary, "File taxes");
    assert!(!todos[0].completed);
    assert!(todos[0].due.is_some());
}

const TODO_COMPLETED_NO_DUE: &str = "BEGIN:VCALENDAR\r\n\
VERSION:2.0\r\n\
PRODID:-//TEST//EN\r\n\
BEGIN:VTODO\r\n\
UID:todo-done\r\n\
SUMMARY:Water plants\r\n\
STATUS:COMPLETED\r\n\
PRIORITY:5\r\n\
END:VTODO\r\n\
END:VCALENDAR\r\n";

#[test]
fn parse_vtodo_completed_no_due() {
    let todos = parse_ics_todos(TODO_COMPLETED_NO_DUE, "test", "#888888");
    assert_eq!(todos.len(), 1);
    assert!(todos[0].completed);
    assert!(todos[0].due.is_none());
}

// What is written comes back, escapes and all.
#[test]
fn texts_come_back_as_they_were() {
    let mut ev = make_event("same", "a, b; c \\ d\ne", utc(2026, 1, 1, 9, 0), None, false);
    ev.description = Some("Line 1\nLine 2; commas, here \\n".to_string());
    ev.location = Some("".to_string());
    let parsed = parse_ics_events(&ev.to_ics(), "other", "#123456");
    assert_eq!(parsed.len(), 1);
    assert_eq!(parsed[0].summary, ev.summary);
    assert_eq!(parsed[0].description, ev.description);
    assert_eq!(parsed[0].location, None);
    assert_eq!(parsed[0].source_id, "other");
    assert_eq!(parsed[0].color, "#123456");
    assert_eq!(parsed[0].dtstart.unix_second(), ev.dtstart.unix_second());
}

#[test]
fn event_document_is_exact() {
    let mut ev = make_event("u1", "Hi", utc(2026, 3, 5, 10, 7), Some(utc(2026, 3, 5, 11, 0)), false);
    ev.description = None;
    assert_eq!(
        ev.to_ics_at(&utc(2026, 2, 3, 4, 5)),
        "BEGIN:VCALENDAR\r\nVERSION:2.0\r\nPRODID:-//COSMIC//cosmic-applet-time//EN\r\n\
         BEGIN:VEVENT\r\nUID:u1\r\nDTSTAMP:20260203T040500Z\r\nDTSTART:20260305T100700Z\r\nDTEND:20260305T110000Z\r\n\
         SUMMARY:Hi\r\nLOCATION:Room 101\r\nEND:VEVENT\r\nEND:VCALENDAR\r\n"
    );
    ev.all_day = true;
    assert!(ev.to_ics().contains("\r\nDTSTART;VALUE=DATE:20260305\r\nDTEND;VALUE=DATE:20260305\r\n"));
}

#[test]
fn completed_todo_document() {
    let todo = CalendarTodo {
        uid: "t".to_string(),
        source_id: "s".to_string(),
        summary: "Done".to_string(),
        description: None,
        due: None,
        completed: true,
        priority: Some(9),
        color: String::new(),
        etag: None,
        href: None,
    };
    assert_eq!(
        todo.to_ics_at(&utc(2026, 2, 3, 4, 5)),
        "BEGIN:VCALENDAR\r\nVERSION:2.0\r\nPRODID:-//COSMIC//cosmic-applet-time//EN\r\n\
         BEGIN:VTODO\r\nUID:t\r\nSUMMARY:Done\r\nSTATUS:COMPLETED\r\n\
         COMPLETED:20260203T040500Z\r\nPRIORITY:9\r\nEND:VTODO\r\nEND:VCALENDAR\r\n"
    );
    let back = parse_ics_todos(&todo.to_ics_at(&utc(2026, 2, 3, 4, 5)), "x", "y");
    assert_eq!(back.len(), 1);
    assert!(back[0].completed);
    assert_eq!(back[0].priority, Some(9));
}

#[test]
fn events_without_uid_or_start_are_dropped() {
    let head = "BEGIN:VCALENDAR\r\nBEGIN:VEVENT\r\n";
    let tail = "END:VEVENT\r\nEND:VCALENDAR\r\n";
    let no_uid = format!("{head}DTSTART:20260101T000000Z\r\n{tail}");
    let no_start = format!("{head}UID:a\r\n{tail}");
    let bad_start = format!("{head}UID:a\r\nDTSTART:20261301T000000Z\r\n{tail}");
    let good = format!("{head}UID:a\r\nDTSTART:20260101T000000Z\r\n{tail}");
    assert!(parse_ics_events(&no_uid, "s", "c").is_empty());
    assert!(parse_ics_events(&no_start, "s", "c").is_empty());
    assert!(parse_ics_events(&bad_start, "s", "c").is_empty());
    assert_eq!(parse_ics_events(&good, "s", "c").len(), 1);
    assert_eq!(parse_ics_events(&good, "s", "c")[0].summary, "");
}

#[test]
fn named_zone_is_resolved() {
    let ics = "BEGIN:VCALENDAR\r\nBEGIN:VEVENT\r\nUID:z\r\n\
               DTSTART;TZID=Etc/UTC:20260701T120000\r\nEND:VEVENT\r\nEND:VCALENDAR\r\n";
    let events = parse_ics_events(ics, "s", "c");
    assert_eq!(events.len(), 1);
    assert!(matches!(events[0].dtstart.zone(), Zone::Named(z) if z.name() == "Etc/UTC"));
    assert_eq!(events[0].dtstart.hour(), 12);
    let unknown = ics.replace("Etc/UTC", "No/Such_Zone");
    assert!(parse_ics_events(&unknown, "s", "c").is_empty());
}

#[test]
fn time_is_displayed() {
    let mut ev = make_event("d", "D", utc(2026, 1, 2, 8, 5), Some(utc(2026, 1, 2, 9, 30)), false);
    assert_eq!(ev.time_display(), "08:05 – 09:30");
    ev.dtend = None;
    assert_eq!(ev.time_display(), "08:05");
    ev.all_day = true;
    assert_eq!(ev.time_display(), "All day");
}

#[test]
fn an_event_carries_the_time_at_which_it_is_written() {
    let ev = make_event("u1", "Hi", utc(2026, 3, 5, 10, 7), None, false);
    let ics = ev.to_ics();
    assert_eq!(ics.matches("\r\nDTSTAMP:").count(), 1);
    assert_eq!(ics.matches("\r\nUID:").count(), 1);
    assert_eq!(ics.matches("\r\nDTEND:").count(), 0);
    let parsed = parse_ics_events(&ics, "test", "#FF0000");
    assert_eq!(parsed[0].dtstart.unix_second(), ev.dtstart.unix_second());
}

#[test]
fn early_years_have_four_digits() {
    let ev = make_event("u1", "Hi", utc(987, 3, 5, 10, 7), None, false);
    let ics = ev.to_ics_at(&utc(2026, 2, 3, 4, 5));
    assert!(ics.contains("\r\nDTSTART:09870305T100700Z\r\n"));
    let parsed = parse_ics_events(&ics, "test", "#FF0000");
    assert_eq!(parsed.len(), 1);
    assert_eq!(parsed[0].dtstart.unix_second(), ev.dtstart.unix_second());
}

#[test]
fn an_event_is_made_of_what_was_found() {
    let prop = |name: &str, value: &str| Property {
        name: name.into(),
        params: None,
        value: Some(value.into()),
    };
    let props = vec![prop("UID", "u"), prop("SUMMARY", "a\\, b"), prop("DTSTART", "20260105")];
    let start = utc(2026, 1, 5, 0, 0);
    let day = start.date();
    let e = event_with(&props, "s", "c", Some(start.clone()), None, vec![day], vec![]).unwrap();
    assert_eq!((e.uid.as_str(), e.summary.as_str(), e.all_day), ("u", "a, b", true));
    assert_eq!(e.exdates, vec![day]);
    assert!(event_with(&props, "s", "c", None, None, vec![], vec![]).is_none());
    assert!(event_with(&props[1..], "s", "c", Some(start.clone()), None, vec![], vec![]).is_none());
    let t = todo_with(&props, "s", "c", Some(start.clone())).unwrap();
    assert_eq!(t.due, Some(start.clone()));
    assert!(todo_with(&props[1..], "s", "c", None).is_none());
    assert_eq!(dates_of_moments(&vec![None, Some(start), None]), vec![day]);
}
