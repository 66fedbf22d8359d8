use calendar_core::clock::{
    delay_after_tick, first_delay, first_weekday, format_has_seconds, locale_candidates,
    maybe_strftime, seconds_to_next, shows_seconds, split_clock, split_words, sync_period,
    tick_period,
};
use calendar_core::config::{AuthMethod, CalDavCalendar, SourceConfig, SourceType};
use calendar_core::event::CalendarEvent;
use calendar_core::sync_all::SyncResult;
use calendar_core::time::{Date, FoundZone, Weekday, Zone, Zoned};
use calendar_core::todo::CalendarTodo;
use calendar_core::view::{calendar_first, CellStyle, DetailView, Page};
use calendar_core::window::{sync_messages, Action, Message, TimeAppletConfig, Window};

fn date(y: i16, m: i8, d: i8) -> Date {
    Date::new(y, m, d).unwrap()
}

fn utc(d: Date, h: i8, m: i8) -> Zoned {
    d.at(h, m, 0, 0).to_zoned(Zone::Utc).unwrap()
}

fn settings() -> TimeAppletConfig {
    TimeAppletConfig {
        first_day_of_week: 0,
        show_seconds: true,
        military_time: true,
        show_date_in_top_panel: true,
        show_weekday: true,
        format_strftime: String::new(),
    }
}

fn event(uid: &str, day: i8, etag: Option<&str>) -> CalendarEvent {
    CalendarEvent {
        uid: uid.into(),
        source_id: "src".into(),
        summary: format!("Event {uid}"),
        description: Some("D".into()),
        location: Some("".into()),
        dtstart: utc(date(2026, 6, day), 10, 5),
        dtend: None,
        all_day: false,
        url: None,
        color: "#0078D4".into(),
        etag: etag.map(|s| s.into()),
        href: Some(format!("/cal/{uid}.ics")),
        rrule: None,
        exdates: Vec::new(),
        rdates: Vec::new(),
    }
}

fn todo(uid: &str) -> CalendarTodo {
    CalendarTodo {
        uid: uid.into(),
        source_id: "src".into(),
        summary: "T".into(),
        description: None,
        due: Some(utc(date(2026, 6, 3), 0, 0)),
        completed: false,
        priority: None,
        color: "".into(),
        etag: Some("e".into()),
        href: Some("/t".into()),
    }
}

fn source(id: &str, enabled: bool) -> SourceConfig {
    let calendar = |href: &str, enabled: bool| CalDavCalendar {
        href: href.into(),
        display_name: format!("Cal {href}"),
        color: "".into(),
        enabled,
        ctag: None,
        sync_token: None,
    };
    SourceConfig {
        id: id.into(),
        name: format!("Source {id}"),
        enabled,
        color: "".into(),
        source_type: SourceType::CalDav {
            url: "https://h".into(),
            auth: AuthMethod::Bearer,
            calendars: vec![calendar("/on/", true), calendar("/off/", false)],
        },
        ca_cert_path: Some("/ca.pem".into()),
    }
}

fn window() -> Window {
    let mut w = Window::start(
        settings(),
        utc(date(2026, 6, 15), 12, 0),
        vec![event("a", 20, Some("e1")), event("old", 1, None)],
        vec![todo("t")],
    );
    w.calendar_config.sources = vec![source("off", false), source("src", true)];
    w
}

#[test]
fn the_start_shows_today_and_the_cache() {
    let w = window();
    assert_eq!(w.date_today, date(2026, 6, 15));
    assert_eq!(w.upcoming_events.len(), 1);
    assert_eq!(w.calendar_events.len(), 2);
    assert_eq!(w.form.start_time, "09:00");
    assert!(w.ticking_seconds);
}

#[test]
fn the_popup_opens_on_today_and_closes() {
    let mut w = window();
    w.update(Message::SelectDate(date(2026, 1, 1)));
    assert!(matches!(w.update(Message::TogglePopup(7)), Action::OpenPopup(7)));
    assert_eq!(w.date_selected, w.date_today);
    w.update(Message::CloseRequested(8));
    assert_eq!(w.popup, Some(7));
    assert!(matches!(w.update(Message::TogglePopup(9)), Action::ClosePopup(7)));
    assert_eq!(w.popup, None);
    w.update(Message::TogglePopup(3));
    w.update(Message::CloseRequested(3));
    assert_eq!(w.popup, None);
}

#[test]
fn months_are_turned() {
    let mut w = window();
    w.update(Message::SelectDate(date(2026, 3, 31)));
    w.update(Message::PreviousMonth);
    assert_eq!(w.date_selected, date(2026, 2, 28));
    w.update(Message::NextMonth);
    assert_eq!(w.date_selected, date(2026, 3, 28));
    w.update(Message::SelectDate(date(9999, 12, 1)));
    w.update(Message::NextMonth);
    assert_eq!(w.date_selected, date(9999, 12, 1));
    w.update(Message::GoToToday);
    assert_eq!(w.date_selected, date(2026, 6, 15));
}

#[test]
fn settings_decide_about_seconds() {
    let mut w = window();
    let mut c = settings();
    c.show_seconds = false;
    assert!(matches!(w.update(Message::ConfigChanged(c)), Action::TickSeconds(false)));
    let mut c = settings();
    c.show_seconds = false;
    c.format_strftime = "%H:%M:%S".into();
    assert!(matches!(w.update(Message::ConfigChanged(c)), Action::TickSeconds(true)));
    let mut c = settings();
    c.format_strftime = "%H:%M".into();
    assert!(matches!(w.update(Message::ConfigChanged(c)), Action::Nothing));
    assert!(w.ticking_seconds);
}

#[test]
fn ticks_and_zones() {
    let mut w = window();
    assert!(matches!(w.update(Message::Tick), Action::Nothing));
    assert_eq!(w.now.zone(), Zone::System);
    w.update(Message::TimezoneUpdate("Etc/UTC".into()));
    assert_eq!(w.timezone.as_ref().map(|z| z.name()), Some("Etc/UTC"));
    assert!(matches!(w.now.zone(), Zone::Named(z) if z.name() == "Etc/UTC"));
    assert_eq!(w.date_selected, w.date_today);
    w.update(Message::TimezoneUpdate("No/Such_Zone".into()));
    assert_eq!(w.timezone.as_ref().map(|z| z.name()), Some("Etc/UTC"));
}

#[test]
fn a_sync_replaces_the_events() {
    let mut w = window();
    w.calendar_error = Some("x".into());
    w.calendar_syncing = true;
    let a = w.update(Message::CalendarSync(vec![event("n", 16, None)], Vec::new()));
    assert!(matches!(a, Action::SaveCache));
    assert_eq!(w.all_events.len(), 1);
    assert_eq!(w.calendar_events.len(), 1);
    assert_eq!(w.upcoming_events[0].uid, "n");
    assert!(w.calendar_todos.is_empty());
    assert!(!w.calendar_syncing && w.calendar_error.is_none());
}

#[test]
fn expired_sources_are_listed_once() {
    let mut w = window();
    w.update(Message::CalendarAuthExpired(vec!["src".into(), "x".into(), "src".into()]));
    w.update(Message::CalendarAuthExpired(vec!["x".into()]));
    assert_eq!(w.auth_expired_sources, vec!["src".to_string(), "x".to_string()]);
    match w.view_window() {
        Page::Main(m) => assert_eq!(m.sign_in_again, vec!["Source src".to_string()]),
        Page::Detail(_) => panic!("expected the calendar"),
    }
}

#[test]
fn sources_are_toggled_and_removed() {
    let mut w = window();
    assert!(matches!(w.update(Message::CalendarToggleSource("src".into())), Action::SaveConfig));
    assert!(!w.calendar_config.sources[1].enabled);
    w.update(Message::CalendarToggleSource("src".into()));
    assert!(w.calendar_config.sources[1].enabled);
    match w.update(Message::CalendarRemoveSource("off".into())) {
        Action::ForgetSource(id) => assert_eq!(id, "off"),
        _ => panic!("expected ForgetSource"),
    }
    assert_eq!(w.calendar_config.sources.len(), 1);
    assert!(matches!(w.update(Message::CalendarCtagUpdate(Vec::new())), Action::SaveConfig));
    assert!(w.calendar_config.sources.is_empty());
    assert!(matches!(w.update(Message::CalendarRefresh), Action::StartSync));
    assert!(w.calendar_syncing);
}

#[test]
fn an_event_is_created() {
    let mut w = window();
    w.update(Message::CalendarStartCreateEvent);
    assert!(w.creating_event);
    assert!(!w.create_event_form().can_save);
    w.update(Message::CalFormEventSummary("New".into()));
    w.update(Message::CalFormEventStartTime("07:30".into()));
    w.update(Message::CalFormEventEndTime("x".into()));
    assert!(w.create_event_form().can_save);
    assert_eq!(
        w.create_event_form().calendars,
        vec![("src".to_string(), "/on/".to_string(), "Source src / Cal /on/".to_string())]
    );
    match w.update(Message::CalendarSubmitCreateEvent) {
        Action::Create { calendar_href, event, access } => {
            assert_eq!(calendar_href, "/on/");
            assert_eq!(event.summary, "New");
            assert_eq!(event.source_id, "src");
            assert_eq!(event.uid.len(), 36);
            assert_eq!(event.date(), w.date_selected);
            assert_eq!((event.dtstart.hour(), event.dtstart.minute()), (7, 30));
            assert_eq!(event.dtend.unwrap().hour(), 10);
            assert_eq!(access.source_id, "src");
            assert_eq!(access.auth, AuthMethod::Bearer);
            assert_eq!(access.ca_cert_path.as_deref(), Some("/ca.pem"));
        }
        _ => panic!("expected Create"),
    }
    assert!(w.creating_event_saving);
    w.update(Message::CalendarEventCreateError("no".into()));
    assert_eq!(w.calendar_error.as_deref(), Some("no"));
    assert!(w.creating_event && !w.creating_event_saving);
    assert!(matches!(w.update(Message::CalendarEventCreated), Action::StartSync));
    assert!(!w.creating_event);
    w.update(Message::CalFormEventCalendar(1));
    assert!(matches!(w.update(Message::CalendarSubmitCreateEvent), Action::Nothing));
}

#[test]
fn an_event_is_changed() {
    let mut w = window();
    assert!(matches!(w.update(Message::CalendarSaveEditEvent), Action::Nothing));
    w.update(Message::CalendarViewEvent("a".into()));
    w.update(Message::CalendarEditEvent);
    assert!(w.editing_event);
    assert_eq!(w.form.summary, "Event a");
    assert_eq!((w.form.start_time.as_str(), w.form.end_time.as_str()), ("10:05", "10:00"));
    w.update(Message::CalFormEventDescription("".into()));
    w.update(Message::CalFormEventLocation("Here".into()));
    w.update(Message::CalFormEventAllDay(true));
    match w.update(Message::CalendarSaveEditEvent) {
        Action::Update { href, etag, event, .. } => {
            assert_eq!((href.as_str(), etag.as_str()), ("/cal/a.ics", "e1"));
            assert_eq!(event.uid, "a");
            assert_eq!(event.description, None);
            assert_eq!(event.location.as_deref(), Some("Here"));
            assert_eq!(event.date(), date(2026, 6, 20));
            assert_eq!(event.dtend.unwrap().date(), date(2026, 6, 21));
        }
        _ => panic!("expected Update"),
    }
    w.update(Message::CalendarEventUpdateError("412".into()));
    assert!(w.editing_event && !w.editing_event_saving);
    assert!(matches!(w.update(Message::CalendarEventUpdated), Action::StartSync));
    assert_eq!(w.viewing_event_uid, None);
    // An event without an ETag stays as it is.
    w.update(Message::CalendarViewEvent("old".into()));
    assert!(matches!(w.update(Message::CalendarSaveEditEvent), Action::Nothing));
    assert!(matches!(w.update(Message::CalendarConfirmDeleteEvent), Action::Nothing));
    w.update(Message::CalendarCancelEditEvent);
    assert!(!w.editing_event);
}

#[test]
fn an_event_is_deleted() {
    let mut w = window();
    w.update(Message::CalendarViewEvent("a".into()));
    w.update(Message::CalendarDeleteEvent);
    assert!(matches!(
        w.view_window(),
        Page::Detail(DetailView::ConfirmDelete { deleting: false })
    ));
    match w.update(Message::CalendarConfirmDeleteEvent) {
        Action::Delete { href, etag, access } => {
            assert_eq!((href.as_str(), etag.as_str()), ("/cal/a.ics", "e1"));
            assert_eq!(access.source_id, "src");
        }
        _ => panic!("expected Delete"),
    }
    assert!(w.deleting_event);
    w.update(Message::CalendarEventDeleteError("x".into()));
    assert!(!w.deleting_event && !w.confirming_delete);
    w.update(Message::CalendarDeleteEvent);
    w.update(Message::CalendarCancelDeleteEvent);
    assert!(!w.confirming_delete);
    assert!(matches!(w.update(Message::CalendarEventDeleted), Action::StartSync));
    assert_eq!(w.viewing_event_uid, None);
}

#[test]
fn a_todo_is_ticked_off() {
    let mut w = window();
    match w.update(Message::CalendarToggleTodo("t".into())) {
        Action::Complete { href, etag, todo, .. } => {
            assert_eq!((href.as_str(), etag.as_str()), ("/t", "e"));
            assert!(!todo.completed);
        }
        _ => panic!("expected Complete"),
    }
    assert!(matches!(w.update(Message::CalendarToggleTodo("none".into())), Action::Nothing));
    assert!(matches!(w.update(Message::CalendarTodoToggled), Action::StartSync));
    w.update(Message::CalendarTodoError("e".into()));
    assert_eq!(w.calendar_error.as_deref(), Some("e"));
}

#[test]
fn programs_are_started() {
    let mut w = window();
    match w.update(Message::CalendarLaunchExternalApp) {
        Action::Launch(p) => assert_eq!(p, "gnome-calendar"),
        _ => panic!("expected Launch"),
    }
    w.calendar_config.calendar_app = "korganizer".into();
    match w.update(Message::CalendarLaunchExternalApp) {
        Action::Launch(p) => assert_eq!(p, "korganizer"),
        _ => panic!("expected Launch"),
    }
    match w.update(Message::CalendarOpenUrl("https://x".into())) {
        Action::OpenUrl(u) => assert_eq!(u, "https://x"),
        _ => panic!("expected OpenUrl"),
    }
    assert!(matches!(w.update(Message::OpenDateTimeSettings), Action::OpenSettings));
}

#[test]
fn the_popup_shows_the_calendar() {
    let mut w = window();
    w.update(Message::SelectDate(date(2026, 6, 20)));
    match w.view_window() {
        Page::Main(m) => {
            assert!(m.shows_today && m.can_add && !m.creating);
            assert_eq!(m.day_events.len(), 1);
            assert_eq!(m.day_events[0].time, "10:05");
            assert_eq!(m.day_events[0].color, (0, 0x78, 0xd4));
            assert_eq!(m.upcoming.len(), 1);
            assert_eq!(m.todos[0].check, "☐");
            assert_eq!(m.todos[0].due, "20260603");
        }
        Page::Detail(_) => panic!("expected the calendar"),
    }
    w.update(Message::CalendarViewEvent("a".into()));
    match w.view_window() {
        Page::Detail(DetailView::Read { summary, description, location, url, can_change, .. }) => {
            assert_eq!(summary, "Event a");
            assert_eq!(description.as_deref(), Some("D"));
            assert_eq!(location, None);
            assert_eq!(url, None);
            assert!(can_change);
        }
        _ => panic!("expected the event"),
    }
    w.update(Message::CalendarEditEvent);
    match w.view_window() {
        Page::Detail(DetailView::Edit { form }) => assert!(form.can_save && form.shows_times),
        _ => panic!("expected the form"),
    }
    w.update(Message::CalendarCloseEventView);
    assert!(matches!(w.view_window(), Page::Main(_)));
}

#[test]
fn the_grid_has_six_weeks() {
    let w = window();
    let cells = w.calendar_grid();
    assert_eq!(cells.len(), 42);
    assert_eq!(cells[0].date, date(2026, 6, 1));
    assert_eq!(cells[14].date, date(2026, 6, 15));
    assert!(cells[14].is_day && cells[14].is_today && cells[14].is_month);
    assert_eq!(cells[14].style(), CellStyle::Suggested);
    assert!(cells[19].has_events);
    assert!(!cells[41].is_month && !cells[41].is_pressable());
    assert_eq!(cells[41].style(), CellStyle::Text);
    assert_eq!(calendar_first(date(2026, 6, 15), Weekday::Sunday), Some(date(2026, 5, 31)));
    assert_eq!(calendar_first(date(-9999, 1, 15), Weekday::Sunday), None);
    assert_eq!(first_weekday(5), Weekday::Saturday);
    assert_eq!(first_weekday(9), Weekday::Sunday);
}

#[test]
fn a_sync_is_told_of() {
    let before = vec![source("s", true)];
    let result = SyncResult { events: Vec::new(), todos: Vec::new(), auth_expired: Vec::new() };
    let told = sync_messages(result, before.clone(), &before);
    assert_eq!(told.len(), 1);
    let result =
        SyncResult { events: Vec::new(), todos: Vec::new(), auth_expired: vec!["s".into()] };
    let told = sync_messages(result, vec![source("s", false)], &before);
    assert_eq!(told.len(), 3);
    assert!(matches!(told[0], Message::CalendarSync(_, _)));
    assert!(matches!(told[1], Message::CalendarAuthExpired(_)));
    assert!(matches!(told[2], Message::CalendarCtagUpdate(_)));
}

#[test]
fn ticks_are_on_the_mark() {
    assert_eq!(tick_period(true), 1);
    assert_eq!(tick_period(false), 60);
    assert_eq!(seconds_to_next(125, 60), 55);
    assert_eq!(seconds_to_next(120, 60), 60);
    assert_eq!(delay_after_tick(120, 60), None);
    assert_eq!(delay_after_tick(125, 60), Some(55));
    assert_eq!(delay_after_tick(125, 1), None);
    assert_eq!(first_delay(true, 17), 1);
    assert_eq!(first_delay(false, 119), 1);
    assert_eq!(sync_period(0), 60);
    assert_eq!(sync_period(15), 900);
}

#[test]
fn formats_ask_for_seconds() {
    assert!(format_has_seconds("%H:%M:%S"));
    assert!(format_has_seconds("%T"));
    assert!(format_has_seconds("%%%S"));
    assert!(format_has_seconds("at %s"));
    assert!(!format_has_seconds("Some text"));
    assert!(!format_has_seconds("100 %%S"));
    assert!(!format_has_seconds("%"));
    assert!(!format_has_seconds("%H:%M"));
    assert!(!format_has_seconds(""));
    assert!(shows_seconds("%H", false, true));
    assert!(!shows_seconds("", false, true));
    let z = utc(date(2026, 6, 15), 12, 34);
    assert_eq!(maybe_strftime("%H.%M", &z).as_deref(), Some("12.34"));
    assert_eq!(maybe_strftime("", &z), None);
    assert_eq!(maybe_strftime("%", &z), None);
    let text = maybe_strftime("%F %T %z %Z %Q", &z);
    assert_eq!(text.as_deref(), Some("2026-06-15 12:34:00 +0000 UTC UTC"));
}

#[test]
fn formats_show_the_time_of_the_zone() {
    let noon = date(2026, 6, 15).at(12, 34, 5, 0).to_zoned(Zone::System).unwrap();
    let text = maybe_strftime("%F %I:%M:%S %p", &noon);
    assert_eq!(text.as_deref(), Some("2026-06-15 12:34:05 PM"));
    let midnight = date(2026, 6, 15).at(0, 4, 5, 0);
    let zone = FoundZone::find("Etc/GMT-5".into()).unwrap();
    let z = midnight.to_zoned(Zone::Named(zone)).unwrap();
    let text = maybe_strftime("%F %H:%M %I %p %z %Z %Q", &z);
    assert_eq!(text.as_deref(), Some("2026-06-15 00:04 12 AM +0500 +05 Etc/GMT-5"));
    assert_eq!(maybe_strftime("%s", &z), Some(z.unix_second().to_string()));
    assert_eq!(z.offset(), 5 * 3600);
}

#[test]
fn texts_come_apart() {
    let strings = |v: &[&str]| v.iter().map(|s| s.to_string()).collect::<Vec<String>>();
    assert_eq!(split_words("  Mon\tJun  15 "), strings(&["Mon", "Jun", "15"]));
    assert_eq!(split_clock("12:34 PM"), strings(&["12", "34", "PM"]));
    assert_eq!(locale_candidates("en_US.UTF-8"), ("en-US".to_string(), "en".to_string()));
    assert_eq!(locale_candidates("C"), ("C".to_string(), "C".to_string()));
}

#[test]
fn a_zone_that_is_found_is_taken() {
    let mut w = Window::start(settings(), utc(date(2026, 6, 10), 12, 0), Vec::new(), Vec::new());
    w.take_zone(None);
    assert!(w.timezone.is_none());
    assert!(w.date_today.is_same(date(2026, 6, 10)));
    let zone = FoundZone::find("Etc/GMT-9".into()).unwrap();
    let local = date(2026, 6, 11).at(1, 30, 0, 0);
    let found = local.to_zoned(Zone::Named(zone.clone())).unwrap();
    w.take_zone(Some((zone, found.clone())));
    assert_eq!(w.timezone.as_ref().map(|z| z.name()), Some("Etc/GMT-9"));
    assert!(w.date_today.is_same(date(2026, 6, 11)));
    assert!(w.date_selected.is_same(date(2026, 6, 11)));
    assert_eq!(w.now, found);
    let later = utc(date(2026, 6, 12), 8, 0);
    w.show(later.clone());
    assert_eq!(w.now, later);
    assert!(w.date_today.is_same(date(2026, 6, 11)));
    // A tick shows the time in the zone that is held
    w.update(Message::Tick);
    assert_eq!(w.now.offset(), 9 * 3600);
    w.update(Message::TimezoneUpdate("No/Such_Zone".into()));
    assert_eq!(w.now.offset(), 9 * 3600);
}
