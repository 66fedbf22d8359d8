use calendar_core::cache::{
    cache_at, cache_path, cached_to_event, ctag_cache_path, ctag_key, date_to_string,
    event_to_cached, events_from_cache, key_entries, load_cache_dispatch,
    load_ctag_cache_dispatch, rfc3339_to_zoned, salt_path, save_cache_dispatch,
    save_ctag_cache_dispatch, split_ctag_key, string_to_date, todos_from_cache, unkey_entries,
    zoned_to_rfc3339, CacheRead, CtagEntry,
};
use calendar_core::crypto::{CryptoError, EncryptionKey};
use calendar_core::event::CalendarEvent;
use calendar_core::time::{Date, Zone, Zoned};
use calendar_core::todo::CalendarTodo;

fn utc(y: i16, m: i8, d: i8, h: i8, min: i8) -> Zoned {
    Date::new(y, m, d).unwrap().at(h, min, 0, 0).to_zoned(Zone::Utc).unwrap()
}

fn sample_event() -> CalendarEvent {
    CalendarEvent {
        uid: "cache-evt-1".into(),
        source_id: "src1".into(),
        summary: "Cached Event".into(),
        description: Some("A description".into()),
        location: Some("Office".into()),
        dtstart: utc(2026, 6, 15, 10, 0),
        dtend: Some(utc(2026, 6, 15, 11, 0)),
        all_day: false,
        url: Some("https://example.com".into()),
        color: "#FF0000".into(),
        etag: Some("\"etag-1\"".into()),
        href: Some("/cal/event1.ics".into()),
        rrule: None,
        exdates: vec![Date::new(2026, 6, 22).unwrap()],
        rdates: Vec::new(),
    }
}

fn sample_todo() -> CalendarTodo {
    CalendarTodo {
        uid: "cache-todo-1".into(),
        source_id: "src1".into(),
        summary: "Cached Todo".into(),
        description: Some("Todo desc".into()),
        due: Some(utc(2026, 7, 1, 17, 0)),
        completed: false,
        priority: Some(2),
        color: "#00FF00".into(),
        etag: Some("\"etag-t1\"".into()),
        href: Some("/cal/todo1.ics".into()),
    }
}

// cache with None optional fields
#[test]
fn cache_with_none_fields() {
    let ev = CalendarEvent {
        uid: "none-test".into(),
        source_id: "s".into(),
        summary: "Bare".into(),
        description: None,
        location: None,
        dtstart: utc(2026, 1, 1, 0, 0),
        dtend: None,
        all_day: true,
        url: None,
        color: "#000".into(),
        etag: None,
        href: None,
        rrule: None,
        exdates: Vec::new(),
        rdates: Vec::new(),
    };
    // Just ensure to_ics doesn't panic with None fields
    let ics = ev.to_ics();
    assert!(ics.contains("UID:none-test"));
}

#[test]
fn cached_events_come_back() {
    let cache = cache_at(&[sample_event()], &[sample_todo()], &utc(2026, 1, 2, 3, 4));
    assert_eq!(cache.timestamp, "2026-01-02T03:04:00Z");
    assert_eq!(cache.events[0].dtstart, "2026-06-15T10:00:00Z");
    assert_eq!(cache.events[0].exdates, vec!["2026-06-22".to_string()]);
    let events = events_from_cache(cache.events);
    let todos = todos_from_cache(cache.todos);
    let before = sample_event();
    assert_eq!(events.len(), 1);
    assert_eq!(events[0].uid, "cache-evt-1");
    assert_eq!(events[0].summary, "Cached Event");
    assert_eq!(events[0].description.as_deref(), Some("A description"));
    assert_eq!(events[0].location.as_deref(), Some("Office"));
    assert_eq!(events[0].dtstart.unix_second(), before.dtstart.unix_second());
    assert_eq!(events[0].dtend.as_ref().unwrap().unix_second(), before.dtend.unwrap().unix_second());
    assert_eq!(events[0].dtstart.zone(), Zone::System);
    assert_eq!(events[0].exdates, before.exdates);
    assert_eq!(todos.len(), 1);
    assert_eq!(todos[0].uid, "cache-todo-1");
    assert_eq!(todos[0].priority, Some(2));
    assert_eq!(todos[0].due.as_ref().unwrap().unix_second(), utc(2026, 7, 1, 17, 0).unix_second());
}

#[test]
fn an_event_without_a_readable_start_is_dropped() {
    let mut c = event_to_cached(&sample_event());
    c.dtend = Some("tomorrow".into());
    c.exdates.push("x".into());
    let e = cached_to_event(c).unwrap();
    assert!(e.dtend.is_none());
    assert_eq!(e.exdates.len(), 1);
    let mut c = event_to_cached(&sample_event());
    c.dtstart = "tomorrow".into();
    assert!(cached_to_event(c).is_none());
}

#[test]
fn moments_as_text() {
    let z = utc(2026, 6, 15, 10, 0);
    assert_eq!(zoned_to_rfc3339(&z), "2026-06-15T10:00:00Z");
    assert_eq!(rfc3339_to_zoned("2026-06-15T12:00:00+02:00").unwrap().unix_second(), z.unix_second());
    assert!(rfc3339_to_zoned("").is_none());
    let early = Zoned::utc_at(-1, 500_000_000);
    let back = rfc3339_to_zoned(&zoned_to_rfc3339(&early)).unwrap();
    assert_eq!(back.unix_second(), -1);
    assert_eq!(back.subsec_nanosecond(), 500_000_000);
}

#[test]
fn dates_as_text() {
    assert_eq!(date_to_string(&Date::new(26, 3, 5).unwrap()), "0026-03-05");
    assert_eq!(string_to_date("2026-3-05"), Date::new(2026, 3, 5));
    assert_eq!(string_to_date("2026-02-30"), None);
    assert_eq!(string_to_date("2026-02"), None);
    assert_eq!(string_to_date("-1-02-03"), None);
    assert_eq!(string_to_date(&date_to_string(&Date::new(-1, 2, 3).unwrap())), None);
    let d = Date::new(2024, 2, 29).unwrap();
    assert_eq!(string_to_date(&date_to_string(&d)), Some(d));
}

#[test]
fn paths_follow_the_environment() {
    let dir = "cosmic/com.system76.CosmicAppletTime.Calendar/v1";
    assert_eq!(
        cache_path(Some("/x".into()), Some("/h".into())),
        Some(format!("/x/{dir}/event_cache.json"))
    );
    assert_eq!(
        ctag_cache_path(Some("".into()), Some("/h/".into())),
        Some(format!("/h/.config/{dir}/ctag_cache.json"))
    );
    assert_eq!(
        salt_path(None, Some("/h".into())),
        Some(format!("/h/.config/{dir}/encryption_salt.bin"))
    );
    assert_eq!(salt_path(None, None), None);
}

#[test]
fn files_are_plain_or_encrypted() {
    let key = EncryptionKey::from_bytes([42u8; 32]);
    let other = EncryptionKey::from_bytes([1u8; 32]);
    let content = b"{\"events\":[]}";
    let plain = save_cache_dispatch(content, None);
    assert_eq!(plain, content.to_vec());
    let stored = save_cache_dispatch(content, Some(&key));
    assert_eq!(stored.len(), content.len() + 28);
    match load_cache_dispatch(&stored, Some(&key)) {
        CacheRead::Content(c) => assert_eq!(c, content.to_vec()),
        CacheRead::Stale(_) => panic!("expected content"),
    }
    match load_cache_dispatch(&stored, Some(&other)) {
        CacheRead::Stale(e) => assert_eq!(e, CryptoError::DecryptionFailed),
        CacheRead::Content(_) => panic!("expected a stale file"),
    }
    let tags = save_ctag_cache_dispatch(b"x", Some(&key));
    assert!(matches!(load_ctag_cache_dispatch(&tags, Some(&key)), CacheRead::Content(_)));
    assert!(matches!(load_ctag_cache_dispatch(b"x", Some(&key)), CacheRead::Stale(_)));
    assert!(matches!(load_ctag_cache_dispatch(b"x", None), CacheRead::Content(_)));
}

#[test]
fn ctag_keys_come_apart() {
    assert_eq!(ctag_key("src1", "/cal/1"), "src1::/cal/1");
    assert_eq!(split_ctag_key("src1::/cal::1"), Some(("src1".into(), "/cal::1".into())));
    assert_eq!(split_ctag_key("src1:/cal"), None);
    // A colon at the end of the source moves the cut.
    assert_eq!(split_ctag_key(&ctag_key("a:", "b")), Some(("a".into(), ":b".into())));
    let entries = vec![
        CtagEntry {
            source_id: "src1".into(),
            href: "/cal/1".into(),
            ctag: Some("ctag-v1".into()),
            sync_token: Some("sync-tok-1".into()),
        },
        CtagEntry { source_id: "src2".into(), href: "/cal/2".into(), ctag: None, sync_token: None },
    ];
    let mut file = key_entries(&entries);
    assert_eq!(file[0].0, "src1::/cal/1");
    file.push(("no mark".into(), None, None));
    let back = unkey_entries(&file);
    assert_eq!(back.len(), 2);
    assert_eq!(back[0].ctag.as_deref(), Some("ctag-v1"));
    assert_eq!(back[1].href, "/cal/2");
}

fn meeting() -> CalendarEvent {
    let now = Zoned::now();
    CalendarEvent {
        uid: "test-uid-1".into(),
        source_id: "src-1".into(),
        summary: "Team Meeting".into(),
        description: Some("Weekly sync".into()),
        location: Some("Room 42".into()),
        dtstart: now.clone(),
        dtend: Some(Zoned::system_at(now.unix_second() + 3600, now.subsec_nanosecond())),
        all_day: false,
        url: None,
        color: "#ff0000".into(),
        etag: Some("\"etag-abc\"".into()),
        href: Some("/cal/event1.ics".into()),
        rrule: None,
        exdates: vec![],
        rdates: vec![],
    }
}

fn bug() -> CalendarTodo {
    CalendarTodo {
        uid: "todo-uid-1".into(),
        source_id: "src-1".into(),
        summary: "Fix bug".into(),
        description: None,
        due: Some(Zoned::now()),
        completed: false,
        priority: Some(1),
        color: "#00ff00".into(),
        etag: None,
        href: None,
    }
}

#[test]
fn plaintext_cache_round_trip() {
    let cache = cache_at(&[meeting()], &[bug()], &Zoned::now());
    let loaded_events = events_from_cache(cache.events);
    let loaded_todos = todos_from_cache(cache.todos);

    assert_eq!(loaded_events.len(), 1);
    assert_eq!(loaded_events[0].summary, "Team Meeting");
    assert_eq!(loaded_todos.len(), 1);
    assert_eq!(loaded_todos[0].summary, "Fix bug");
}

// ctag cache round-trip
#[test]
fn ctag_cache_serde() {
    let cache = vec![
        CtagEntry {
            source_id: "src1".into(),
            href: "/cal/1".into(),
            ctag: Some("ctag-v1".into()),
            sync_token: Some("sync-tok-1".into()),
        },
        CtagEntry { source_id: "src2".into(), href: "/cal/2".into(), ctag: None, sync_token: None },
    ];
    let json = serde_json::to_string(&key_entries(&cache)).unwrap();
    let entries: Vec<(String, Option<String>, Option<String>)> =
        serde_json::from_str(&json).unwrap();
    let deser = unkey_entries(&entries);
    assert_eq!(deser.len(), 2);
    assert_eq!(deser[0].source_id, "src1");
    assert_eq!(deser[0].href, "/cal/1");
    assert_eq!(deser[0].ctag.as_deref(), Some("ctag-v1"));
    assert_eq!(deser[0].sync_token.as_deref(), Some("sync-tok-1"));
    assert_eq!(deser[1].source_id, "src2");
    assert_eq!(deser[1].ctag, None);
}

#[test]
fn todos_keep_their_due_moments() {
    let todos = vec![sample_todo(), bug()];
    let back = todos_from_cache(cache_at(&[], &todos, &Zoned::now()).todos);
    assert_eq!(back.len(), 2);
    for (a, b) in todos.iter().zip(&back) {
        assert_eq!(a.uid, b.uid);
        let (a, b) = (a.due.as_ref().unwrap(), b.due.as_ref().unwrap());
        assert_eq!(a.unix_second(), b.unix_second());
        assert_eq!(a.subsec_nanosecond(), b.subsec_nanosecond());
    }
}

#[test]
fn single_colons_do_not_part_a_key() {
    let key = ctag_key("a:b", "/c::d");
    assert_eq!(split_ctag_key(&key), Some(("a:b".to_string(), "/c::d".to_string())));
}
