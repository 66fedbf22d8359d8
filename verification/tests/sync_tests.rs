use calendar_core::config::{
    AuthMethod, CalDavCalendar, CalendarConfig, SourceConfig, SourceType,
};
use calendar_core::event::CalendarEvent;
use calendar_core::sync::{
    calendar_color, feed_outcome, judge_feed, sync_dates, CalendarMetaUpdate, Phase, SourceOutcome, SourceSync,
    SyncCollectionResult, SyncError,
};
use calendar_core::sync_all::{merge_calendars, merge_into_source, update_source, SyncRun};
use calendar_core::time::{Date, Zone};

fn calendar(href: &str, enabled: bool, ctag: Option<&str>, token: Option<&str>) -> CalDavCalendar {
    CalDavCalendar {
        href: href.into(),
        display_name: href.into(),
        color: "#111111".into(),
        enabled,
        ctag: ctag.map(|s| s.into()),
        sync_token: token.map(|s| s.into()),
    }
}

fn event(uid: &str, day: i8) -> CalendarEvent {
    CalendarEvent {
        uid: uid.into(),
        source_id: "s".into(),
        summary: uid.into(),
        description: None,
        location: None,
        dtstart: Date::new(2026, 6, day).unwrap().at(10, 0, 0, 0).to_zoned(Zone::Utc).unwrap(),
        dtend: None,
        all_day: false,
        url: None,
        color: String::new(),
        etag: None,
        href: None,
        rrule: None,
        exdates: Vec::new(),
        rdates: Vec::new(),
    }
}

fn other(message: &str) -> SyncError {
    SyncError::Other(message.into())
}

#[test]
fn changes_are_taken_without_a_fetch() {
    let sync = SourceSync::start(&vec![calendar("a", true, None, Some("t0"))], false);
    assert_eq!(sync.phase(), Phase::Collection);
    assert_eq!(sync.calendar().sync_token.as_deref(), Some("t0"));
    let sync = sync.on_changes(Ok(Some(SyncCollectionResult {
        events: vec![event("e", 1)],
        todos: Vec::new(),
        removed_hrefs: Vec::new(),
        new_sync_token: Some("t1".into()),
    })));
    assert_eq!(sync.phase(), Phase::Finished);
    let o = sync.outcome().unwrap();
    assert_eq!(o.events.len(), 1);
    assert_eq!(o.updates[0].href, "a");
    assert_eq!(o.updates[0].sync_token.as_deref(), Some("t1"));
    assert_eq!(o.updates[0].ctag, None);
}

#[test]
fn stale_tokens_and_other_errors_fall_back() {
    for answer in [Ok(None), Err(other("x"))] {
        let sync = SourceSync::start(&vec![calendar("a", true, Some("c"), Some("t"))], false);
        let sync = sync.on_changes(answer);
        assert_eq!(sync.phase(), Phase::Ctag);
        // The known ctag: nothing is fetched.
        let sync = sync.on_ctag(Ok(Some("c".into())));
        assert_eq!(sync.phase(), Phase::Finished);
        assert!(sync.outcome().unwrap().updates.is_empty());
    }
}

#[test]
fn a_new_ctag_leads_to_a_fetch() {
    let cals = vec![calendar("off", false, None, None), calendar("b", true, Some("old"), None)];
    let sync = SourceSync::start(&cals, false);
    assert_eq!(sync.phase(), Phase::Ctag);
    assert_eq!(sync.calendar().href, "b");
    let sync = sync.on_ctag(Ok(Some("new".into())));
    assert_eq!(sync.phase(), Phase::Events);
    let sync = sync.on_events(Ok(vec![event("e", 1)]));
    assert_eq!(sync.phase(), Phase::Todos);
    let sync = sync.on_todos(Err(SyncError::AuthExpired("s".into())));
    assert_eq!(sync.phase(), Phase::Finished);
    let o = sync.outcome().unwrap();
    assert_eq!(o.events.len(), 1);
    assert_eq!(o.updates[0].ctag.as_deref(), Some("new"));
}

#[test]
fn a_full_sync_asks_for_events_at_once() {
    let sync = SourceSync::start(&vec![calendar("a", true, Some("c"), Some("t"))], true);
    assert_eq!(sync.phase(), Phase::Events);
    let sync = sync.on_events(Err(other("down")));
    assert_eq!(sync.phase(), Phase::Todos);
    let sync = sync.on_todos(Ok(Vec::new()));
    let o = sync.outcome().unwrap();
    assert!(o.events.is_empty() && o.updates.is_empty());
}

#[test]
fn expired_sign_in_fails_the_source() {
    let cals = vec![calendar("a", true, None, Some("t")), calendar("b", true, None, None)];
    let sync = SourceSync::start(&cals, false).on_changes(Err(SyncError::AuthExpired("s".into())));
    assert_eq!(sync.phase(), Phase::Failed);
    assert_eq!(sync.outcome().unwrap_err().message(), "Authentication expired for source s");
    let sync = SourceSync::start(&cals, true).on_events(Err(SyncError::AuthExpired("s".into())));
    assert_eq!(sync.phase(), Phase::Failed);
    // A ctag that cannot be had is no error.
    let sync = SourceSync::start(&vec![calendar("b", true, None, None)], false);
    assert_eq!(sync.on_ctag(Err(SyncError::AuthExpired("s".into()))).phase(), Phase::Events);
}

#[test]
fn no_enabled_calendar_is_no_work() {
    let sync = SourceSync::start(&vec![calendar("a", false, None, None)], false);
    assert_eq!(sync.phase(), Phase::Finished);
    assert!(sync.outcome().is_ok());
}

#[test]
fn feeds_bring_events_or_words() {
    assert_eq!(feed_outcome(Ok(vec![event("e", 1)])).unwrap().events.len(), 1);
    assert_eq!(feed_outcome(Err("bad".into())).unwrap_err().message(), "bad");
    assert!(judge_feed(200, "200 OK").is_ok());
    assert_eq!(judge_feed(404, "404 Not Found"), Err("ICS URL returned status 404 Not Found".to_string()));
    let e: SyncError = SyncError::from("text".to_string());
    assert_eq!(e.clone().message(), "text");
}

fn caldav(id: &str, enabled: bool) -> SourceConfig {
    SourceConfig {
        id: id.into(),
        name: id.into(),
        enabled,
        color: String::new(),
        source_type: SourceType::CalDav {
            url: "https://h".into(),
            auth: AuthMethod::Anonymous,
            calendars: vec![calendar("a", true, Some("old"), None)],
        },
        ca_cert_path: None,
    }
}

fn calendars(source: &SourceConfig) -> &Vec<CalDavCalendar> {
    match &source.source_type {
        SourceType::CalDav { calendars, .. } => calendars,
        _ => panic!("expected CalDav source type"),
    }
}

#[test]
fn a_run_goes_over_the_enabled_sources() {
    let config = CalendarConfig {
        sources: vec![caldav("off", false), caldav("one", true), caldav("two", true), caldav("three", true)],
        ..CalendarConfig::default()
    };
    let run = SyncRun::start(&config);
    assert_eq!(run.source().unwrap().id, "one");
    let mut recurring = event("r", 2);
    recurring.rrule = Some("FREQ=DAILY;COUNT=2".into());
    let run = run.on_source(Ok(SourceOutcome {
        events: vec![recurring, event("e", 1)],
        todos: Vec::new(),
        updates: vec![CalendarMetaUpdate {
            href: "a".into(),
            ctag: Some("new".into()),
            sync_token: None,
        }],
    }));
    assert_eq!(run.source().unwrap().id, "two");
    let run = run.on_source(Err(SyncError::AuthExpired("two".into())));
    let run = run.on_source(Err(other("down")));
    assert!(run.source().is_none());
    let (result, sources) =
        run.finish(Date::new(2026, 6, 1).unwrap(), Date::new(2026, 6, 30).unwrap());
    let uids: Vec<&str> = result.events.iter().map(|e| e.uid.as_str()).collect();
    assert_eq!(uids, vec!["e", "r", "r_2026-06-03"]);
    assert_eq!(result.auth_expired, vec!["two".to_string()]);
    assert_eq!(calendars(&sources[1])[0].ctag.as_deref(), Some("new"));
    assert_eq!(sources[2], config.sources[2]);
}

#[test]
fn updates_leave_what_they_do_not_say() {
    let updated = update_source(
        caldav("s", true),
        vec![
            CalendarMetaUpdate { href: "a".into(), ctag: None, sync_token: Some("t".into()) },
            CalendarMetaUpdate { href: "none".into(), ctag: Some("x".into()), sync_token: None },
        ],
    );
    assert_eq!(calendars(&updated)[0].ctag.as_deref(), Some("old"));
    assert_eq!(calendars(&updated)[0].sync_token.as_deref(), Some("t"));
}

#[test]
fn found_calendars_are_merged_once() {
    let known = vec![calendar("a", true, Some("c"), None)];
    let found = vec![
        calendar("a", false, None, None),
        calendar("b", false, None, None),
        calendar("b", false, Some("x"), None),
    ];
    let merged = merge_calendars(known, found);
    assert_eq!(merged.len(), 2);
    assert!(merged[0].enabled);
    assert_eq!(merged[1].href, "b");
    assert_eq!(merged[1].ctag, None);
    let source = merge_into_source(caldav("s", true), vec![calendar("z", false, None, None)]);
    assert_eq!(calendars(&source).len(), 2);
    let mut file = caldav("f", true);
    file.source_type = SourceType::IcsFile { path: "/x".into() };
    let same = merge_into_source(file.clone(), vec![calendar("z", false, None, None)]);
    assert_eq!(same, file);
}

#[test]
fn dates_of_a_sync() {
    let (a, b) = sync_dates(Date::new(2026, 1, 15).unwrap(), 30, 90);
    assert_eq!(a, Date::new(2025, 12, 16).unwrap());
    assert_eq!(b, Date::new(2026, 4, 15).unwrap());
}

#[test]
fn calendars_without_a_color_have_that_of_their_source() {
    let mut c = calendar("a", true, None, None);
    assert_eq!(calendar_color(&c, "#222222"), "#111111");
    c.color = String::new();
    assert_eq!(calendar_color(&c, "#222222"), "#222222");
}

#[test]
fn a_failing_source_takes_nothing_from_the_others() {
    let file = |id: &str, enabled: bool| SourceConfig {
        id: id.into(),
        name: id.into(),
        enabled,
        color: String::new(),
        source_type: SourceType::IcsFile { path: "/x".into() },
        ca_cert_path: None,
    };
    let config = CalendarConfig {
        sources: vec![file("a", true), file("b", false), file("c", true), file("d", true)],
        ..CalendarConfig::default()
    };
    let mut run = SyncRun::start(&config);
    let mut asked = Vec::new();
    while let Some(source) = run.source() {
        let id = source.id.clone();
        asked.push(id.clone());
        run = run.on_source(match id.as_str() {
            "a" => feed_outcome(Ok(vec![event("e1", 2)])),
            "c" => Err(other("down")),
            _ => Err(SyncError::AuthExpired(id)),
        });
    }
    let (result, sources) = run.finish(date_of(1), date_of(30));
    assert_eq!(asked, vec!["a", "c", "d"]);
    assert_eq!(result.events.len(), 1);
    assert_eq!(result.auth_expired, vec!["d"]);
    assert_eq!(sources.len(), 4);
}

fn date_of(day: i8) -> Date {
    Date::new(2026, 6, day).unwrap()
}
