use calendar_core::caldav::{
    self, build_complete_todo_request, build_create_event_request, build_delete_event_request,
    build_update_event_request, calendar_query_with_range, changes_of_reply, ctag_of_reply,
    events_of_reply, events_query, judge_changes, judge_first, judge_retry, judge_unsigned,
    request_failed, sync_collection_query, todos_of_reply, token_for_retry, Operation, Verdict,
    CALENDAR_QUERY,
};
use calendar_core::discovery::{
    home_url, is_calendar_block, judge_inline, parse_calendar_list, principal_url, resolve_url, server_base,
    DiscoveryError,
};
use calendar_core::event::CalendarEvent;
use calendar_core::exchange::{Exchange, Stage};
use calendar_core::sync::SyncError;
use calendar_core::time::{Date, Zone};
use calendar_core::todo::CalendarTodo;
use calendar_core::xml::{local_name, xml_extract_inner, xml_extract_text, xml_response_blocks};

// ── PROPFIND multistatus (calendar list) ───────────────────

const PROPFIND_CALENDARS_RESPONSE: &str = r#"<?xml version="1.0" encoding="UTF-8"?>
<d:multistatus xmlns:d="DAV:" xmlns:cs="http://calendarserver.org/ns/"
               xmlns:ic="http://apple.com/ns/ical/">
  <d:response>
    <d:href>/dav/calendars/user/personal/</d:href>
    <d:propstat>
      <d:prop>
        <d:resourcetype><d:collection/><cal:calendar xmlns:cal="urn:ietf:params:xml:ns:caldav"/></d:resourcetype>
        <d:displayname>Personal</d:displayname>
        <ic:calendar-color>#FF0000FF</ic:calendar-color>
        <cs:getctag>ctag-abc-123</cs:getctag>
      </d:prop>
      <d:status>HTTP/1.1 200 OK</d:status>
    </d:propstat>
  </d:response>
  <d:response>
    <d:href>/dav/calendars/user/work/</d:href>
    <d:propstat>
      <d:prop>
        <d:resourcetype><d:collection/><cal:calendar xmlns:cal="urn:ietf:params:xml:ns:caldav"/></d:resourcetype>
        <d:displayname>Work</d:displayname>
        <ic:calendar-color>#0000FFFF</ic:calendar-color>
        <cs:getctag>ctag-def-456</cs:getctag>
      </d:prop>
      <d:status>HTTP/1.1 200 OK</d:status>
    </d:propstat>
  </d:response>
  <d:response>
    <d:href>/dav/principals/user/</d:href>
    <d:propstat>
      <d:prop>
        <d:resourcetype><d:collection/></d:resourcetype>
        <d:displayname>User Root</d:displayname>
      </d:prop>
    </d:propstat>
  </d:response>
</d:multistatus>"#;

#[test]
fn parse_propfind_calendar_list() {
    let base = "https://dav.example.com";
    let calendars = parse_calendar_list(PROPFIND_CALENDARS_RESPONSE, base);
    assert_eq!(calendars.len(), 2, "should find 2 calendars (not the root collection)");

    let personal = calendars.iter().find(|c| c.display_name == "Personal").unwrap();
    assert_eq!(personal.href, "https://dav.example.com/dav/calendars/user/personal/");
    assert_eq!(personal.color, "#FF0000FF");
    assert_eq!(personal.ctag.as_deref(), Some("ctag-abc-123"));
    assert!(!personal.enabled);

    let work = calendars.iter().find(|c| c.display_name == "Work").unwrap();
    assert_eq!(work.href, "https://dav.example.com/dav/calendars/user/work/");
    assert_eq!(work.color, "#0000FFFF");
}

// ── REPORT calendar-query response ─────────────────────────

const REPORT_RESPONSE: &str = r#"<?xml version="1.0" encoding="UTF-8"?>
<d:multistatus xmlns:d="DAV:" xmlns:c="urn:ietf:params:xml:ns:caldav">
  <d:response>
    <d:href>/cal/event1.ics</d:href>
    <d:propstat>
      <d:prop>
        <d:getetag>"etag-001"</d:getetag>
        <c:calendar-data>BEGIN:VCALENDAR
VERSION:2.0
BEGIN:VEVENT
UID:uid-001
SUMMARY:Test Event
DTSTART:20260315T100000Z
END:VEVENT
END:VCALENDAR</c:calendar-data>
      </d:prop>
    </d:propstat>
  </d:response>
  <d:response>
    <d:href>/cal/event2.ics</d:href>
    <d:propstat>
      <d:prop>
        <d:getetag>"etag-002"</d:getetag>
        <c:calendar-data>BEGIN:VCALENDAR
VERSION:2.0
BEGIN:VEVENT
UID:uid-002
SUMMARY:Another Event
DTSTART:20260316T140000Z
END:VEVENT
END:VCALENDAR</c:calendar-data>
      </d:prop>
    </d:propstat>
  </d:response>
</d:multistatus>"#;

#[test]
fn parse_report_events() {
    let blocks = xml_response_blocks(REPORT_RESPONSE);
    assert_eq!(blocks.len(), 2);

    let href1 = xml_extract_text(&blocks[0], "href");
    assert_eq!(href1.as_deref(), Some("/cal/event1.ics"));

    let etag1 = xml_extract_text(&blocks[0], "getetag");
    assert_eq!(etag1.as_deref(), Some("\"etag-001\""));

    let data1 = xml_extract_text(&blocks[0], "calendar-data");
    assert!(data1.is_some());
    assert!(data1.unwrap().contains("UID:uid-001"));
}

// ── sync-collection response ───────────────────────────────

const SYNC_RESPONSE: &str = r#"<?xml version="1.0" encoding="UTF-8"?>
<d:multistatus xmlns:d="DAV:">
  <d:response>
    <d:href>/cal/event3.ics</d:href>
    <d:propstat>
      <d:prop>
        <d:getetag>"etag-003"</d:getetag>
      </d:prop>
      <d:status>HTTP/1.1 200 OK</d:status>
    </d:propstat>
  </d:response>
  <d:response>
    <d:href>/cal/deleted.ics</d:href>
    <d:status>HTTP/1.1 404 Not Found</d:status>
  </d:response>
  <d:sync-token>http://example.com/sync/new-token</d:sync-token>
</d:multistatus>"#;

#[test]
fn parse_sync_collection() {
    let blocks = xml_response_blocks(SYNC_RESPONSE);
    assert_eq!(blocks.len(), 2);

    let href_new = xml_extract_text(&blocks[0], "href");
    assert_eq!(href_new.as_deref(), Some("/cal/event3.ics"));

    let etag = xml_extract_text(&blocks[0], "getetag");
    assert_eq!(etag.as_deref(), Some("\"etag-003\""));

    // The deleted item has 404 status
    let href_del = xml_extract_text(&blocks[1], "href");
    assert_eq!(href_del.as_deref(), Some("/cal/deleted.ics"));

    // sync-token is outside response blocks, extract from full XML
    let new_token = xml_extract_text(SYNC_RESPONSE, "sync-token");
    assert_eq!(new_token.as_deref(), Some("http://example.com/sync/new-token"));
}

#[test]
fn empty_calendar_data_no_crash() {
    let xml = r#"<?xml version="1.0"?>
<d:multistatus xmlns:d="DAV:" xmlns:c="urn:ietf:params:xml:ns:caldav">
  <d:response>
    <d:href>/cal/empty.ics</d:href>
    <d:propstat>
      <d:prop>
        <d:getetag>"e"</d:getetag>
        <c:calendar-data/>
      </d:prop>
    </d:propstat>
  </d:response>
</d:multistatus>"#;
    let blocks = xml_response_blocks(xml);
    assert_eq!(blocks.len(), 1);
    let data = xml_extract_text(&blocks[0], "calendar-data");
    assert!(data.is_none());
}

#[test]
fn missing_etag() {
    let xml = r#"<?xml version="1.0"?>
<d:multistatus xmlns:d="DAV:" xmlns:c="urn:ietf:params:xml:ns:caldav">
  <d:response>
    <d:href>/cal/noetag.ics</d:href>
    <d:propstat>
      <d:prop>
        <c:calendar-data>BEGIN:VCALENDAR
END:VCALENDAR</c:calendar-data>
      </d:prop>
    </d:propstat>
  </d:response>
</d:multistatus>"#;
    let blocks = xml_response_blocks(xml);
    assert_eq!(blocks.len(), 1);
    let etag = xml_extract_text(&blocks[0], "getetag");
    assert!(etag.is_none());
}

// ── XML helper unit tests ──────────────────────────────────

#[test]
fn local_name_strips_prefix() {
    assert_eq!(local_name(b"d:href"), b"href");
    assert_eq!(local_name(b"D:response"), b"response");
    assert_eq!(local_name(b"href"), b"href");
    assert_eq!(local_name(b"cal:calendar-data"), b"calendar-data");
}

#[test]
fn xml_extract_inner_nested() {
    let xml = r#"<d:current-user-principal><d:href>/principals/user/</d:href></d:current-user-principal>"#;
    let inner = xml_extract_inner(xml, "current-user-principal");
    assert!(inner.is_some());
    let inner = inner.unwrap();
    assert!(inner.contains("href"));
    let href = xml_extract_text(&inner, "href");
    assert_eq!(href.as_deref(), Some("/principals/user/"));
}

// ── resolve_url tests ──────────────────────────────────────

#[test]
fn resolve_url_absolute() {
    assert_eq!(
        resolve_url("https://dav.example.com", "https://other.com/cal"),
        "https://other.com/cal"
    );
}

#[test]
fn resolve_url_absolute_path() {
    assert_eq!(
        resolve_url("https://dav.example.com/dav", "/principals/user/"),
        "https://dav.example.com/principals/user/"
    );
}

#[test]
fn resolve_url_relative() {
    assert_eq!(
        resolve_url("https://dav.example.com/dav", "calendars/personal/"),
        "https://dav.example.com/dav/calendars/personal/"
    );
}

// ── ETag header verification ───────────────────────────────

fn etag_test_event() -> CalendarEvent {
    let dtstart = Date::new(2026, 5, 1).unwrap().at(10, 0, 0, 0).to_zoned(Zone::Utc).unwrap();
    CalendarEvent {
        uid: "etag-test-uid-123".into(),
        source_id: "src1".into(),
        summary: "Test Event".into(),
        description: None,
        location: None,
        dtstart,
        dtend: None,
        all_day: false,
        url: None,
        color: "#FF0000".into(),
        etag: Some("\"abc-123\"".into()),
        href: Some("/cal/etag-test-uid-123.ics".into()),
        rrule: None,
        exdates: Vec::new(),
        rdates: Vec::new(),
    }
}

#[test]
fn build_create_event_has_if_none_match() {
    let event = etag_test_event();
    let (url, headers, body) = build_create_event_request("/calendars/personal", &event);

    assert_eq!(url, "/calendars/personal/etag-test-uid-123.ics");
    assert!(body.contains("BEGIN:VCALENDAR"));
    assert!(body.contains("UID:etag-test-uid-123"));

    let if_none_match = headers.iter().find(|(k, _)| *k == "If-None-Match");
    assert!(if_none_match.is_some(), "If-None-Match header must be present");
    assert_eq!(if_none_match.unwrap().1, "*");
}

#[test]
fn build_update_event_has_if_match() {
    let event = etag_test_event();
    let (headers, body) = build_update_event_request(&event, "abc-123");

    assert!(body.contains("BEGIN:VCALENDAR"));

    let if_match = headers.iter().find(|(k, _)| *k == "If-Match");
    assert!(if_match.is_some(), "If-Match header must be present");
    assert_eq!(if_match.unwrap().1, "\"abc-123\"");
}

// Trailing slash in calendar_href is trimmed
#[test]
fn build_create_event_trims_trailing_slash() {
    let event = etag_test_event();
    let (url, _, _) = build_create_event_request("/calendars/personal/", &event);
    assert_eq!(url, "/calendars/personal/etag-test-uid-123.ics");
}

// ── More of the same ───────────────────────────────────────

#[test]
fn create_and_delete_requests() {
    let event = etag_test_event();
    let (url, headers, body) = build_create_event_request("/cal///", &event);
    assert_eq!(url, "/cal/etag-test-uid-123.ics");
    assert_eq!(headers[0], ("Content-Type", "text/calendar; charset=utf-8".to_string()));
    assert!(body.starts_with("BEGIN:VCALENDAR\r\n"));
    assert!(body.contains("\r\nUID:etag-test-uid-123\r\nDTSTAMP:"));
    assert_eq!(build_delete_event_request("x"), vec![("If-Match", "\"x\"".to_string())]);
}

#[test]
fn completing_turns_the_todo_round() {
    let todo = CalendarTodo {
        uid: "t1".to_string(),
        source_id: "s".to_string(),
        summary: "S".to_string(),
        description: None,
        due: None,
        completed: true,
        priority: None,
        color: String::new(),
        etag: None,
        href: None,
    };
    let (headers, body) = build_complete_todo_request(&todo, "e");
    assert_eq!(headers[1].1, "\"e\"");
    assert!(body.contains("STATUS:NEEDS-ACTION\r\n"));
    assert!(!body.contains("COMPLETED"));
    let open = caldav::toggled(&caldav::toggled(&todo));
    assert!(open.completed);
}

#[test]
fn queries_are_exact() {
    assert_eq!(events_query(None), CALENDAR_QUERY);
    let q = calendar_query_with_range("20260101T000000Z", "20260201T000000Z");
    assert!(q.contains("<c:time-range start=\"20260101T000000Z\" end=\"20260201T000000Z\"/>\n"));
    assert_eq!(q, events_query(Some(("20260101T000000Z", "20260201T000000Z"))));
    let s = sync_collection_query("tok-1");
    assert!(s.contains("\n  <d:sync-token>tok-1</d:sync-token>\n  <d:sync-level>1</d:sync-level>\n"));
    assert!(s.ends_with("</d:sync-collection>"));
}

#[test]
fn events_of_a_report() {
    let events = events_of_reply(REPORT_RESPONSE, "src", "#123456");
    assert_eq!(events.len(), 2);
    assert_eq!(events[0].uid, "uid-001");
    assert_eq!(events[0].etag.as_deref(), Some("etag-001"));
    assert_eq!(events[0].href.as_deref(), Some("/cal/event1.ics"));
    assert_eq!(events[1].summary, "Another Event");
    assert_eq!(events[1].etag.as_deref(), Some("etag-002"));
    assert!(todos_of_reply(REPORT_RESPONSE, "src", "#123456").is_empty());
}

#[test]
fn changes_of_a_sync() {
    let xml = r#"<d:multistatus xmlns:d="DAV:" xmlns:c="urn:ietf:params:xml:ns:caldav">
  <d:response><d:href>/cal/a.ics</d:href><d:propstat><d:prop><d:getetag>"a"</d:getetag>
  <c:calendar-data>BEGIN:VCALENDAR
BEGIN:VTODO
UID:t
SUMMARY:Do
END:VTODO
END:VCALENDAR</c:calendar-data></d:prop></d:propstat></d:response>
  <d:response><d:href>/cal/gone.ics</d:href><d:status>HTTP/1.1 404 Not Found</d:status></d:response>
  <d:sync-token>next</d:sync-token>
</d:multistatus>"#;
    let changes = changes_of_reply(xml, "s", "c");
    assert!(changes.events.is_empty());
    assert_eq!(changes.todos.len(), 1);
    assert_eq!(changes.todos[0].etag.as_deref(), Some("a"));
    assert_eq!(changes.removed_hrefs, vec!["/cal/gone.ics".to_string()]);
    assert_eq!(changes.new_sync_token.as_deref(), Some("next"));
    assert_eq!(changes_of_reply(SYNC_RESPONSE, "s", "c").removed_hrefs.len(), 1);
}

#[test]
fn special_characters_survive_the_blocks() {
    let xml = "<d:multistatus xmlns:d=\"DAV:\"><d:response><d:href>/a&amp;b</d:href>\
               <d:prop><d:x y=\"1\"/><calendar-data><![CDATA[BEGIN:VCALENDAR\nBEGIN:VEVENT\nUID:u\n\
               DTSTART:20260101\nSUMMARY:R&D <3\nEND:VEVENT\nEND:VCALENDAR]]></calendar-data></d:prop>\
               </d:response></d:multistatus>";
    let raw = caldav::xml_response_blocks(xml);
    assert_eq!(raw.len(), 1);
    assert!(raw[0].starts_with("<response><d:href>/a&amp;b</d:href><d:prop><d:x y=\"1\"/>"));
    assert!(raw[0].ends_with("</response>"));
    let events = events_of_reply(xml, "s", "c");
    assert_eq!(events.len(), 1);
    assert_eq!(events[0].summary, "R&D <3");
    assert_eq!(events[0].href.as_deref(), Some("/a&b"));
    let plain = xml_response_blocks(xml);
    assert!(plain[0].starts_with("<response><d:href>/a&b</d:href>"));
}

#[test]
fn text_is_found_behind_empty_elements() {
    assert_eq!(xml_extract_text("<a><x/><x></x><x> t &lt; </x></a>", "x").as_deref(), Some("t <"));
    assert_eq!(xml_extract_text("<a><x><![CDATA[ c ]]></x></a>", "x").as_deref(), Some("c"));
    assert_eq!(xml_extract_text("<a></b><x>t</x></a>", "x"), None);
    assert_eq!(xml_extract_text("", "x"), None);
    assert_eq!(
        xml_extract_inner("<r><x> </x><x><y z='1'>t</y><e/></x></r>", "x").as_deref(),
        Some("<y>t</y><e/>")
    );
}

#[test]
fn ctag_is_read() {
    assert_eq!(ctag_of_reply("<a><cs:getctag>c1</cs:getctag></a>").as_deref(), Some("c1"));
    assert_eq!(ctag_of_reply("<a/>"), None);
}

#[test]
fn calendars_are_described() {
    let xml = "<m><response><href>/c/home/</href><resourcetype><collection/><calendar/></resourcetype>\
               </response><response><resourcetype><collection/><calendar/></resourcetype></response></m>";
    let found = parse_calendar_list(xml, "https://h/dav");
    assert_eq!(found.len(), 1);
    assert_eq!(found[0].href, "https://h/c/home/");
    assert_eq!(found[0].display_name, "home");
    assert_eq!(found[0].color, "");
    assert_eq!(found[0].ctag, None);
    assert_eq!(found[0].sync_token, None);
}

#[test]
fn the_chain_of_addresses() {
    let base = server_base("https://h/dav//");
    assert_eq!(base, "https://h/dav");
    let principal = "<m><current-user-principal><href>/p/u/</href></current-user-principal></m>";
    assert_eq!(principal_url(&base, principal), "https://h/p/u/");
    let home = "<m><c:calendar-home-set><d:href>cal/u/</d:href></c:calendar-home-set></m>";
    assert_eq!(home_url(&base, home), "https://h/dav/cal/u/");
    assert_eq!(home_url(&base, "<m/>"), "https://h/dav/");
    assert_eq!(resolve_url("h/dav", "/x"), "h/dav/x");
    assert_eq!(resolve_url("https://h", "/x"), "https://h/x");
}

#[test]
fn inline_replies_are_judged() {
    assert!(judge_inline("u", 207, "207 Multi-Status").is_ok());
    match judge_inline("u", 401, "401 Unauthorized") {
        Err(e @ DiscoveryError::AuthExpired(_)) => {
            assert_eq!(e.message(), "Authentication expired for source form")
        }
        _ => panic!("expected AuthExpired"),
    }
    match judge_inline("u", 500, "500 Internal Server Error") {
        Err(e @ DiscoveryError::Other(_)) => {
            assert_eq!(e.message(), "PROPFIND to u returned status 500 Internal Server Error")
        }
        _ => panic!("expected Other"),
    }
    assert_eq!(DiscoveryError::Http("x".to_string()).message(), "HTTP error: x");
}

fn refusal(v: Verdict) -> String {
    match v {
        Verdict::Refuse(SyncError::Other(e)) => e,
        Verdict::Refuse(SyncError::AuthExpired(id)) => format!("expired {id}"),
        Verdict::Accept => "accept".to_string(),
        Verdict::Refresh => "refresh".to_string(),
    }
}

#[test]
fn replies_are_judged() {
    assert_eq!(refusal(judge_first(Operation::Report, "u", 207, "207")), "accept");
    assert_eq!(refusal(judge_first(Operation::Delete, "u", 204, "204")), "accept");
    assert_eq!(refusal(judge_first(Operation::Create, "u", 401, "401")), "refresh");
    assert_eq!(
        refusal(judge_first(Operation::Update, "u", 412, "412")),
        "Event was modified on the server. Please refresh and try again."
    );
    assert_eq!(refusal(judge_first(Operation::Complete, "u", 412, "412 P")), "CalDAV PUT returned 412 P");
    assert_eq!(refusal(judge_first(Operation::Propfind, "u", 404, "404 N")), "PROPFIND to u returned status 404 N");
    assert_eq!(refusal(judge_first(Operation::Report, "u", 500, "500")), "CalDAV server returned status 500");
    assert_eq!(refusal(judge_first(Operation::Create, "u", 500, "500")), "CalDAV PUT returned status 500");
    assert_eq!(refusal(judge_first(Operation::Delete, "u", 500, "500")), "CalDAV DELETE returned 500");
    assert_eq!(refusal(judge_retry(Operation::Report, "u", "s", 401, "401")), "expired s");
    assert_eq!(refusal(judge_retry(Operation::Create, "u", "s", 401, "401")), "expired s");
    assert_eq!(refusal(judge_retry(Operation::Update, "u", "s", 401, "401")), "CalDAV PUT returned 401");
    assert_eq!(
        refusal(judge_retry(Operation::Create, "u", "s", 500, "500")),
        "CalDAV PUT retry returned status 500"
    );
    assert_eq!(refusal(judge_retry(Operation::Propfind, "u", "s", 200, "200")), "accept");
}

#[test]
fn failures_are_told() {
    assert_eq!(request_failed(Operation::Report, true, "u", "x").message(), "CalDAV retry failed: x");
    assert_eq!(
        request_failed(Operation::Propfind, false, "u", "x").message(),
        "PROPFIND request to u failed: x"
    );
    assert_eq!(request_failed(Operation::Update, false, "u", "x").message(), "CalDAV PUT (update) failed: x");
    assert_eq!(request_failed(Operation::Complete, true, "u", "x").message(), "CalDAV PUT retry failed: x");
    assert_eq!(token_for_retry("s", Ok(Some("t".to_string()))).unwrap(), "t");
    assert_eq!(
        token_for_retry("s", Ok(None)).unwrap_err().message(),
        "Authentication expired for source s"
    );
}

#[test]
fn stale_tokens_are_no_error() {
    assert_eq!(judge_changes("s", 403, "403").unwrap(), false);
    assert_eq!(judge_changes("s", 409, "409").unwrap(), false);
    assert_eq!(judge_changes("s", 207, "207").unwrap(), true);
    assert_eq!(judge_changes("s", 401, "401").unwrap_err().message(), "Authentication expired for source s");
    assert_eq!(
        judge_changes("s", 500, "500 E").unwrap_err().message(),
        "sync-collection returned status 500 E"
    );
}

#[test]
fn only_creation_refreshes_what_cannot_be_signed() {
    let expired = || SyncError::AuthExpired("s".into());
    assert!(matches!(judge_unsigned(Operation::Create, expired()), Verdict::Refresh));
    for op in [Operation::Report, Operation::Propfind, Operation::Update, Operation::Delete] {
        let v = judge_unsigned(op, expired());
        assert!(matches!(v, Verdict::Refuse(SyncError::AuthExpired(id)) if id == "s"));
    }
    let v = judge_unsigned(Operation::Create, SyncError::Other("no keyring".into()));
    assert!(matches!(v, Verdict::Refuse(SyncError::Other(m)) if m == "no keyring"));
}

#[test]
fn a_request_is_tried_twice_at_most() {
    let reply = |status: u16| Ok((status, format!("{status} X")));
    let x = Exchange::start(Operation::Report, "https://h/c", "s");
    assert!(matches!(x.stage, Stage::Signing));
    let x = x.on_signed(Ok(())).on_reply(reply(401));
    assert!(matches!(x.stage, Stage::Refreshing));
    let x = x.on_refreshed(Ok(Some("t2".into())));
    assert!(matches!(&x.stage, Stage::SendingAgain(t) if t == "t2"));
    let x = x.on_second_reply(reply(401));
    assert!(matches!(&x.stage, Stage::Refused(SyncError::AuthExpired(id)) if id == "s"));
    assert_eq!(x.url, "https://h/c");
}

#[test]
fn replies_that_succeed_are_taken() {
    let reply = |status: u16| Ok((status, format!("{status} X")));
    let start = |op| Exchange::start(op, "u", "s").on_signed(Ok(()));
    assert!(matches!(start(Operation::Delete).on_reply(reply(204)).stage, Stage::Accepted));
    let x = start(Operation::Report).on_reply(reply(500));
    assert!(matches!(x.stage, Stage::Refused(SyncError::Other(m))
        if m == "CalDAV server returned status 500 X"));
    let x = start(Operation::Update).on_reply(Err("gone".into()));
    assert!(matches!(x.stage, Stage::Refused(SyncError::Other(m))
        if m == "CalDAV PUT (update) failed: gone"));
    let x = start(Operation::Update).on_reply(reply(401)).on_refreshed(Ok(None));
    assert!(matches!(x.stage, Stage::Refused(SyncError::AuthExpired(id)) if id == "s"));
    let expired = Err(SyncError::AuthExpired("s".into()));
    let x = Exchange::start(Operation::Create, "u", "s").on_signed(expired);
    let x = x.on_refreshed(Ok(Some("t".into()))).on_second_reply(reply(201));
    assert!(matches!(x.stage, Stage::Accepted));
}

#[test]
fn only_calendars_are_listed() {
    let xml = "<m><response><href>/calendars/u/</href><resourcetype><collection/></resourcetype>\
               </response></m>";
    assert_eq!(parse_calendar_list(xml, "https://h").len(), 0);
    let xml = "<m><response><href>/x/</href><d:resourcetype><d:collection/><c:calendar/>\
               </d:resourcetype><displayname>R&amp;D</displayname></response></m>";
    let found = parse_calendar_list(xml, "https://h");
    assert_eq!(found.len(), 1);
    assert_eq!(found[0].href, "https://h/x/");
    assert_eq!(found[0].display_name, "R&D");
    assert!(is_calendar_block(
        "<response><resourcetype><collection/><calendar></calendar></resourcetype></response>"
    ));
    assert!(!is_calendar_block("<response><resourcetype><calendar/></resourcetype></response>"));
    assert!(!is_calendar_block(
        "<response><resourcetype><collection/></resourcetype><calendar/></response>"
    ));
    assert!(!is_calendar_block(
        "<response><resourcetype><calendar-proxy-read/></resourcetype></response>"
    ));
}
