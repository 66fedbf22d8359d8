//! CalDAV requests and replies.

use crate::auth::joined;
use crate::component::{copy_text, document_text, ical_calendars, opt_text};
use crate::event::{event_document_at, events_view, CalendarEvent, EventModel};
use crate::ics::{all_events, are_events_of, parse_ics_events};
use crate::sync::{append_events, append_todos, SyncCollectionResult, SyncError, SyncErrorModel};
use crate::text::{
    chars_of, contains, has_text, strip_end, strip_start, text_of, without_end, without_start,
    without_trailing_slashes,
};
use crate::time::{valid_moment, Moment};
use crate::todo::{
    all_todos, are_todos_of, parse_ics_todos, todo_document, todos_view, CalendarTodo, TodoModel,
};
use crate::xml::{
    blocks_of_tokens, document_element, opt_string, read_tokens, response_blocks, strings_view,
    xml_extract_text, xml_tokens,
};
use vstd::prelude::*;

verus! {

// ── Queries ────────────────────────────────────────────────────────

/// XML body for a CalDAV REPORT calendar-query that fetches all VEVENT data.
pub const CALENDAR_QUERY: &'static str = r#"<?xml version="1.0" encoding="UTF-8"?>
<c:calendar-query xmlns:d="DAV:" xmlns:c="urn:ietf:params:xml:ns:caldav">
  <d:prop>
    <d:getetag/>
    <c:calendar-data/>
  </d:prop>
  <c:filter>
    <c:comp-filter name="VCALENDAR">
      <c:comp-filter name="VEVENT"/>
    </c:comp-filter>
  </c:filter>
</c:calendar-query>"#;

/// CalDAV REPORT calendar-query for VTODO components.
pub const VTODO_QUERY: &'static str = r#"<?xml version="1.0" encoding="UTF-8"?>
<c:calendar-query xmlns:d="DAV:" xmlns:c="urn:ietf:params:xml:ns:caldav">
  <d:prop>
    <d:getetag/>
    <c:calendar-data/>
  </d:prop>
  <c:filter>
    <c:comp-filter name="VCALENDAR">
      <c:comp-filter name="VTODO"/>
    </c:comp-filter>
  </c:filter>
</c:calendar-query>"#;

/// PROPFIND body for the ctag of a calendar.
pub const PROPFIND_CTAG: &'static str = r#"<?xml version="1.0" encoding="UTF-8"?>
<d:propfind xmlns:d="DAV:" xmlns:cs="http://calendarserver.org/ns/">
  <d:prop>
    <cs:getctag/>
  </d:prop>
</d:propfind>"#;

/// What stands before the start of the range in a query with one.
pub const RANGE_QUERY_HEAD: &'static str = r#"<?xml version="1.0" encoding="UTF-8"?>
<c:calendar-query xmlns:d="DAV:" xmlns:c="urn:ietf:params:xml:ns:caldav">
  <d:prop>
    <d:getetag/>
    <c:calendar-data/>
  </d:prop>
  <c:filter>
    <c:comp-filter name="VCALENDAR">
      <c:comp-filter name="VEVENT">
        <c:time-range start=""#;

/// What stands behind the end of the range in a query with one.
pub const RANGE_QUERY_TAIL: &'static str = r#""/>
      </c:comp-filter>
    </c:comp-filter>
  </c:filter>
</c:calendar-query>"#;

/// What stands before the sync-token in the query for changes.
pub const CHANGES_QUERY_HEAD: &'static str = r#"<?xml version="1.0" encoding="UTF-8"?>
<d:sync-collection xmlns:d="DAV:" xmlns:c="urn:ietf:params:xml:ns:caldav">
  <d:sync-token>"#;

/// What stands behind the sync-token in the query for changes.
pub const CHANGES_QUERY_TAIL: &'static str = r#"</d:sync-token>
  <d:sync-level>1</d:sync-level>
  <d:prop>
    <d:getetag/>
    <c:calendar-data/>
  </d:prop>
</d:sync-collection>"#;

/// Build a CalDAV REPORT calendar-query with a time-range filter.
pub fn calendar_query_with_range(start: &str, end: &str) -> (r: String)
    ensures
        r@ == RANGE_QUERY_HEAD@ + start@ + "\" end=\""@ + end@ + RANGE_QUERY_TAIL@,
{
    let mut r = RANGE_QUERY_HEAD.to_owned();
    r.append(start);
    r.append("\" end=\"");
    r.append(end);
    r.append(RANGE_QUERY_TAIL);
    r
}

/// The query for the events of a calendar: those in a range, or all.
pub fn events_query(range: Option<(&str, &str)>) -> (r: String)
    ensures
        r@ == (match range {
            Some((start, end)) => RANGE_QUERY_HEAD@ + start@ + "\" end=\""@ + end@
                + RANGE_QUERY_TAIL@,
            None => CALENDAR_QUERY@,
        }),
{
    match range {
        Some((start, end)) => calendar_query_with_range(start, end),
        None => CALENDAR_QUERY.to_owned(),
    }
}

/// The query for the changes since a sync-token.
pub fn sync_collection_query(sync_token: &str) -> (r: String)
    ensures
        r@ == CHANGES_QUERY_HEAD@ + sync_token@ + CHANGES_QUERY_TAIL@,
{
    let mut r = CHANGES_QUERY_HEAD.to_owned();
    r.append(sync_token);
    r.append(CHANGES_QUERY_TAIL);
    r
}

// ── Requests that change a calendar ────────────────────────────────

pub open spec fn headers_view(v: Seq<(&'static str, String)>) -> Seq<(Seq<char>, Seq<char>)> {
    v.map_values(|p: (&'static str, String)| (p.0@, p.1@))
}

/// An ETag as it stands in a header.
pub open spec fn quoted(etag: Seq<char>) -> Seq<char> {
    seq!['"'] + etag + seq!['"']
}

pub open spec fn content_type() -> (Seq<char>, Seq<char>) {
    ("Content-Type"@, "text/calendar; charset=utf-8"@)
}

/// The address of an event of a calendar.
pub open spec fn event_address(calendar_href: Seq<char>, uid: Seq<char>) -> Seq<char> {
    strip_end(calendar_href, '/') + seq!['/'] + uid + ".ics"@
}

fn quote(etag: &str) -> (r: String)
    ensures
        r@ == quoted(etag@),
{
    let mut r = String::new();
    r.push('"');
    r.append(etag);
    r.push('"');
    proof {
        assert(r@ =~= quoted(etag@));
    }
    r
}

fn match_headers(etag: &str) -> (r: Vec<(&'static str, String)>)
    ensures
        headers_view(r@) == seq![content_type(), ("If-Match"@, quoted(etag@))],
{
    let mut r: Vec<(&'static str, String)> = Vec::new();
    r.push(("Content-Type", "text/calendar; charset=utf-8".to_owned()));
    r.push(("If-Match", quote(etag)));
    proof {
        assert(headers_view(r@) =~= seq![content_type(), ("If-Match"@, quoted(etag@))]);
    }
    r
}

/// The request that creates an event: address, headers and body. `If-None-Match: *` makes
/// sure that nothing is overwritten.
pub fn build_create_event_request(calendar_href: &str, event: &CalendarEvent) -> (r: (
    String,
    Vec<(&'static str, String)>,
    String,
))
    ensures
        r.0@ == event_address(calendar_href@, event@.uid),
        headers_view(r.1@) == seq![content_type(), ("If-None-Match"@, "*"@)],
        exists|now: Moment|
            valid_moment(now) && r.2@ == #[trigger] document_text(event_document_at(event@, now)),
{
    let mut url = without_trailing_slashes(calendar_href);
    url.push('/');
    url.append(event.uid.as_str());
    url.append(".ics");
    proof {
        assert(url@ =~= event_address(calendar_href@, event@.uid));
    }
    let mut headers: Vec<(&'static str, String)> = Vec::new();
    headers.push(("Content-Type", "text/calendar; charset=utf-8".to_owned()));
    headers.push(("If-None-Match", "*".to_owned()));
    proof {
        assert(headers_view(headers@) =~= seq![content_type(), ("If-None-Match"@, "*"@)]);
    }
    (url, headers, event.to_ics())
}

/// The request that changes an event: headers and body. `If-Match` makes sure that it is
/// the known version that is changed.
pub fn build_update_event_request(event: &CalendarEvent, etag: &str) -> (r: (
    Vec<(&'static str, String)>,
    String,
))
    ensures
        headers_view(r.0@) == seq![content_type(), ("If-Match"@, quoted(etag@))],
        exists|now: Moment|
            valid_moment(now) && r.1@ == #[trigger] document_text(event_document_at(event@, now)),
{
    (match_headers(etag), event.to_ics())
}

/// The headers of the request that deletes an event.
pub fn build_delete_event_request(etag: &str) -> (r: Vec<(&'static str, String)>)
    ensures
        headers_view(r@) == seq![("If-Match"@, quoted(etag@))],
{
    let mut r: Vec<(&'static str, String)> = Vec::new();
    r.push(("If-Match", quote(etag)));
    proof {
        assert(headers_view(r@) =~= seq![("If-Match"@, quoted(etag@))]);
    }
    r
}

/// A to-do with its completion turned round.
pub open spec fn turned_round(t: TodoModel) -> TodoModel {
    TodoModel { completed: !t.completed, ..t }
}

/// The to-do with its completion turned round.
pub fn toggled(todo: &CalendarTodo) -> (r: CalendarTodo)
    ensures
        r@ == turned_round(todo@),
{
    let copy = todo.clone();
    CalendarTodo { completed: !todo.completed, ..copy }
}

/// The request that toggles a to-do's completion: headers and body.
pub fn build_complete_todo_request(todo: &CalendarTodo, etag: &str) -> (r: (
    Vec<(&'static str, String)>,
    String,
))
    ensures
        headers_view(r.0@) == seq![content_type(), ("If-Match"@, quoted(etag@))],
        exists|now: Moment|
            valid_moment(now) && r.1@ == #[trigger] document_text(
                todo_document(turned_round(todo@), now),
            ),
{
    let changed = toggled(todo);
    (match_headers(etag), changed.to_ics())
}

// ── Replies ────────────────────────────────────────────────────────

/// What a request is for.
#[derive(Clone, Copy, Debug, PartialEq, Eq, Structural)]
pub enum Operation {
    Report,
    Propfind,
    Create,
    Update,
    Delete,
    Complete,
}

/// What to do with a reply.
#[derive(Debug)]
pub enum Verdict {
    /// Take it.
    Accept,
    /// Refresh the token, and ask again once.
    Refresh,
    /// Give up.
    Refuse(SyncError),
}

pub enum VerdictModel {
    Accept,
    Refresh,
    Refuse(SyncErrorModel),
}

impl View for Verdict {
    type V = VerdictModel;

    open spec fn view(&self) -> VerdictModel {
        match self {
            Verdict::Accept => VerdictModel::Accept,
            Verdict::Refresh => VerdictModel::Refresh,
            Verdict::Refuse(e) => VerdictModel::Refuse(e@),
        }
    }
}

/// Whether a status says that a request succeeded.
pub open spec fn is_success(status: u16) -> bool {
    200 <= status <= 299
}

/// The words of a refusal.
pub open spec fn refusal(op: Operation, retry: bool, url: Seq<char>, status: Seq<char>) -> Seq<
    char,
> {
    match op {
        Operation::Report => "CalDAV server returned status "@ + status,
        Operation::Propfind => "PROPFIND to "@ + url + " returned status "@ + status,
        Operation::Create => if retry {
            "CalDAV PUT retry returned status "@ + status
        } else {
            "CalDAV PUT returned status "@ + status
        },
        Operation::Update => "CalDAV PUT returned "@ + status,
        Operation::Delete => "CalDAV DELETE returned "@ + status,
        Operation::Complete => "CalDAV PUT returned "@ + status,
    }
}

/// What to do with the first reply: refresh the token where the server asks to sign in.
pub open spec fn first_verdict(
    op: Operation,
    url: Seq<char>,
    status: u16,
    status_text: Seq<char>,
) -> VerdictModel {
    if status == 401 {
        VerdictModel::Refresh
    } else if op == Operation::Update && status == 412 {
        VerdictModel::Refuse(
            SyncErrorModel::Other(
                "Event was modified on the server. Please refresh and try again."@,
            ),
        )
    } else if is_success(status) {
        VerdictModel::Accept
    } else {
        VerdictModel::Refuse(SyncErrorModel::Other(refusal(op, false, url, status_text)))
    }
}

/// What to do with the reply to the second try. There is no third.
pub open spec fn retry_verdict(
    op: Operation,
    url: Seq<char>,
    source_id: Seq<char>,
    status: u16,
    status_text: Seq<char>,
) -> VerdictModel {
    if is_success(status) {
        VerdictModel::Accept
    } else if status == 401 && (op == Operation::Report || op == Operation::Propfind || op
        == Operation::Create) {
        VerdictModel::Refuse(SyncErrorModel::AuthExpired(source_id))
    } else {
        VerdictModel::Refuse(SyncErrorModel::Other(refusal(op, true, url, status_text)))
    }
}

fn refusal_of(op: Operation, retry: bool, url: &str, status: &str) -> (r: String)
    ensures
        r@ == refusal(op, retry, url@, status@),
{
    match op {
        Operation::Report => joined("CalDAV server returned status ", status),
        Operation::Propfind => {
            let mut r = joined("PROPFIND to ", url);
            r.append(" returned status ");
            r.append(status);
            r
        },
        Operation::Create => if retry {
            joined("CalDAV PUT retry returned status ", status)
        } else {
            joined("CalDAV PUT returned status ", status)
        },
        Operation::Update => joined("CalDAV PUT returned ", status),
        Operation::Delete => joined("CalDAV DELETE returned ", status),
        Operation::Complete => joined("CalDAV PUT returned ", status),
    }
}

/// What to do with the first reply to a request.
pub fn judge_first(op: Operation, url: &str, status: u16, status_text: &str) -> (r: Verdict)
    ensures
        r@ == first_verdict(op, url@, status, status_text@),
{
    if status == 401 {
        Verdict::Refresh
    } else if op == Operation::Update && status == 412 {
        Verdict::Refuse(
            SyncError::Other(
                "Event was modified on the server. Please refresh and try again.".to_owned(),
            ),
        )
    } else if 200 <= status && status <= 299 {
        Verdict::Accept
    } else {
        Verdict::Refuse(SyncError::Other(refusal_of(op, false, url, status_text)))
    }
}

/// What to do with a request that cannot be signed: only where an event is created is the
/// token refreshed in place of one that is missing.
pub open spec fn unsigned_verdict(op: Operation, error: SyncErrorModel) -> VerdictModel {
    if op == Operation::Create && error is AuthExpired {
        VerdictModel::Refresh
    } else {
        VerdictModel::Refuse(error)
    }
}

/// What to do with a request that cannot be signed.
pub fn judge_unsigned(op: Operation, error: SyncError) -> (r: Verdict)
    ensures
        r@ == unsigned_verdict(op, error@),
{
    match error {
        SyncError::AuthExpired(id) => if op == Operation::Create {
            Verdict::Refresh
        } else {
            Verdict::Refuse(SyncError::AuthExpired(id))
        },
        SyncError::Other(message) => Verdict::Refuse(SyncError::Other(message)),
    }
}

/// What to do with the reply to the second try of a request.
pub fn judge_retry(op: Operation, url: &str, source_id: &str, status: u16, status_text: &str) -> (r:
    Verdict)
    ensures
        r@ == retry_verdict(op, url@, source_id@, status, status_text@),
        !(r@ is Refresh),
{
    if 200 <= status && status <= 299 {
        Verdict::Accept
    } else if status == 401 && (op == Operation::Report || op == Operation::Propfind || op
        == Operation::Create) {
        Verdict::Refuse(SyncError::AuthExpired(source_id.to_owned()))
    } else {
        Verdict::Refuse(SyncError::Other(refusal_of(op, true, url, status_text)))
    }
}

pub open spec fn token_view(r: Result<String, SyncError>) -> Result<Seq<char>, SyncErrorModel> {
    match r {
        Ok(t) => Ok(t@),
        Err(e) => Err(e@),
    }
}

/// The token for the second try, after an attempt to refresh it. Where the source cannot
/// be refreshed, the user has to sign in again.
pub fn token_for_retry(source_id: &str, refreshed: Result<Option<String>, SyncError>) -> (r: Result<
    String,
    SyncError,
>)
    ensures
        token_view(r) == (match refreshed {
            Ok(Some(token)) => Ok(token@),
            Ok(None) => Err(SyncErrorModel::AuthExpired(source_id@)),
            Err(e) => Err(e@),
        }),
{
    match refreshed {
        Ok(Some(token)) => Ok(token),
        Ok(None) => Err(SyncError::AuthExpired(source_id.to_owned())),
        Err(e) => Err(e),
    }
}

/// The words for a request that did not get through.
pub open spec fn failure(op: Operation, retry: bool, url: Seq<char>, cause: Seq<char>) -> Seq<char> {
    match op {
        Operation::Report => if retry {
            "CalDAV retry failed: "@ + cause
        } else {
            "CalDAV request failed: "@ + cause
        },
        Operation::Propfind => if retry {
            "PROPFIND retry to "@ + url + " failed: "@ + cause
        } else {
            "PROPFIND request to "@ + url + " failed: "@ + cause
        },
        Operation::Delete => if retry {
            "CalDAV DELETE retry failed: "@ + cause
        } else {
            "CalDAV DELETE failed: "@ + cause
        },
        Operation::Create => if retry {
            "CalDAV PUT retry failed: "@ + cause
        } else {
            "CalDAV PUT failed: "@ + cause
        },
        Operation::Update => if retry {
            "CalDAV PUT retry failed: "@ + cause
        } else {
            "CalDAV PUT (update) failed: "@ + cause
        },
        Operation::Complete => if retry {
            "CalDAV PUT retry failed: "@ + cause
        } else {
            "CalDAV PUT (todo) failed: "@ + cause
        },
    }
}

/// The error of a request that did not get through.
pub fn request_failed(op: Operation, retry: bool, url: &str, cause: &str) -> (r: SyncError)
    ensures
        r@ == SyncErrorModel::Other(failure(op, retry, url@, cause@)),
{
    let text = match op {
        Operation::Report => if retry {
            joined("CalDAV retry failed: ", cause)
        } else {
            joined("CalDAV request failed: ", cause)
        },
        Operation::Propfind => {
            let mut r = if retry {
                joined("PROPFIND retry to ", url)
            } else {
                joined("PROPFIND request to ", url)
            };
            r.append(" failed: ");
            r.append(cause);
            r
        },
        Operation::Delete => if retry {
            joined("CalDAV DELETE retry failed: ", cause)
        } else {
            joined("CalDAV DELETE failed: ", cause)
        },
        Operation::Create => if retry {
            joined("CalDAV PUT retry failed: ", cause)
        } else {
            joined("CalDAV PUT failed: ", cause)
        },
        Operation::Update => if retry {
            joined("CalDAV PUT retry failed: ", cause)
        } else {
            joined("CalDAV PUT (update) failed: ", cause)
        },
        Operation::Complete => if retry {
            joined("CalDAV PUT retry failed: ", cause)
        } else {
            joined("CalDAV PUT (todo) failed: ", cause)
        },
    };
    SyncError::Other(text)
}

/// What a reply to the query for changes says: whether there are any to read. A token that
/// the server does not take calls for a full sync, which is no error.
pub fn judge_changes(source_id: &str, status: u16, status_text: &str) -> (r: Result<
    bool,
    SyncError,
>)
    ensures
        match r {
            Ok(readable) => if readable {
                is_success(status)
            } else {
                status == 403 || status == 409
            },
            Err(e) => !is_success(status) && status != 403 && status != 409 && e@ == (if status
                == 401 {
                SyncErrorModel::AuthExpired(source_id@)
            } else {
                SyncErrorModel::Other("sync-collection returned status "@ + status_text@)
            }),
        },
{
    if status == 403 || status == 409 {
        Ok(false)
    } else if status == 401 {
        Err(SyncError::AuthExpired(source_id.to_owned()))
    } else if 200 <= status && status <= 299 {
        Ok(true)
    } else {
        Err(SyncError::Other(joined("sync-collection returned status ", status_text)))
    }
}

// ── Response entries ───────────────────────────────────────────────

/// Split a WebDAV multistatus XML response into per-`<d:response>` blocks.
///
/// Returns the raw XML string for each response block, including tags.
pub fn xml_response_blocks(xml: &str) -> (r: Vec<String>)
    ensures
        strings_view(r@) == response_blocks(xml_tokens(xml@), true),
{
    let tokens = read_tokens(xml);
    blocks_of_tokens(&tokens, true)
}

#[verifier::ext_equal]
pub struct EntryModel {
    pub href: Option<Seq<char>>,
    pub etag: Option<Seq<char>>,
    pub calendar_data: Seq<char>,
}

/// A parsed CalDAV `<d:response>` entry with href, etag, and calendar data.
#[derive(Debug)]
pub struct ResponseEntry {
    pub href: Option<String>,
    pub etag: Option<String>,
    pub calendar_data: String,
}

impl View for ResponseEntry {
    type V = EntryModel;

    open spec fn view(&self) -> EntryModel {
        EntryModel {
            href: opt_text(self.href),
            etag: opt_text(self.etag),
            calendar_data: self.calendar_data@,
        }
    }
}

pub open spec fn entries_view(v: Seq<ResponseEntry>) -> Seq<EntryModel> {
    v.map_values(|e: ResponseEntry| e@)
}

/// An ETag without the quotes around it.
pub open spec fn unquoted(etag: Option<Seq<char>>) -> Option<Seq<char>> {
    match etag {
        Some(e) => Some(strip_end(strip_start(e, '"'), '"')),
        None => None,
    }
}

/// The entry that a response block describes; none without calendar data.
pub open spec fn entry_in(block: Seq<char>) -> Option<EntryModel> {
    match document_element(block, "calendar-data"@) {
        Some(calendar_data) => Some(
            EntryModel {
                href: document_element(block, "href"@),
                etag: unquoted(document_element(block, "getetag"@)),
                calendar_data,
            },
        ),
        None => None,
    }
}

pub open spec fn entries_in(blocks: Seq<Seq<char>>) -> Seq<EntryModel>
    decreases blocks.len(),
{
    if blocks.len() == 0 {
        Seq::empty()
    } else {
        let before = entries_in(blocks.drop_last());
        match entry_in(blocks.last()) {
            Some(e) => before.push(e),
            None => before,
        }
    }
}

fn unquote(etag: Option<String>) -> (r: Option<String>)
    ensures
        opt_text(r) == unquoted(opt_text(etag)),
{
    match etag {
        Some(e) => {
            let cs = chars_of(e.as_str());
            Some(text_of(without_end(without_start(&cs, '"'), '"')))
        },
        None => None,
    }
}

/// The entries that response blocks describe.
pub fn entries_of_blocks(blocks: &Vec<String>) -> (r: Vec<ResponseEntry>)
    ensures
        entries_view(r@) == entries_in(strings_view(blocks@)),
{
    let ghost all = strings_view(blocks@);
    let mut r: Vec<ResponseEntry> = Vec::new();
    let mut i: usize = 0;
    proof {
        assert(all.take(0) =~= Seq::<Seq<char>>::empty());
        assert(entries_view(r@) =~= Seq::<EntryModel>::empty());
    }
    while i < blocks.len()
        invariant
            i <= blocks@.len(),
            all == strings_view(blocks@),
            entries_view(r@) == entries_in(all.take(i as int)),
        decreases blocks@.len() - i,
    {
        let ghost before = entries_view(r@);
        let block = blocks[i].as_str();
        proof {
            assert(all.take(i + 1).drop_last() =~= all.take(i as int));
            assert(all.take(i + 1).last() == block@);
        }
        if let Some(calendar_data) = xml_extract_text(block, "calendar-data") {
            let e = ResponseEntry {
                href: xml_extract_text(block, "href"),
                etag: unquote(xml_extract_text(block, "getetag")),
                calendar_data,
            };
            let ghost m = e@;
            r.push(e);
            proof {
                assert(entries_view(r@) =~= before.push(m));
            }
        }
        i = i + 1;
    }
    proof {
        assert(all.take(i as int) =~= all);
    }
    r
}

/// Extract all response entries (href, etag, calendar-data) from a CalDAV
/// multistatus XML response.
pub fn extract_response_entries(xml: &str) -> (r: Vec<ResponseEntry>)
    ensures
        entries_view(r@) == entries_in(response_blocks(xml_tokens(xml@), true)),
{
    let blocks = xml_response_blocks(xml);
    entries_of_blocks(&blocks)
}

// ── Events and to-dos of a reply ───────────────────────────────────

/// Whether every event carries an ETag and an address.
pub open spec fn events_tagged(
    events: Seq<EventModel>,
    etag: Option<Seq<char>>,
    href: Option<Seq<char>>,
) -> bool {
    forall|i: int|
        0 <= i < events.len() ==> (#[trigger] events[i]).etag == etag && events[i].href == href
}

/// The events without their ETags and addresses.
pub open spec fn untagged_events(events: Seq<EventModel>) -> Seq<EventModel> {
    events.map_values(|e: EventModel| EventModel { etag: None, href: None, ..e })
}

/// Whether `out` are the events of an entry: those of its calendar data, with its ETag and
/// its address.
pub open spec fn are_events_in(
    entry: EntryModel,
    source_id: Seq<char>,
    color: Seq<char>,
    out: Seq<EventModel>,
) -> bool {
    &&& events_tagged(out, entry.etag, entry.href)
    &&& are_events_of(
        all_events(ical_calendars(entry.calendar_data)),
        source_id,
        color,
        untagged_events(out),
    )
}

/// Whether `out` are the events of the entries, one after the other.
pub open spec fn are_events_in_all(
    entries: Seq<EntryModel>,
    source_id: Seq<char>,
    color: Seq<char>,
    out: Seq<EventModel>,
) -> bool
    decreases entries.len(),
{
    if entries.len() == 0 {
        out.len() == 0
    } else {
        exists|k: int|
            #![trigger out.take(k)]
            0 <= k <= out.len() && are_events_in_all(
                entries.drop_last(),
                source_id,
                color,
                out.take(k),
            ) && are_events_in(entries.last(), source_id, color, out.skip(k))
    }
}

pub open spec fn todos_tagged(
    todos: Seq<TodoModel>,
    etag: Option<Seq<char>>,
    href: Option<Seq<char>>,
) -> bool {
    forall|i: int|
        0 <= i < todos.len() ==> (#[trigger] todos[i]).etag == etag && todos[i].href == href
}

pub open spec fn untagged_todos(todos: Seq<TodoModel>) -> Seq<TodoModel> {
    todos.map_values(|t: TodoModel| TodoModel { etag: None, href: None, ..t })
}

/// Whether `out` are the to-dos of an entry.
pub open spec fn are_todos_in(
    entry: EntryModel,
    source_id: Seq<char>,
    color: Seq<char>,
    out: Seq<TodoModel>,
) -> bool {
    &&& todos_tagged(out, entry.etag, entry.href)
    &&& are_todos_of(
        all_todos(ical_calendars(entry.calendar_data)),
        source_id,
        color,
        untagged_todos(out),
    )
}

/// Whether `out` are the to-dos of the entries, one after the other.
pub open spec fn are_todos_in_all(
    entries: Seq<EntryModel>,
    source_id: Seq<char>,
    color: Seq<char>,
    out: Seq<TodoModel>,
) -> bool
    decreases entries.len(),
{
    if entries.len() == 0 {
        out.len() == 0
    } else {
        exists|k: int|
            #![trigger out.take(k)]
            0 <= k <= out.len() && are_todos_in_all(
                entries.drop_last(),
                source_id,
                color,
                out.take(k),
            ) && are_todos_in(entries.last(), source_id, color, out.skip(k))
    }
}

proof fn lemma_events_untagged(
    components: Seq<Seq<crate::component::PropertyModel>>,
    source_id: Seq<char>,
    color: Seq<char>,
    out: Seq<EventModel>,
)
    requires
        are_events_of(components, source_id, color, out),
    ensures
        events_tagged(out, None, None),
        untagged_events(out) == out,
    decreases components.len(),
{
    if components.len() > 0 {
        let earlier = components.drop_last();
        if crate::ics::is_event_of(components.last(), source_id, color, None) && are_events_of(
            earlier,
            source_id,
            color,
            out,
        ) {
            lemma_events_untagged(earlier, source_id, color, out);
        } else {
            lemma_events_untagged(earlier, source_id, color, out.drop_last());
            assert forall|i: int| 0 <= i < out.len() implies (#[trigger] out[i]).etag
                == None::<Seq<char>> && out[i].href == None::<Seq<char>> by {
                if i < out.len() - 1 {
                    assert(out[i] == out.drop_last()[i]);
                }
            }
        }
    }
    assert(untagged_events(out) =~= out);
}

proof fn lemma_todos_untagged(
    components: Seq<Seq<crate::component::PropertyModel>>,
    source_id: Seq<char>,
    color: Seq<char>,
    out: Seq<TodoModel>,
)
    requires
        are_todos_of(components, source_id, color, out),
    ensures
        todos_tagged(out, None, None),
        untagged_todos(out) == out,
    decreases components.len(),
{
    if components.len() > 0 {
        let earlier = components.drop_last();
        if crate::todo::is_todo_of(components.last(), source_id, color, None) && are_todos_of(
            earlier,
            source_id,
            color,
            out,
        ) {
            lemma_todos_untagged(earlier, source_id, color, out);
        } else {
            lemma_todos_untagged(earlier, source_id, color, out.drop_last());
            assert forall|i: int| 0 <= i < out.len() implies (#[trigger] out[i]).etag
                == None::<Seq<char>> && out[i].href == None::<Seq<char>> by {
                if i < out.len() - 1 {
                    assert(out[i] == out.drop_last()[i]);
                }
            }
        }
    }
    assert(untagged_todos(out) =~= out);
}

/// The events with an ETag and an address.
fn tag_events(events: Vec<CalendarEvent>, entry: &ResponseEntry) -> (r: Vec<CalendarEvent>)
    requires
        events_tagged(events_view(events@), None, None),
    ensures
        events_tagged(events_view(r@), entry@.etag, entry@.href),
        untagged_events(events_view(r@)) == events_view(events@),
{
    let ghost all = events_view(events@);
    let mut events = events;
    let mut r: Vec<CalendarEvent> = Vec::new();
    let ghost mut done: int = 0;
    proof {
        assert(all.skip(0) =~= all);
        assert(untagged_events(events_view(r@)) =~= all.take(0));
    }
    while events.len() > 0
        invariant
            0 <= done <= all.len(),
            events_view(events@) == all.skip(done),
            events_tagged(all, None, None),
            events_tagged(events_view(r@), entry@.etag, entry@.href),
            untagged_events(events_view(r@)) == all.take(done),
        decreases events@.len(),
    {
        let ghost rest = events@;
        let ghost before = events_view(r@);
        let e = events.remove(0);
        let ghost m = e@;
        proof {
            assert(events_view(rest).len() == rest.len());
            assert(events_view(rest)[0] == m);
            assert(all[done] == m);
            assert(events@ =~= rest.skip(1));
            assert(events_view(events@) =~= events_view(rest).skip(1));
            assert(all.skip(done).skip(1) =~= all.skip(done + 1));
        }
        let tagged = CalendarEvent {
            etag: copy_text(&entry.etag),
            href: copy_text(&entry.href),
            ..e
        };
        let ghost t = tagged@;
        r.push(tagged);
        proof {
            assert(events_view(r@) =~= before.push(t));
            assert(t == EventModel { etag: entry@.etag, href: entry@.href, ..m });
            assert(untagged_events(before.push(t)) =~= untagged_events(before).push(
                EventModel { etag: None, href: None, ..t },
            ));
            assert(EventModel { etag: None::<Seq<char>>, href: None::<Seq<char>>, ..t } == m);
            assert(all.take(done + 1) =~= all.take(done).push(m));
            done = done + 1;
        }
    }
    proof {
        assert(events_view(events@).len() == 0);
        assert(all.take(done) =~= all);
    }
    r
}

fn tag_todos(todos: Vec<CalendarTodo>, entry: &ResponseEntry) -> (r: Vec<CalendarTodo>)
    requires
        todos_tagged(todos_view(todos@), None, None),
    ensures
        todos_tagged(todos_view(r@), entry@.etag, entry@.href),
        untagged_todos(todos_view(r@)) == todos_view(todos@),
{
    let ghost all = todos_view(todos@);
    let mut todos = todos;
    let mut r: Vec<CalendarTodo> = Vec::new();
    let ghost mut done: int = 0;
    proof {
        assert(all.skip(0) =~= all);
        assert(untagged_todos(todos_view(r@)) =~= all.take(0));
    }
    while todos.len() > 0
        invariant
            0 <= done <= all.len(),
            todos_view(todos@) == all.skip(done),
            todos_tagged(all, None, None),
            todos_tagged(todos_view(r@), entry@.etag, entry@.href),
            untagged_todos(todos_view(r@)) == all.take(done),
        decreases todos@.len(),
    {
        let ghost rest = todos@;
        let ghost before = todos_view(r@);
        let e = todos.remove(0);
        let ghost m = e@;
        proof {
            assert(todos_view(rest).len() == rest.len());
            assert(todos_view(rest)[0] == m);
            assert(all[done] == m);
            assert(todos@ =~= rest.skip(1));
            assert(todos_view(todos@) =~= todos_view(rest).skip(1));
            assert(all.skip(done).skip(1) =~= all.skip(done + 1));
        }
        let tagged = CalendarTodo {
            etag: copy_text(&entry.etag),
            href: copy_text(&entry.href),
            ..e
        };
        let ghost t = tagged@;
        r.push(tagged);
        proof {
            assert(todos_view(r@) =~= before.push(t));
            assert(t == TodoModel { etag: entry@.etag, href: entry@.href, ..m });
            assert(untagged_todos(before.push(t)) =~= untagged_todos(before).push(
                TodoModel { etag: None, href: None, ..t },
            ));
            assert(TodoModel { etag: None::<Seq<char>>, href: None::<Seq<char>>, ..t } == m);
            assert(all.take(done + 1) =~= all.take(done).push(m));
            done = done + 1;
        }
    }
    proof {
        assert(todos_view(todos@).len() == 0);
        assert(all.take(done) =~= all);
    }
    r
}

/// The events of response entries.
pub fn events_of_entries(entries: &Vec<ResponseEntry>, source_id: &str, color: &str) -> (r: Vec<
    CalendarEvent,
>)
    ensures
        are_events_in_all(entries_view(entries@), source_id@, color@, events_view(r@)),
{
    let ghost all = entries_view(entries@);
    let mut r: Vec<CalendarEvent> = Vec::new();
    let mut i: usize = 0;
    proof {
        assert(all.take(0) =~= Seq::<EntryModel>::empty());
    }
    while i < entries.len()
        invariant
            i <= entries@.len(),
            all == entries_view(entries@),
            are_events_in_all(all.take(i as int), source_id@, color@, events_view(r@)),
        decreases entries@.len() - i,
    {
        let ghost before = events_view(r@);
        let entry = &entries[i];
        let parsed = parse_ics_events(entry.calendar_data.as_str(), source_id, color);
        proof {
            lemma_events_untagged(
                all_events(ical_calendars(entry@.calendar_data)),
                source_id@,
                color@,
                events_view(parsed@),
            );
        }
        let tagged = tag_events(parsed, entry);
        let ghost added = events_view(tagged@);
        append_events(&mut r, tagged);
        proof {
            let now = events_view(r@);
            assert(now == before + added);
            assert(all.take(i + 1).drop_last() =~= all.take(i as int));
            assert(all.take(i + 1).last() == entry@);
            assert(now.take(before.len() as int) =~= before);
            assert(now.skip(before.len() as int) =~= added);
        }
        i = i + 1;
    }
    proof {
        assert(all.take(i as int) =~= all);
    }
    r
}

/// The to-dos of response entries.
pub fn todos_of_entries(entries: &Vec<ResponseEntry>, source_id: &str, color: &str) -> (r: Vec<
    CalendarTodo,
>)
    ensures
        are_todos_in_all(entries_view(entries@), source_id@, color@, todos_view(r@)),
{
    let ghost all = entries_view(entries@);
    let mut r: Vec<CalendarTodo> = Vec::new();
    let mut i: usize = 0;
    proof {
        assert(all.take(0) =~= Seq::<EntryModel>::empty());
    }
    while i < entries.len()
        invariant
            i <= entries@.len(),
            all == entries_view(entries@),
            are_todos_in_all(all.take(i as int), source_id@, color@, todos_view(r@)),
        decreases entries@.len() - i,
    {
        let ghost before = todos_view(r@);
        let entry = &entries[i];
        let parsed = parse_ics_todos(entry.calendar_data.as_str(), source_id, color);
        proof {
            lemma_todos_untagged(
                all_todos(ical_calendars(entry@.calendar_data)),
                source_id@,
                color@,
                todos_view(parsed@),
            );
        }
        let tagged = tag_todos(parsed, entry);
        let ghost added = todos_view(tagged@);
        append_todos(&mut r, tagged);
        proof {
            let now = todos_view(r@);
            assert(now == before + added);
            assert(all.take(i + 1).drop_last() =~= all.take(i as int));
            assert(all.take(i + 1).last() == entry@);
            assert(now.take(before.len() as int) =~= before);
            assert(now.skip(before.len() as int) =~= added);
        }
        i = i + 1;
    }
    proof {
        assert(all.take(i as int) =~= all);
    }
    r
}

/// The events of a reply to a query for events.
pub fn events_of_reply(body: &str, source_id: &str, color: &str) -> (r: Vec<CalendarEvent>)
    ensures
        are_events_in_all(
            entries_in(response_blocks(xml_tokens(body@), true)),
            source_id@,
            color@,
            events_view(r@),
        ),
{
    let entries = extract_response_entries(body);
    events_of_entries(&entries, source_id, color)
}

/// The to-dos of a reply to a query for to-dos.
pub fn todos_of_reply(body: &str, source_id: &str, color: &str) -> (r: Vec<CalendarTodo>)
    ensures
        are_todos_in_all(
            entries_in(response_blocks(xml_tokens(body@), true)),
            source_id@,
            color@,
            todos_view(r@),
        ),
{
    let entries = extract_response_entries(body);
    todos_of_entries(&entries, source_id, color)
}

/// The ctag in a reply to a query for one.
pub fn ctag_of_reply(body: &str) -> (r: Option<String>)
    ensures
        opt_string(r) == document_element(body@, "getctag"@),
{
    xml_extract_text(body, "getctag")
}

// ── Changes ────────────────────────────────────────────────────────

/// Whether a response block says that its resource is gone.
pub open spec fn is_deleted(block: Seq<char>) -> bool {
    match document_element(block, "status"@) {
        Some(status) => has_text(status, "404"@),
        None => false,
    }
}

/// The blocks of resources that are there.
pub open spec fn live_blocks(blocks: Seq<Seq<char>>) -> Seq<Seq<char>> {
    blocks.filter(|b: Seq<char>| !is_deleted(b))
}

/// The addresses of resources that are gone.
pub open spec fn removed_in(blocks: Seq<Seq<char>>) -> Seq<Seq<char>>
    decreases blocks.len(),
{
    if blocks.len() == 0 {
        Seq::empty()
    } else {
        let before = removed_in(blocks.drop_last());
        match document_element(blocks.last(), "href"@) {
            Some(href) => if is_deleted(blocks.last()) {
                before.push(href)
            } else {
                before
            },
            None => before,
        }
    }
}

fn deleted(block: &str) -> (r: bool)
    ensures
        r == is_deleted(block@),
{
    match xml_extract_text(block, "status") {
        Some(status) => contains(status.as_str(), "404"),
        None => false,
    }
}

/// The blocks of resources that are there, and the addresses of those that are gone.
pub fn part_blocks(blocks: &Vec<String>) -> (r: (Vec<String>, Vec<String>))
    ensures
        strings_view(r.0@) == live_blocks(strings_view(blocks@)),
        strings_view(r.1@) == removed_in(strings_view(blocks@)),
{
    let ghost all = strings_view(blocks@);
    let ghost keep = |b: Seq<char>| !is_deleted(b);
    let mut live: Vec<String> = Vec::new();
    let mut removed: Vec<String> = Vec::new();
    let mut i: usize = 0;
    proof {
        reveal(Seq::filter);
        assert(all.take(0) =~= Seq::<Seq<char>>::empty());
        assert(strings_view(live@) =~= all.take(0).filter(keep));
        assert(strings_view(removed@) =~= Seq::<Seq<char>>::empty());
    }
    while i < blocks.len()
        invariant
            i <= blocks@.len(),
            all == strings_view(blocks@),
            keep == |b: Seq<char>| !is_deleted(b),
            strings_view(live@) == all.take(i as int).filter(keep),
            strings_view(removed@) == removed_in(all.take(i as int)),
        decreases blocks@.len() - i,
    {
        let ghost l = strings_view(live@);
        let ghost m = strings_view(removed@);
        let block = &blocks[i];
        proof {
            reveal(Seq::filter);
            assert(all.take(i + 1).drop_last() =~= all.take(i as int));
            assert(all.take(i + 1).last() == block@);
        }
        if deleted(block.as_str()) {
            if let Some(href) = xml_extract_text(block.as_str(), "href") {
                let ghost h = href@;
                removed.push(href);
                proof {
                    assert(strings_view(removed@) =~= m.push(h));
                }
            }
        } else {
            live.push(block.clone());
            proof {
                assert(strings_view(live@) =~= l.push(block@));
            }
        }
        i = i + 1;
    }
    proof {
        assert(all.take(i as int) =~= all);
    }
    (live, removed)
}

/// What a reply to the query for changes says.
pub fn changes_of_reply(body: &str, source_id: &str, color: &str) -> (r: SyncCollectionResult)
    ensures
        ({
            let blocks = response_blocks(xml_tokens(body@), true);
            let entries = entries_in(live_blocks(blocks));
            &&& are_events_in_all(entries, source_id@, color@, events_view(r.events@))
            &&& are_todos_in_all(entries, source_id@, color@, todos_view(r.todos@))
            &&& strings_view(r.removed_hrefs@) == removed_in(blocks)
            &&& opt_text(r.new_sync_token) == document_element(body@, "sync-token"@)
        }),
{
    let blocks = xml_response_blocks(body);
    let (live, removed_hrefs) = part_blocks(&blocks);
    let entries = entries_of_blocks(&live);
    SyncCollectionResult {
        events: events_of_entries(&entries, source_id, color),
        todos: todos_of_entries(&entries, source_id, color),
        removed_hrefs,
        new_sync_token: xml_extract_text(body, "sync-token"),
    }
}

} // verus!
