//! Synchronisation: what to ask of the servers, and what to make of the answers.

use crate::component::{copy_text, opt_text};
use crate::config::{collections_view, CalDavCalendar, CollectionModel};
use crate::event::{events_view, CalendarEvent, EventModel};
use crate::text::{decimal_padded, push_padded, same_text};
use crate::time::{step_target, CivilDate, Date, MAX_STEP_DAYS, Step};
use crate::todo::{todos_view, CalendarTodo, TodoModel};
use vstd::prelude::*;

verus! {

// ── Errors ─────────────────────────────────────────────────────────

pub enum SyncErrorModel {
    AuthExpired(Seq<char>),
    Other(Seq<char>),
}

/// Structured error type for calendar sync operations.
#[derive(Debug)]
pub enum SyncError {
    /// Authentication has expired for the given source ID – user must re-authenticate.
    AuthExpired(String),
    /// Any other error.
    Other(String),
}

impl View for SyncError {
    type V = SyncErrorModel;

    open spec fn view(&self) -> SyncErrorModel {
        match self {
            SyncError::AuthExpired(id) => SyncErrorModel::AuthExpired(id@),
            SyncError::Other(message) => SyncErrorModel::Other(message@),
        }
    }
}

impl Clone for SyncError {
    fn clone(&self) -> (r: SyncError)
        ensures
            r@ == self@,
    {
        match self {
            SyncError::AuthExpired(id) => SyncError::AuthExpired(id.clone()),
            SyncError::Other(message) => SyncError::Other(message.clone()),
        }
    }
}

impl SyncError {
    /// The message that the error is shown as.
    pub fn message(&self) -> (r: String)
        ensures
            r@ == (match self@ {
                SyncErrorModel::AuthExpired(id) => "Authentication expired for source "@ + id,
                SyncErrorModel::Other(message) => message,
            }),
    {
        match self {
            SyncError::AuthExpired(id) => {
                let mut r = "Authentication expired for source ".to_owned();
                r.append(id.as_str());
                r
            },
            SyncError::Other(message) => message.clone(),
        }
    }
}

impl From<String> for SyncError {
    fn from(s: String) -> (r: SyncError) {
        SyncError::Other(s)
    }
}

impl vstd::std_specs::convert::FromSpecImpl<String> for SyncError {
    open spec fn obeys_from_spec() -> bool {
        true
    }

    open spec fn from_spec(s: String) -> SyncError {
        SyncError::Other(s)
    }
}

// ── The range of dates ─────────────────────────────────────────────

/// The date some days before or after another; that date itself where the other is out
/// of range.
pub open spec fn days_away(d: CivilDate, n: int) -> CivilDate {
    match step_target(d, Step::Days(n as i32)) {
        Some(there) => there,
        None => d,
    }
}

/// The start of a day as a time of universal time.
pub open spec fn day_stamp(d: CivilDate) -> Seq<char> {
    decimal_padded(d.year, 4) + decimal_padded(d.month, 2) + decimal_padded(d.day, 2)
        + "T000000Z"@
}

/// The first and the last date to look at.
pub fn sync_dates(today: Date, past_days: u32, future_days: u32) -> (r: (Date, Date))
    requires
        past_days <= MAX_STEP_DAYS,
        future_days <= MAX_STEP_DAYS,
    ensures
        r.0@ == days_away(today@, -past_days),
        r.1@ == days_away(today@, future_days as int),
{
    let start = match today.plus(Step::Days(-(past_days as i32))) {
        Some(d) => d,
        None => today,
    };
    let end = match today.plus(Step::Days(future_days as i32)) {
        Some(d) => d,
        None => today,
    };
    (start, end)
}

fn stamp_of_day(d: Date) -> (r: String)
    ensures
        r@ == day_stamp(d@),
{
    let mut r = String::new();
    push_padded(&mut r, d.year() as i64, 4);
    push_padded(&mut r, d.month() as i64, 2);
    push_padded(&mut r, d.day() as i64, 2);
    r.append("T000000Z");
    proof {
        assert(r@ =~= day_stamp(d@));
    }
    r
}

/// Compute the CalDAV time-range filter strings from today's date and the
/// configured past/future day counts.
///
/// Returns `(start_str, end_str)` in the format `YYYYMMDDTHHMMSSZ`.
pub fn compute_sync_range(today: Date, past_days: u32, future_days: u32) -> (r: (String, String))
    requires
        past_days <= MAX_STEP_DAYS,
        future_days <= MAX_STEP_DAYS,
    ensures
        r.0@ == day_stamp(days_away(today@, -past_days)),
        r.1@ == day_stamp(days_away(today@, future_days as int)),
{
    let (start, end) = sync_dates(today, past_days, future_days);
    (stamp_of_day(start), stamp_of_day(end))
}

// ── One source ─────────────────────────────────────────────────────

pub struct UpdateModel {
    pub href: Seq<char>,
    pub ctag: Option<Seq<char>>,
    pub sync_token: Option<Seq<char>>,
}

/// Per-calendar metadata updates produced by sync.
#[derive(Debug)]
pub struct CalendarMetaUpdate {
    pub href: String,
    pub ctag: Option<String>,
    pub sync_token: Option<String>,
}

impl View for CalendarMetaUpdate {
    type V = UpdateModel;

    open spec fn view(&self) -> UpdateModel {
        UpdateModel {
            href: self.href@,
            ctag: opt_text(self.ctag),
            sync_token: opt_text(self.sync_token),
        }
    }
}

pub open spec fn updates_view(v: Seq<CalendarMetaUpdate>) -> Seq<UpdateModel> {
    v.map_values(|u: CalendarMetaUpdate| u@)
}

/// Result of a sync-collection REPORT (RFC 6578).
#[derive(Debug)]
pub struct SyncCollectionResult {
    pub events: Vec<CalendarEvent>,
    pub todos: Vec<CalendarTodo>,
    /// Hrefs that have been deleted on the server.
    pub removed_hrefs: Vec<String>,
    /// New sync-token to store for the next incremental sync.
    pub new_sync_token: Option<String>,
}

/// What is asked of the server next, for the calendar in hand.
#[derive(Clone, Copy, Debug, PartialEq, Eq, Structural)]
pub enum Phase {
    /// The changes since the calendar's sync-token.
    Collection,
    /// The calendar's current ctag.
    Ctag,
    /// The events of the calendar.
    Events,
    /// The to-dos of the calendar.
    Todos,
    /// Nothing: every calendar is done.
    Finished,
    /// Nothing: the source failed.
    Failed,
}

/// A sync of the calendars of a CalDAV source, between two answers of the server.
#[verifier::ext_equal]
pub struct SyncModel {
    pub calendars: Seq<CollectionModel>,
    pub force_full: bool,
    pub at: int,
    pub phase: Phase,
    pub server_ctag: Option<Seq<char>>,
    pub events: Seq<EventModel>,
    pub todos: Seq<TodoModel>,
    pub updates: Seq<UpdateModel>,
    pub error: Option<SyncErrorModel>,
}

/// What is asked first of a calendar: its changes where it has a sync-token, else its
/// ctag; in a full sync its events.
pub open spec fn first_phase(c: CollectionModel, force_full: bool) -> Phase {
    if force_full {
        Phase::Events
    } else if c.sync_token is Some {
        Phase::Collection
    } else {
        Phase::Ctag
    }
}

/// The position of the first enabled calendar from `i` on; the number of calendars where
/// there is none.
pub open spec fn next_enabled(calendars: Seq<CollectionModel>, i: int) -> int
    decreases calendars.len() - i,
{
    if i >= calendars.len() || calendars[i].enabled {
        i
    } else {
        next_enabled(calendars, i + 1)
    }
}

/// The sync goes on with the first enabled calendar from `i` on.
pub open spec fn go_on(s: SyncModel, i: int) -> SyncModel {
    let at = next_enabled(s.calendars, i);
    SyncModel {
        at,
        phase: if at < s.calendars.len() {
            first_phase(s.calendars[at], s.force_full)
        } else {
            Phase::Finished
        },
        server_ctag: None,
        ..s
    }
}

pub open spec fn fresh_sync(calendars: Seq<CollectionModel>, force_full: bool) -> SyncModel {
    go_on(
        SyncModel {
            calendars,
            force_full,
            at: 0,
            phase: Phase::Finished,
            server_ctag: None,
            events: Seq::empty(),
            todos: Seq::empty(),
            updates: Seq::empty(),
            error: None,
        },
        0,
    )
}

pub open spec fn fail(s: SyncModel, error: SyncErrorModel) -> SyncModel {
    SyncModel { phase: Phase::Failed, error: Some(error), ..s }
}

/// What a server may answer to the question for changes.
pub enum ChangesModel {
    Changes { events: Seq<EventModel>, todos: Seq<TodoModel>, token: Option<Seq<char>> },
    /// The sync-token is not valid any more.
    Stale,
    Error(SyncErrorModel),
}

pub open spec fn after_changes(s: SyncModel, answer: ChangesModel) -> SyncModel {
    match answer {
        ChangesModel::Changes { events, todos, token } => go_on(
            SyncModel {
                events: s.events + events,
                todos: s.todos + todos,
                updates: s.updates.push(
                    UpdateModel { href: s.calendars[s.at].href, ctag: None, sync_token: token },
                ),
                ..s
            },
            s.at + 1,
        ),
        ChangesModel::Error(SyncErrorModel::AuthExpired(id)) => fail(
            s,
            SyncErrorModel::AuthExpired(id),
        ),
        _ => SyncModel { phase: Phase::Ctag, ..s },
    }
}

/// After the ctag: a calendar whose ctag is the known one is done.
pub open spec fn after_ctag(s: SyncModel, ctag: Option<Seq<char>>) -> SyncModel {
    if ctag is Some && s.calendars[s.at].ctag == ctag {
        go_on(s, s.at + 1)
    } else {
        SyncModel { phase: Phase::Events, server_ctag: ctag, ..s }
    }
}

pub open spec fn after_events(
    s: SyncModel,
    answer: Result<Seq<EventModel>, SyncErrorModel>,
) -> SyncModel {
    match answer {
        Ok(events) => SyncModel {
            phase: Phase::Todos,
            events: s.events + events,
            updates: s.updates.push(
                UpdateModel {
                    href: s.calendars[s.at].href,
                    ctag: s.server_ctag,
                    sync_token: None,
                },
            ),
            ..s
        },
        Err(SyncErrorModel::AuthExpired(id)) => fail(s, SyncErrorModel::AuthExpired(id)),
        Err(_) => SyncModel { phase: Phase::Todos, ..s },
    }
}

pub open spec fn after_todos(s: SyncModel, answer: Option<Seq<TodoModel>>) -> SyncModel {
    go_on(
        SyncModel {
            todos: match answer {
                Some(todos) => s.todos + todos,
                None => s.todos,
            },
            ..s
        },
        s.at + 1,
    )
}

/// A sync of the calendars of a CalDAV source.
#[derive(Debug)]
pub struct SourceSync {
    calendars: Vec<CalDavCalendar>,
    force_full: bool,
    at: usize,
    phase: Phase,
    server_ctag: Option<String>,
    events: Vec<CalendarEvent>,
    todos: Vec<CalendarTodo>,
    updates: Vec<CalendarMetaUpdate>,
    error: Option<SyncError>,
}

impl View for SourceSync {
    type V = SyncModel;

    closed spec fn view(&self) -> SyncModel {
        SyncModel {
            calendars: collections_view(self.calendars@),
            force_full: self.force_full,
            at: self.at as int,
            phase: self.phase,
            server_ctag: opt_text(self.server_ctag),
            events: events_view(self.events@),
            todos: todos_view(self.todos@),
            updates: updates_view(self.updates@),
            error: match self.error {
                Some(e) => Some(e@),
                None => None,
            },
        }
    }
}

/// What the server answered to the question for changes.
pub open spec fn changes_view(
    answer: Result<Option<SyncCollectionResult>, SyncError>,
) -> ChangesModel {
    match answer {
        Ok(Some(c)) => ChangesModel::Changes {
            events: events_view(c.events@),
            todos: todos_view(c.todos@),
            token: opt_text(c.new_sync_token),
        },
        Ok(None) => ChangesModel::Stale,
        Err(e) => ChangesModel::Error(e@),
    }
}

pub open spec fn events_answer(answer: Result<Vec<CalendarEvent>, SyncError>) -> Result<
    Seq<EventModel>,
    SyncErrorModel,
> {
    match answer {
        Ok(events) => Ok(events_view(events@)),
        Err(e) => Err(e@),
    }
}

pub fn append_events(out: &mut Vec<CalendarEvent>, mut more: Vec<CalendarEvent>)
    ensures
        events_view(final(out)@) == events_view(old(out)@) + events_view(more@),
{
    let ghost before = out@;
    let ghost added = more@;
    out.append(&mut more);
    proof {
        assert(events_view(out@) =~= events_view(before) + events_view(added));
    }
}

pub fn append_todos(out: &mut Vec<CalendarTodo>, mut more: Vec<CalendarTodo>)
    ensures
        todos_view(final(out)@) == todos_view(old(out)@) + todos_view(more@),
{
    let ghost before = out@;
    let ghost added = more@;
    out.append(&mut more);
    proof {
        assert(todos_view(out@) =~= todos_view(before) + todos_view(added));
    }
}

impl SourceSync {
    /// Every value of the type has a calendar in hand until it is finished.
    #[verifier::type_invariant]
    pub open spec fn has_calendar(self) -> bool {
        let s = self@;
        &&& 0 <= s.at <= s.calendars.len()
        &&& s.phase != Phase::Finished ==> s.at < s.calendars.len()
        &&& s.phase == Phase::Failed ==> s.error is Some
    }

    /// A sync of the enabled ones among the calendars.
    pub fn start(calendars: &Vec<CalDavCalendar>, force_full: bool) -> (r: SourceSync)
        ensures
            r@ == fresh_sync(collections_view(calendars@), force_full),
    {
        let r = SourceSync {
            calendars: crate::config::copy_collections(calendars),
            force_full,
            at: 0,
            phase: Phase::Finished,
            server_ctag: None,
            events: Vec::new(),
            todos: Vec::new(),
            updates: Vec::new(),
            error: None,
        };
        proof {
            assert(r@.events =~= Seq::<EventModel>::empty());
            assert(r@.todos =~= Seq::<TodoModel>::empty());
            assert(r@.updates =~= Seq::<UpdateModel>::empty());
        }
        r.continued(0)
    }

    /// The sync goes on with the first enabled calendar from `i` on.
    fn continued(self, i: usize) -> (r: SourceSync)
        requires
            i <= self@.calendars.len(),
        ensures
            r@ == go_on(self@, i as int),
    {
        let ghost calendars = self@.calendars;
        let mut at: usize = i;
        while at < self.calendars.len() && !self.calendars[at].enabled
            invariant
                i <= at <= self.calendars@.len(),
                calendars == collections_view(self.calendars@),
                next_enabled(calendars, i as int) == next_enabled(calendars, at as int),
            decreases self.calendars@.len() - at,
        {
            assert(calendars[at as int] == self.calendars@[at as int]@);
            at = at + 1;
        }
        let phase = if at < self.calendars.len() {
            let c = &self.calendars[at];
            proof {
                assert(calendars[at as int] == c@);
            }
            if self.force_full {
                Phase::Events
            } else if c.sync_token.is_some() {
                Phase::Collection
            } else {
                Phase::Ctag
            }
        } else {
            Phase::Finished
        };
        SourceSync { at, phase, server_ctag: None, ..self }
    }

    /// The sync after the answer to the question for changes.
    pub fn on_changes(self, answer: Result<Option<SyncCollectionResult>, SyncError>) -> (r:
        SourceSync)
        requires
            self@.phase == Phase::Collection,
        ensures
            r@ == after_changes(self@, changes_view(answer)),
    {
        proof {
            use_type_invariant(&self);
        }
        let at: usize = self.at;
        let count: usize = self.calendars.len();
        assert(at < count);
        match answer {
            Ok(Some(c)) => {
                let mut events = self.events;
                let mut todos = self.todos;
                let mut updates = self.updates;
                let ghost before = updates_view(updates@);
                append_events(&mut events, c.events);
                append_todos(&mut todos, c.todos);
                updates.push(
                    CalendarMetaUpdate {
                        href: self.calendars[at].href.clone(),
                        ctag: None,
                        sync_token: c.new_sync_token,
                    },
                );
                proof {
                    assert(updates_view(updates@) =~= before.push(updates@.last()@));
                }
                let s = SourceSync { events, todos, updates, ..self };
                s.continued(at + 1)
            },
            Err(SyncError::AuthExpired(id)) => SourceSync {
                phase: Phase::Failed,
                error: Some(SyncError::AuthExpired(id)),
                ..self
            },
            _ => SourceSync { phase: Phase::Ctag, ..self },
        }
    }

    /// The sync after the answer to the question for the ctag.
    pub fn on_ctag(self, answer: Result<Option<String>, SyncError>) -> (r: SourceSync)
        requires
            self@.phase == Phase::Ctag,
        ensures
            r@ == after_ctag(
                self@,
                match answer {
                    Ok(ctag) => opt_text(ctag),
                    Err(_) => None,
                },
            ),
    {
        proof {
            use_type_invariant(&self);
        }
        let server_ctag = match answer {
            Ok(ctag) => ctag,
            Err(_) => None,
        };
        let unchanged = match (&self.calendars[self.at].ctag, &server_ctag) {
            (Some(known), Some(current)) => same_text(known.as_str(), current.as_str()),
            _ => false,
        };
        proof {
            assert(self@.calendars[self@.at] == self.calendars@[self.at as int]@);
        }
        if unchanged {
            let at: usize = self.at;
            let count: usize = self.calendars.len();
            assert(at < count);
            self.continued(at + 1)
        } else {
            SourceSync { phase: Phase::Events, server_ctag, ..self }
        }
    }

    /// The sync after the answer to the question for the events.
    pub fn on_events(self, answer: Result<Vec<CalendarEvent>, SyncError>) -> (r: SourceSync)
        requires
            self@.phase == Phase::Events,
        ensures
            r@ == after_events(self@, events_answer(answer)),
    {
        proof {
            use_type_invariant(&self);
        }
        match answer {
            Ok(more) => {
                let mut events = self.events;
                let mut updates = self.updates;
                let ghost before = updates_view(updates@);
                append_events(&mut events, more);
                updates.push(
                    CalendarMetaUpdate {
                        href: self.calendars[self.at].href.clone(),
                        ctag: copy_text(&self.server_ctag),
                        sync_token: None,
                    },
                );
                proof {
                    assert(updates_view(updates@) =~= before.push(updates@.last()@));
                }
                SourceSync { phase: Phase::Todos, events, updates, ..self }
            },
            Err(SyncError::AuthExpired(id)) => SourceSync {
                phase: Phase::Failed,
                error: Some(SyncError::AuthExpired(id)),
                ..self
            },
            Err(SyncError::Other(_)) => SourceSync { phase: Phase::Todos, ..self },
        }
    }

    /// The sync after the answer to the question for the to-dos. An error here is passed
    /// over.
    pub fn on_todos(self, answer: Result<Vec<CalendarTodo>, SyncError>) -> (r: SourceSync)
        requires
            self@.phase == Phase::Todos,
        ensures
            r@ == after_todos(
                self@,
                match answer {
                    Ok(todos) => Some(todos_view(todos@)),
                    Err(_) => None,
                },
            ),
    {
        proof {
            use_type_invariant(&self);
        }
        let at: usize = self.at;
        let count: usize = self.calendars.len();
        assert(at < count);
        match answer {
            Ok(more) => {
                let mut todos = self.todos;
                append_todos(&mut todos, more);
                let s = SourceSync { todos, ..self };
                s.continued(at + 1)
            },
            Err(_) => self.continued(at + 1),
        }
    }

    /// What the sync brought, once it is finished or has failed.
    pub fn outcome(self) -> (r: Result<SourceOutcome, SyncError>)
        requires
            self@.phase == Phase::Finished || self@.phase == Phase::Failed,
        ensures
            outcome_view(r) == sync_outcome(self@),
    {
        match self.phase {
            Phase::Failed => {
                proof {
                    use_type_invariant(&self);
                }
                Err(self.error.unwrap())
            },
            _ => Ok(
                SourceOutcome { events: self.events, todos: self.todos, updates: self.updates },
            ),
        }
    }

    pub fn phase(&self) -> (r: Phase)
        ensures
            r == self@.phase,
    {
        self.phase
    }

    /// The calendar in hand.
    pub fn calendar(&self) -> (r: &CalDavCalendar)
        requires
            self@.phase != Phase::Finished,
        ensures
            r@ == self@.calendars[self@.at],
    {
        proof {
            use_type_invariant(self);
        }
        &self.calendars[self.at]
    }
}

/// The color of what a calendar holds: its own, or that of its source where it has none.
pub open spec fn shown_color(calendar: CollectionModel, source_color: Seq<char>) -> Seq<char> {
    if calendar.color.len() == 0 {
        source_color
    } else {
        calendar.color
    }
}

/// The color of what a calendar holds.
pub fn calendar_color<'a>(calendar: &'a CalDavCalendar, source_color: &'a str) -> (r: &'a str)
    ensures
        r@ == shown_color(calendar@, source_color@),
{
    if calendar.color.as_str().is_empty() {
        source_color
    } else {
        calendar.color.as_str()
    }
}

pub struct OutcomeModel {
    pub events: Seq<EventModel>,
    pub todos: Seq<TodoModel>,
    pub updates: Seq<UpdateModel>,
}

/// What a source brought.
#[derive(Debug)]
pub struct SourceOutcome {
    pub events: Vec<CalendarEvent>,
    pub todos: Vec<CalendarTodo>,
    pub updates: Vec<CalendarMetaUpdate>,
}

impl View for SourceOutcome {
    type V = OutcomeModel;

    open spec fn view(&self) -> OutcomeModel {
        OutcomeModel {
            events: events_view(self.events@),
            todos: todos_view(self.todos@),
            updates: updates_view(self.updates@),
        }
    }
}

pub open spec fn outcome_view(r: Result<SourceOutcome, SyncError>) -> Result<
    OutcomeModel,
    SyncErrorModel,
> {
    match r {
        Ok(o) => Ok(o@),
        Err(e) => Err(e@),
    }
}

pub open spec fn sync_outcome(s: SyncModel) -> Result<OutcomeModel, SyncErrorModel> {
    if s.phase == Phase::Failed {
        Err(s.error->0)
    } else {
        Ok(OutcomeModel { events: s.events, todos: s.todos, updates: s.updates })
    }
}

/// What an ICS feed or file brought: events, or an error in words.
pub fn feed_outcome(answer: Result<Vec<CalendarEvent>, String>) -> (r: Result<
    SourceOutcome,
    SyncError,
>)
    ensures
        outcome_view(r) == (match answer {
            Ok(events) => Ok(
                OutcomeModel {
                    events: events_view(events@),
                    todos: Seq::empty(),
                    updates: Seq::empty(),
                },
            ),
            Err(message) => Err(SyncErrorModel::Other(message@)),
        }),
{
    match answer {
        Ok(events) => {
            let o = SourceOutcome { events, todos: Vec::new(), updates: Vec::new() };
            proof {
                assert(o@.todos =~= Seq::<TodoModel>::empty());
                assert(o@.updates =~= Seq::<UpdateModel>::empty());
            }
            Ok(o)
        },
        Err(message) => Err(SyncError::Other(message)),
    }
}

/// Whether the reply to a request for an ICS feed can be read.
pub fn judge_feed(status: u16, status_text: &str) -> (r: Result<(), String>)
    ensures
        match r {
            Ok(_) => 200 <= status <= 299,
            Err(e) => !(200 <= status <= 299) && e@ == "ICS URL returned status "@ + status_text@,
        },
{
    if 200 <= status && status <= 299 {
        Ok(())
    } else {
        let mut e = "ICS URL returned status ".to_owned();
        e.append(status_text);
        Err(e)
    }
}

// ── A whole sync of a source ───────────────────────────────────────

/// What a server answers to the questions about one calendar.
pub struct Answers {
    pub changes: ChangesModel,
    pub ctag: Option<Seq<char>>,
    pub events: Result<Seq<EventModel>, SyncErrorModel>,
    pub todos: Option<Seq<TodoModel>>,
}

pub open spec fn nothing_brought() -> OutcomeModel {
    OutcomeModel { events: Seq::empty(), todos: Seq::empty(), updates: Seq::empty() }
}

pub open spec fn brought_together(a: OutcomeModel, b: OutcomeModel) -> OutcomeModel {
    OutcomeModel {
        events: a.events + b.events,
        todos: a.todos + b.todos,
        updates: a.updates + b.updates,
    }
}

/// What a fetch of the whole calendar brings.
pub open spec fn fetched(c: CollectionModel, ctag: Option<Seq<char>>, a: Answers) -> Result<
    OutcomeModel,
    SyncErrorModel,
> {
    let todos = match a.todos {
        Some(todos) => todos,
        None => Seq::empty(),
    };
    match a.events {
        Ok(events) => Ok(
            OutcomeModel {
                events,
                todos,
                updates: seq![UpdateModel { href: c.href, ctag, sync_token: None }],
            },
        ),
        Err(SyncErrorModel::AuthExpired(id)) => Err(SyncErrorModel::AuthExpired(id)),
        Err(_) => Ok(OutcomeModel { todos, ..nothing_brought() }),
    }
}

/// What a calendar brings: its changes, if it has a sync-token that the server takes;
/// else nothing, if its ctag is the known one; else all of it. A full sync fetches all.
pub open spec fn brought(c: CollectionModel, force_full: bool, a: Answers) -> Result<
    OutcomeModel,
    SyncErrorModel,
> {
    if force_full {
        fetched(c, None, a)
    } else if c.sync_token is Some && a.changes is Changes {
        Ok(
            OutcomeModel {
                events: a.changes->events,
                todos: a.changes->todos,
                updates: seq![
                    UpdateModel { href: c.href, ctag: None, sync_token: a.changes->token },
                ],
            },
        )
    } else if c.sync_token is Some && a.changes is Error && a.changes->0 is AuthExpired {
        Err(a.changes->0)
    } else if a.ctag is Some && c.ctag == a.ctag {
        Ok(nothing_brought())
    } else {
        fetched(c, a.ctag, a)
    }
}

/// What the enabled calendars from `i` on bring, one after the other, up to the first
/// that needs the user to sign in again.
pub open spec fn all_brought(
    calendars: Seq<CollectionModel>,
    force_full: bool,
    answers: Seq<Answers>,
    i: int,
) -> Result<OutcomeModel, SyncErrorModel>
    decreases calendars.len() - i,
{
    if i >= calendars.len() {
        Ok(nothing_brought())
    } else if !calendars[i].enabled {
        all_brought(calendars, force_full, answers, i + 1)
    } else {
        match brought(calendars[i], force_full, answers[i]) {
            Err(e) => Err(e),
            Ok(here) => match all_brought(calendars, force_full, answers, i + 1) {
                Err(e) => Err(e),
                Ok(rest) => Ok(brought_together(here, rest)),
            },
        }
    }
}

/// One question and its answer.
pub open spec fn answered(s: SyncModel, answers: Seq<Answers>) -> SyncModel {
    match s.phase {
        Phase::Collection => after_changes(s, answers[s.at].changes),
        Phase::Ctag => after_ctag(s, answers[s.at].ctag),
        Phase::Events => after_events(s, answers[s.at].events),
        Phase::Todos => after_todos(s, answers[s.at].todos),
        _ => s,
    }
}

pub open spec fn questions_left(phase: Phase) -> nat {
    match phase {
        Phase::Collection => 4,
        Phase::Ctag => 3,
        Phase::Events => 2,
        Phase::Todos => 1,
        _ => 0,
    }
}

/// The sync when no question is left.
pub open spec fn completed(s: SyncModel, answers: Seq<Answers>) -> SyncModel
    decreases s.calendars.len() - s.at, questions_left(s.phase),
    when 0 <= s.at <= s.calendars.len()
    via completed_decreases
{
    if s.phase == Phase::Finished || s.phase == Phase::Failed || s.at == s.calendars.len() {
        s
    } else {
        completed(answered(s, answers), answers)
    }
}

#[via_fn]
proof fn completed_decreases(s: SyncModel, answers: Seq<Answers>) {
    lemma_next_enabled(s.calendars, s.at + 1);
}

proof fn lemma_next_enabled(calendars: Seq<CollectionModel>, i: int)
    requires
        0 <= i,
    ensures
        i <= next_enabled(calendars, i),
        i <= calendars.len() ==> next_enabled(calendars, i) <= calendars.len(),
    decreases calendars.len() - i,
{
    if i < calendars.len() && !calendars[i].enabled {
        lemma_next_enabled(calendars, i + 1);
    }
}

/// What a sync has brought so far, and what the calendars from `i` on bring.
pub open spec fn with_rest(
    s: SyncModel,
    rest: Result<OutcomeModel, SyncErrorModel>,
) -> Result<OutcomeModel, SyncErrorModel> {
    match rest {
        Ok(rest) => Ok(
            brought_together(
                OutcomeModel { events: s.events, todos: s.todos, updates: s.updates },
                rest,
            ),
        ),
        Err(e) => Err(e),
    }
}

proof fn lemma_together(a: OutcomeModel, b: OutcomeModel, c: OutcomeModel)
    ensures
        brought_together(brought_together(a, b), c) == brought_together(a, brought_together(b, c)),
        brought_together(a, nothing_brought()) == a,
        brought_together(nothing_brought(), a) == a,
{
    assert(a.events + b.events + c.events =~= a.events + (b.events + c.events));
    assert(a.todos + b.todos + c.todos =~= a.todos + (b.todos + c.todos));
    assert(a.updates + b.updates + c.updates =~= a.updates + (b.updates + c.updates));
    assert(a.events + Seq::<EventModel>::empty() =~= a.events);
    assert(a.todos + Seq::<TodoModel>::empty() =~= a.todos);
    assert(a.updates + Seq::<UpdateModel>::empty() =~= a.updates);
    assert(Seq::<EventModel>::empty() + a.events =~= a.events);
    assert(Seq::<TodoModel>::empty() + a.todos =~= a.todos);
    assert(Seq::<UpdateModel>::empty() + a.updates =~= a.updates);
}

proof fn lemma_skip_disabled(
    calendars: Seq<CollectionModel>,
    force_full: bool,
    answers: Seq<Answers>,
    i: int,
)
    requires
        0 <= i <= calendars.len(),
    ensures
        all_brought(calendars, force_full, answers, i) == all_brought(
            calendars,
            force_full,
            answers,
            next_enabled(calendars, i),
        ),
        next_enabled(calendars, i) < calendars.len() ==> calendars[next_enabled(
            calendars,
            i,
        )].enabled,
    decreases calendars.len() - i,
{
    if i < calendars.len() && !calendars[i].enabled {
        lemma_skip_disabled(calendars, force_full, answers, i + 1);
    }
}

/// A sync that goes on with the calendars from `i` on brings what it has and what they
/// bring.
proof fn lemma_goes_on(s: SyncModel, answers: Seq<Answers>, i: int)
    requires
        0 <= i <= s.calendars.len(),
        answers.len() == s.calendars.len(),
    ensures
        sync_outcome(completed(go_on(s, i), answers)) == with_rest(
            s,
            all_brought(s.calendars, s.force_full, answers, i),
        ),
    decreases s.calendars.len() - i,
{
    let g = go_on(s, i);
    let at = g.at;
    lemma_next_enabled(s.calendars, i);
    lemma_skip_disabled(s.calendars, s.force_full, answers, i);
    let have = OutcomeModel { events: s.events, todos: s.todos, updates: s.updates };
    lemma_together(have, nothing_brought(), nothing_brought());
    if at < s.calendars.len() {
        let c = s.calendars[at];
        let a = answers[at];
        let rest = all_brought(s.calendars, s.force_full, answers, at + 1);
        lemma_next_enabled(s.calendars, at + 1);
        if g.phase == Phase::Collection {
            let t = after_changes(g, a.changes);
            assert(completed(g, answers) == completed(t, answers));
            match a.changes {
                ChangesModel::Changes { events, todos, token } => {
                    let here = OutcomeModel {
                        events,
                        todos,
                        updates: seq![
                            UpdateModel { href: c.href, ctag: None, sync_token: token },
                        ],
                    };
                    let u = SyncModel {
                        events: g.events + events,
                        todos: g.todos + todos,
                        updates: g.updates.push(
                            UpdateModel { href: c.href, ctag: None, sync_token: token },
                        ),
                        ..g
                    };
                    assert(u.updates =~= g.updates + here.updates);
                    lemma_goes_on(u, answers, at + 1);
                    if rest is Ok {
                        lemma_together(have, here, rest->Ok_0);
                    }
                },
                ChangesModel::Error(SyncErrorModel::AuthExpired(id)) => {},
                _ => {
                    assert(t == SyncModel { phase: Phase::Ctag, ..g });
                    lemma_from_ctag(t, answers);
                },
            }
        } else if g.phase == Phase::Ctag {
            lemma_from_ctag(g, answers);
        } else {
            lemma_from_events(g, answers);
        }
        if brought(c, s.force_full, a) is Ok && rest is Ok {
            lemma_together(have, brought(c, s.force_full, a)->Ok_0, rest->Ok_0);
        }
    }
}

proof fn lemma_from_ctag(s: SyncModel, answers: Seq<Answers>)
    requires
        0 <= s.at < s.calendars.len(),
        answers.len() == s.calendars.len(),
        s.phase == Phase::Ctag,
        !s.force_full,
        s.server_ctag is None,
    ensures
        ({
            let c = s.calendars[s.at];
            let a = answers[s.at];
            let rest = all_brought(s.calendars, s.force_full, answers, s.at + 1);
            let here = if a.ctag is Some && c.ctag == a.ctag {
                Ok(nothing_brought())
            } else {
                fetched(c, a.ctag, a)
            };
            sync_outcome(completed(s, answers)) == with_rest(
                s,
                match here {
                    Err(e) => Err(e),
                    Ok(here) => match rest {
                        Err(e) => Err(e),
                        Ok(rest) => Ok(brought_together(here, rest)),
                    },
                },
            )
        }),
    decreases s.calendars.len() - s.at, 3nat,
{
    let c = s.calendars[s.at];
    let a = answers[s.at];
    let t = after_ctag(s, a.ctag);
    let rest = all_brought(s.calendars, s.force_full, answers, s.at + 1);
    lemma_next_enabled(s.calendars, s.at + 1);
    assert(completed(s, answers) == completed(t, answers));
    if a.ctag is Some && c.ctag == a.ctag {
        lemma_goes_on(s, answers, s.at + 1);
        if rest is Ok {
            lemma_together(rest->Ok_0, nothing_brought(), nothing_brought());
        }
    } else {
        lemma_from_events(t, answers);
    }
}

proof fn lemma_from_events(s: SyncModel, answers: Seq<Answers>)
    requires
        0 <= s.at < s.calendars.len(),
        answers.len() == s.calendars.len(),
        s.phase == Phase::Events,
    ensures
        ({
            let c = s.calendars[s.at];
            let a = answers[s.at];
            let rest = all_brought(s.calendars, s.force_full, answers, s.at + 1);
            sync_outcome(completed(s, answers)) == with_rest(
                s,
                match fetched(c, s.server_ctag, a) {
                    Err(e) => Err(e),
                    Ok(here) => match rest {
                        Err(e) => Err(e),
                        Ok(rest) => Ok(brought_together(here, rest)),
                    },
                },
            )
        }),
    decreases s.calendars.len() - s.at, 2nat,
{
    let c = s.calendars[s.at];
    let a = answers[s.at];
    let t = after_events(s, a.events);
    let rest = all_brought(s.calendars, s.force_full, answers, s.at + 1);
    lemma_next_enabled(s.calendars, s.at + 1);
    assert(completed(s, answers) == completed(t, answers));
    if t.phase == Phase::Todos {
        let here = fetched(c, s.server_ctag, a)->Ok_0;
        let v = SyncModel {
            todos: match a.todos {
                Some(todos) => t.todos + todos,
                None => t.todos,
            },
            ..t
        };
        assert(completed(t, answers) == completed(go_on(v, s.at + 1), answers));
        lemma_goes_on(v, answers, s.at + 1);
        let have = OutcomeModel { events: s.events, todos: s.todos, updates: s.updates };
        assert(v.events =~= s.events + here.events);
        assert(v.todos =~= s.todos + here.todos);
        assert(v.updates =~= s.updates + here.updates);
        if rest is Ok {
            lemma_together(have, here, rest->Ok_0);
        }
    }
}

/// A sync brings what its enabled calendars bring, in their order; where one of them needs
/// the user to sign in again, it fails with that.
pub proof fn lemma_sync_brings_all(
    calendars: Seq<CollectionModel>,
    force_full: bool,
    answers: Seq<Answers>,
)
    requires
        answers.len() == calendars.len(),
    ensures
        sync_outcome(completed(fresh_sync(calendars, force_full), answers)) == all_brought(
            calendars,
            force_full,
            answers,
            0,
        ),
{
    let s = SyncModel {
        calendars,
        force_full,
        at: 0,
        phase: Phase::Finished,
        server_ctag: None,
        events: Seq::empty(),
        todos: Seq::empty(),
        updates: Seq::empty(),
        error: None,
    };
    lemma_goes_on(s, answers, 0);
    let all = all_brought(calendars, force_full, answers, 0);
    if all is Ok {
        lemma_together(all->Ok_0, nothing_brought(), nothing_brought());
    }
}

} // verus!
