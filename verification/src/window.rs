//! The applet's state, and what each message makes of it.

use crate::agenda::{
    at_most, date_of, events_by_date, events_from, groups, upcoming_events, EventsByDate,
};
use crate::clock::{shows_seconds, ticks_seconds};
use crate::component::{copy_text, opt_text, texts_view};
use crate::config::{
    default_config, is_uuid, random_uuid, same_sources, sources_view, AuthMethod, AuthModel,
    CalendarConfig, CollectionModel, ConfigModel, SourceConfig, SourceModel, SourceType,
    SourceTypeModel,
};
use crate::event::{clock_text, events_view, CalendarEvent, EventModel};
use crate::forms::{event_span, is_event_span};
use crate::ics::{or_default, or_empty};
use crate::sync_all::SyncResult;
use crate::text::{push_padded, same_text};
use crate::time::{
    moment_view, step_target, valid_moment, CivilDate, Date, FoundModel, FoundZone, Moment, Step,
    Zone, ZoneModel, Zoned,
};
use crate::todo::{todos_view, CalendarTodo, TodoModel};
use crate::datetime::found_view;
use vstd::prelude::*;

verus! {

// ── The model ──────────────────────────────────────────────────────

/// The settings of the clock.
#[derive(Clone, Debug)]
pub struct TimeAppletConfig {
    pub first_day_of_week: u8,
    pub show_seconds: bool,
    pub military_time: bool,
    pub show_date_in_top_panel: bool,
    pub show_weekday: bool,
    pub format_strftime: String,
}

pub struct SettingsModel {
    pub first_day_of_week: u8,
    pub show_seconds: bool,
    pub military_time: bool,
    pub show_date_in_top_panel: bool,
    pub show_weekday: bool,
    pub format_strftime: Seq<char>,
}

impl View for TimeAppletConfig {
    type V = SettingsModel;

    open spec fn view(&self) -> SettingsModel {
        SettingsModel {
            first_day_of_week: self.first_day_of_week,
            show_seconds: self.show_seconds,
            military_time: self.military_time,
            show_date_in_top_panel: self.show_date_in_top_panel,
            show_weekday: self.show_weekday,
            format_strftime: self.format_strftime@,
        }
    }
}

/// What is typed into the form of an event.
#[derive(Debug)]
pub struct EventForm {
    pub summary: String,
    pub start_time: String,
    pub end_time: String,
    pub all_day: bool,
    pub calendar_idx: usize,
    pub description: String,
    pub location: String,
}

#[verifier::ext_equal]
pub struct FormModel {
    pub summary: Seq<char>,
    pub start_time: Seq<char>,
    pub end_time: Seq<char>,
    pub all_day: bool,
    pub calendar_idx: int,
    pub description: Seq<char>,
    pub location: Seq<char>,
}

impl View for EventForm {
    type V = FormModel;

    open spec fn view(&self) -> FormModel {
        FormModel {
            summary: self.summary@,
            start_time: self.start_time@,
            end_time: self.end_time@,
            all_day: self.all_day,
            calendar_idx: self.calendar_idx as int,
            description: self.description@,
            location: self.location@,
        }
    }
}

/// A form that nothing was typed into.
pub open spec fn blank_form() -> FormModel {
    FormModel {
        summary: Seq::empty(),
        start_time: "09:00"@,
        end_time: "10:00"@,
        all_day: false,
        calendar_idx: 0,
        description: Seq::empty(),
        location: Seq::empty(),
    }
}

pub struct WindowModel {
    pub popup: Option<u64>,
    pub now: Moment,
    pub timezone: Option<FoundModel>,
    pub date_today: CivilDate,
    pub date_selected: CivilDate,
    pub config: SettingsModel,
    pub ticking_seconds: bool,
    pub calendar_events: Seq<(CivilDate, Seq<EventModel>)>,
    pub all_events: Seq<EventModel>,
    pub upcoming_events: Seq<EventModel>,
    pub calendar_config: ConfigModel,
    pub calendar_syncing: bool,
    pub calendar_error: Option<Seq<char>>,
    pub auth_expired_sources: Seq<Seq<char>>,
    pub creating_event: bool,
    pub creating_event_saving: bool,
    pub form: FormModel,
    pub viewing_event_uid: Option<Seq<char>>,
    pub editing_event: bool,
    pub editing_event_saving: bool,
    pub confirming_delete: bool,
    pub deleting_event: bool,
    pub calendar_todos: Seq<TodoModel>,
}

/// The state of the applet.
#[derive(Debug)]
pub struct Window {
    /// The popup that is open.
    pub popup: Option<u64>,
    pub now: Zoned,
    /// The zone that the clock is set to, where it is not the machine's.
    pub timezone: Option<FoundZone>,
    pub date_today: Date,
    pub date_selected: Date,
    pub config: TimeAppletConfig,
    /// Whether the clock ticks every second.
    pub ticking_seconds: bool,
    // Calendar state
    pub calendar_events: EventsByDate,
    pub all_events: Vec<CalendarEvent>,
    pub upcoming_events: Vec<CalendarEvent>,
    pub calendar_config: CalendarConfig,
    pub calendar_syncing: bool,
    pub calendar_error: Option<String>,
    pub auth_expired_sources: Vec<String>,
    // Event creation state
    pub creating_event: bool,
    pub creating_event_saving: bool,
    pub form: EventForm,
    // Event detail / editing / deletion state
    pub viewing_event_uid: Option<String>,
    pub editing_event: bool,
    pub editing_event_saving: bool,
    pub confirming_delete: bool,
    pub deleting_event: bool,
    // VTODO state
    pub calendar_todos: Vec<CalendarTodo>,
}

impl View for Window {
    type V = WindowModel;

    open spec fn view(&self) -> WindowModel {
        WindowModel {
            popup: self.popup,
            now: self.now@,
            timezone: found_view(self.timezone),
            date_today: self.date_today@,
            date_selected: self.date_selected@,
            config: self.config@,
            ticking_seconds: self.ticking_seconds,
            calendar_events: self.calendar_events@,
            all_events: events_view(self.all_events@),
            upcoming_events: events_view(self.upcoming_events@),
            calendar_config: self.calendar_config@,
            calendar_syncing: self.calendar_syncing,
            calendar_error: opt_text(self.calendar_error),
            auth_expired_sources: texts_view(self.auth_expired_sources@),
            creating_event: self.creating_event,
            creating_event_saving: self.creating_event_saving,
            form: self.form@,
            viewing_event_uid: opt_text(self.viewing_event_uid),
            editing_event: self.editing_event,
            editing_event_saving: self.editing_event_saving,
            confirming_delete: self.confirming_delete,
            deleting_event: self.deleting_event,
            calendar_todos: todos_view(self.calendar_todos@),
        }
    }
}

/// What happens to the applet.
#[derive(Clone, Debug)]
pub enum Message {
    /// The panel button is pressed; the number is one for a popup that would open.
    TogglePopup(u64),
    CloseRequested(u64),
    Tick,
    SelectDate(Date),
    GoToToday,
    PreviousMonth,
    NextMonth,
    OpenDateTimeSettings,
    ConfigChanged(TimeAppletConfig),
    TimezoneUpdate(String),
    // Calendar messages
    CalendarSync(Vec<CalendarEvent>, Vec<CalendarTodo>),
    CalendarAuthExpired(Vec<String>),
    CalendarRefresh,
    CalendarConfigChanged(CalendarConfig),
    CalendarToggleSource(String),
    CalendarRemoveSource(String),
    CalendarCtagUpdate(Vec<SourceConfig>),
    // Event creation messages
    CalendarStartCreateEvent,
    CalendarCancelCreateEvent,
    CalendarSubmitCreateEvent,
    CalendarEventCreated,
    CalendarEventCreateError(String),
    CalFormEventSummary(String),
    CalFormEventStartTime(String),
    CalFormEventEndTime(String),
    CalFormEventAllDay(bool),
    CalFormEventCalendar(usize),
    CalFormEventDescription(String),
    CalFormEventLocation(String),
    // Event detail view messages
    CalendarViewEvent(String),
    CalendarCloseEventView,
    CalendarLaunchExternalApp,
    CalendarOpenUrl(String),
    // Event editing messages
    CalendarEditEvent,
    CalendarSaveEditEvent,
    CalendarCancelEditEvent,
    CalendarEventUpdated,
    CalendarEventUpdateError(String),
    // Event deletion messages
    CalendarDeleteEvent,
    CalendarConfirmDeleteEvent,
    CalendarCancelDeleteEvent,
    CalendarEventDeleted,
    CalendarEventDeleteError(String),
    // VTODO messages
    CalendarToggleTodo(String),
    CalendarTodoToggled,
    CalendarTodoError(String),
}

/// How the server of a source is reached.
#[derive(Debug)]
pub struct Access {
    pub source_id: String,
    pub auth: AuthMethod,
    pub ca_cert_path: Option<String>,
}

pub struct AccessModel {
    pub source_id: Seq<char>,
    pub auth: AuthModel,
    pub ca_cert_path: Option<Seq<char>>,
}

impl View for Access {
    type V = AccessModel;

    open spec fn view(&self) -> AccessModel {
        AccessModel {
            source_id: self.source_id@,
            auth: self.auth@,
            ca_cert_path: opt_text(self.ca_cert_path),
        }
    }
}

/// What is to be done outside the applet's state.
#[derive(Debug)]
pub enum Action {
    Nothing,
    OpenPopup(u64),
    ClosePopup(u64),
    /// Open the settings of date and time.
    OpenSettings,
    /// Let the clock tick every second, or not.
    TickSeconds(bool),
    /// Write the events and to-dos to the cache.
    SaveCache,
    /// Hand the configuration to the sync, which starts it.
    StartSync,
    /// Write the configuration, and hand it to the sync.
    SaveConfig,
    /// Write the configuration, hand it to the sync, and delete the secrets of a source.
    ForgetSource(String),
    /// Start a program.
    Launch(String),
    OpenUrl(String),
    /// Create an event in the calendar with an address.
    Create { calendar_href: String, event: CalendarEvent, access: Access },
    /// Change the event with an address and an ETag.
    Update { href: String, etag: String, event: CalendarEvent, access: Access },
    /// Delete the event with an address and an ETag.
    Delete { href: String, etag: String, access: Access },
    /// Turn round the completion of the to-do with an address and an ETag.
    Complete { href: String, etag: String, todo: CalendarTodo, access: Access },
}

pub enum ActionModel {
    Nothing,
    OpenPopup(u64),
    ClosePopup(u64),
    OpenSettings,
    TickSeconds(bool),
    SaveCache,
    StartSync,
    SaveConfig,
    ForgetSource(Seq<char>),
    Launch(Seq<char>),
    OpenUrl(Seq<char>),
    Create { calendar_href: Seq<char>, event: EventModel, access: AccessModel },
    Update { href: Seq<char>, etag: Seq<char>, event: EventModel, access: AccessModel },
    Delete { href: Seq<char>, etag: Seq<char>, access: AccessModel },
    Complete { href: Seq<char>, etag: Seq<char>, todo: TodoModel, access: AccessModel },
}

impl View for Action {
    type V = ActionModel;

    open spec fn view(&self) -> ActionModel {
        match self {
            Action::Nothing => ActionModel::Nothing,
            Action::OpenPopup(id) => ActionModel::OpenPopup(*id),
            Action::ClosePopup(id) => ActionModel::ClosePopup(*id),
            Action::OpenSettings => ActionModel::OpenSettings,
            Action::TickSeconds(on) => ActionModel::TickSeconds(*on),
            Action::SaveCache => ActionModel::SaveCache,
            Action::StartSync => ActionModel::StartSync,
            Action::SaveConfig => ActionModel::SaveConfig,
            Action::ForgetSource(id) => ActionModel::ForgetSource(id@),
            Action::Launch(program) => ActionModel::Launch(program@),
            Action::OpenUrl(url) => ActionModel::OpenUrl(url@),
            Action::Create { calendar_href, event, access } => ActionModel::Create {
                calendar_href: calendar_href@,
                event: event@,
                access: access@,
            },
            Action::Update { href, etag, event, access } => ActionModel::Update {
                href: href@,
                etag: etag@,
                event: event@,
                access: access@,
            },
            Action::Delete { href, etag, access } => ActionModel::Delete {
                href: href@,
                etag: etag@,
                access: access@,
            },
            Action::Complete { href, etag, todo, access } => ActionModel::Complete {
                href: href@,
                etag: etag@,
                todo: todo@,
                access: access@,
            },
        }
    }
}

// ── What is looked up ──────────────────────────────────────────────

/// The first event with an identifier.
pub open spec fn event_with(events: Seq<EventModel>, uid: Seq<char>) -> Option<EventModel>
    decreases events.len(),
{
    if events.len() == 0 {
        None
    } else if events[0].uid == uid {
        Some(events[0])
    } else {
        event_with(events.skip(1), uid)
    }
}

/// The first to-do with an identifier.
pub open spec fn todo_with(todos: Seq<TodoModel>, uid: Seq<char>) -> Option<TodoModel>
    decreases todos.len(),
{
    if todos.len() == 0 {
        None
    } else if todos[0].uid == uid {
        Some(todos[0])
    } else {
        todo_with(todos.skip(1), uid)
    }
}

/// The position of the first source with an identifier; the number of sources where there
/// is none.
pub open spec fn position_of_source(sources: Seq<SourceModel>, id: Seq<char>) -> int
    decreases sources.len(),
{
    if sources.len() == 0 || sources[0].id == id {
        0
    } else {
        1 + position_of_source(sources.skip(1), id)
    }
}

/// How the server of the first source with an identifier is reached, where that is a
/// CalDAV source.
pub open spec fn access_to(sources: Seq<SourceModel>, id: Seq<char>) -> Option<AccessModel> {
    let i = position_of_source(sources, id);
    if 0 <= i < sources.len() {
        match sources[i].source_type {
            SourceTypeModel::CalDav { url, auth, calendars } => Some(
                AccessModel { source_id: id, auth, ca_cert_path: sources[i].ca_cert_path },
            ),
            _ => None,
        }
    } else {
        None
    }
}

/// A calendar that events can be put into: its source, its address and its label.
pub type Writable = (String, String, String);

pub type WritableModel = (Seq<char>, Seq<char>, Seq<char>);

pub open spec fn writable_label(source: Seq<char>, calendar: Seq<char>) -> Seq<char> {
    source + " / "@ + calendar
}

/// The enabled ones among the calendars of a source.
pub open spec fn writable_in(source: SourceModel, calendars: Seq<CollectionModel>) -> Seq<
    WritableModel,
>
    decreases calendars.len(),
{
    if calendars.len() == 0 {
        Seq::empty()
    } else {
        let before = writable_in(source, calendars.drop_last());
        let c = calendars.last();
        if c.enabled {
            before.push((source.id, c.href, writable_label(source.name, c.display_name)))
        } else {
            before
        }
    }
}

pub open spec fn writable_of(source: SourceModel) -> Seq<WritableModel> {
    match source.source_type {
        SourceTypeModel::CalDav { url, auth, calendars } => if source.enabled {
            writable_in(source, calendars)
        } else {
            Seq::empty()
        },
        _ => Seq::empty(),
    }
}

/// The calendars that events can be put into: the enabled ones of the enabled CalDAV
/// sources.
pub open spec fn all_writable(sources: Seq<SourceModel>) -> Seq<WritableModel>
    decreases sources.len(),
{
    if sources.len() == 0 {
        Seq::empty()
    } else {
        all_writable(sources.drop_last()) + writable_of(sources.last())
    }
}

pub open spec fn writables_view(v: Seq<Writable>) -> Seq<WritableModel> {
    v.map_values(|w: Writable| (w.0@, w.1@, w.2@))
}

fn find_event<'a>(events: &'a Vec<CalendarEvent>, uid: &str) -> (r: Option<&'a CalendarEvent>)
    ensures
        match r {
            Some(e) => event_with(events_view(events@), uid@) == Some(e@),
            None => event_with(events_view(events@), uid@) is None,
        },
{
    let ghost all = events_view(events@);
    let mut i: usize = 0;
    proof {
        assert(all.skip(0) =~= all);
    }
    while i < events.len()
        invariant
            i <= events@.len(),
            all == events_view(events@),
            event_with(all, uid@) == event_with(all.skip(i as int), uid@),
        decreases events@.len() - i,
    {
        proof {
            assert(all.skip(i as int)[0] == events@[i as int]@);
            assert(all.skip(i as int).skip(1) =~= all.skip(i + 1));
        }
        if same_text(events[i].uid.as_str(), uid) {
            return Some(&events[i]);
        }
        i = i + 1;
    }
    None
}

fn find_todo<'a>(todos: &'a Vec<CalendarTodo>, uid: &str) -> (r: Option<&'a CalendarTodo>)
    ensures
        match r {
            Some(t) => todo_with(todos_view(todos@), uid@) == Some(t@),
            None => todo_with(todos_view(todos@), uid@) is None,
        },
{
    let ghost all = todos_view(todos@);
    let mut i: usize = 0;
    proof {
        assert(all.skip(0) =~= all);
    }
    while i < todos.len()
        invariant
            i <= todos@.len(),
            all == todos_view(todos@),
            todo_with(all, uid@) == todo_with(all.skip(i as int), uid@),
        decreases todos@.len() - i,
    {
        proof {
            assert(all.skip(i as int)[0] == todos@[i as int]@);
            assert(all.skip(i as int).skip(1) =~= all.skip(i + 1));
        }
        if same_text(todos[i].uid.as_str(), uid) {
            return Some(&todos[i]);
        }
        i = i + 1;
    }
    None
}

pub(crate) proof fn lemma_position_of_source(sources: Seq<SourceModel>, id: Seq<char>, i: int)
    requires
        0 <= i <= sources.len(),
        forall|j: int| 0 <= j < i ==> (#[trigger] sources[j]).id != id,
        i < sources.len() ==> sources[i].id == id,
    ensures
        position_of_source(sources, id) == i,
    decreases sources.len(),
{
    if i > 0 {
        let rest = sources.skip(1);
        assert(sources[0].id != id);
        assert forall|j: int| 0 <= j < i - 1 implies (#[trigger] rest[j]).id != id by {
            assert(rest[j] == sources[j + 1]);
        }
        lemma_position_of_source(rest, id, i - 1);
    }
}

pub(crate) fn find_source(sources: &Vec<SourceConfig>, id: &str) -> (r: usize)
    ensures
        r == position_of_source(sources_view(sources@), id@),
        r <= sources@.len(),
{
    let ghost all = sources_view(sources@);
    let mut i: usize = 0;
    while i < sources.len()
        invariant
            i <= sources@.len(),
            all == sources_view(sources@),
            forall|j: int| 0 <= j < i ==> (#[trigger] all[j]).id != id@,
        decreases sources@.len() - i,
    {
        proof {
            assert(all[i as int] == sources@[i as int]@);
        }
        if same_text(sources[i].id.as_str(), id) {
            proof {
                lemma_position_of_source(all, id@, i as int);
            }
            return i;
        }
        i = i + 1;
    }
    proof {
        lemma_position_of_source(all, id@, i as int);
    }
    i
}

pub open spec fn access_view(a: Option<Access>) -> Option<AccessModel> {
    match a {
        Some(a) => Some(a@),
        None => None,
    }
}

fn find_access(sources: &Vec<SourceConfig>, id: &str) -> (r: Option<Access>)
    ensures
        access_view(r) == access_to(sources_view(sources@), id@),
{
    let i: usize = find_source(sources, id);
    if i < sources.len() {
        let s = &sources[i];
        proof {
            assert(sources_view(sources@)[i as int] == s@);
        }
        match &s.source_type {
            SourceType::CalDav { url: _, auth, calendars: _ } => Some(
                Access {
                    source_id: id.to_owned(),
                    auth: auth.clone(),
                    ca_cert_path: copy_text(&s.ca_cert_path),
                },
            ),
            _ => None,
        }
    } else {
        None
    }
}

fn push_writable(source: &SourceConfig, out: &mut Vec<Writable>)
    ensures
        writables_view(final(out)@) == writables_view(old(out)@) + writable_of(source@),
{
    let ghost start = writables_view(out@);
    proof {
        assert(start + Seq::<WritableModel>::empty() =~= start);
    }
    if !source.enabled {
        return;
    }
    if let SourceType::CalDav { url: _, auth: _, calendars } = &source.source_type {
        let ghost all = crate::config::collections_view(calendars@);
        let mut i: usize = 0;
        proof {
            assert(all.take(0) =~= Seq::<CollectionModel>::empty());
        }
        while i < calendars.len()
            invariant
                i <= calendars@.len(),
                all == crate::config::collections_view(calendars@),
                writables_view(out@) == start + writable_in(source@, all.take(i as int)),
            decreases calendars@.len() - i,
        {
            let ghost before = writables_view(out@);
            let c = &calendars[i];
            proof {
                assert(all.take(i + 1).drop_last() =~= all.take(i as int));
                assert(all.take(i + 1).last() == c@);
            }
            if c.enabled {
                let mut label = source.name.clone();
                label.append(" / ");
                label.append(c.display_name.as_str());
                let w: Writable = (source.id.clone(), c.href.clone(), label);
                let ghost m = (w.0@, w.1@, w.2@);
                out.push(w);
                proof {
                    assert(writables_view(out@) =~= before.push(m));
                    assert(before.push(m) =~= start + writable_in(source@, all.take(i + 1)));
                }
            }
            i = i + 1;
        }
        proof {
            assert(all.take(i as int) =~= all);
        }
    }
}

/// The calendars that events can be put into.
pub fn writable_calendars(sources: &Vec<SourceConfig>) -> (r: Vec<Writable>)
    ensures
        writables_view(r@) == all_writable(sources_view(sources@)),
{
    let ghost all = sources_view(sources@);
    let mut r: Vec<Writable> = Vec::new();
    let mut i: usize = 0;
    proof {
        assert(all.take(0) =~= Seq::<SourceModel>::empty());
        assert(writables_view(r@) =~= Seq::<WritableModel>::empty());
    }
    while i < sources.len()
        invariant
            i <= sources@.len(),
            all == sources_view(sources@),
            writables_view(r@) == all_writable(all.take(i as int)),
        decreases sources@.len() - i,
    {
        proof {
            assert(all.take(i + 1).drop_last() =~= all.take(i as int));
            assert(all.take(i + 1).last() == sources@[i as int]@);
        }
        push_writable(&sources[i], &mut r);
        i = i + 1;
    }
    proof {
        assert(all.take(i as int) =~= all);
    }
    r
}

// ── What a message makes of the state ──────────────────────────────

/// The identifiers with those that are new behind them, each once.
pub open spec fn with_new(known: Seq<Seq<char>>, ids: Seq<Seq<char>>) -> Seq<Seq<char>>
    decreases ids.len(),
{
    if ids.len() == 0 {
        known
    } else {
        let before = with_new(known, ids.drop_last());
        if before.contains(ids.last()) {
            before
        } else {
            before.push(ids.last())
        }
    }
}

/// The sources with the first one of an identifier turned on or off.
pub open spec fn source_toggled(sources: Seq<SourceModel>, id: Seq<char>) -> Seq<SourceModel> {
    let i = position_of_source(sources, id);
    if 0 <= i < sources.len() {
        sources.update(i, SourceModel { enabled: !sources[i].enabled, ..sources[i] })
    } else {
        sources
    }
}

/// The sources without those of an identifier.
pub open spec fn source_removed(sources: Seq<SourceModel>, id: Seq<char>) -> Seq<SourceModel> {
    sources.filter(|s: SourceModel| s.id != id)
}

pub open spec fn with_sources(s: WindowModel, sources: Seq<SourceModel>) -> WindowModel {
    WindowModel { calendar_config: ConfigModel { sources, ..s.calendar_config }, ..s }
}

/// The popup opens on today, or closes.
pub open spec fn popup_toggled(s: WindowModel, id: u64) -> (WindowModel, ActionModel) {
    match s.popup {
        Some(p) => (WindowModel { popup: None, ..s }, ActionModel::ClosePopup(p)),
        None => {
            let today = s.now.local.date;
            (
                WindowModel { popup: Some(id), date_today: today, date_selected: today, ..s },
                ActionModel::OpenPopup(id),
            )
        },
    }
}

/// Another month is shown, if there is one.
pub open spec fn month_moved(s: WindowModel, n: i32) -> WindowModel {
    match step_target(s.date_selected, Step::Months(n)) {
        Some(d) => WindowModel { date_selected: d, ..s },
        None => s,
    }
}

pub open spec fn settings_changed(s: WindowModel, c: SettingsModel) -> (WindowModel, ActionModel) {
    let seconds = ticks_seconds(c.format_strftime, c.show_seconds, s.ticking_seconds);
    (
        WindowModel { config: c, ticking_seconds: seconds, ..s },
        if seconds == s.ticking_seconds {
            ActionModel::Nothing
        } else {
            ActionModel::TickSeconds(seconds)
        },
    )
}

/// The state that shows a moment.
pub open spec fn shown_at(s: WindowModel, now: Moment) -> WindowModel {
    WindowModel { now, ..s }
}

/// The zone that the clock shows: the one that it is set to, or else that of the machine.
pub open spec fn shown_zone(s: WindowModel) -> ZoneModel {
    match s.timezone {
        Some(zone) => ZoneModel::Named(zone),
        None => ZoneModel::System,
    }
}

/// A zone and the moment that it is in that zone.
pub type ZonedNow = (FoundModel, Moment);

pub open spec fn zoned_now_view(found: Option<(FoundZone, Zoned)>) -> Option<ZonedNow> {
    match found {
        Some((zone, now)) => Some((zone@, now@)),
        None => None,
    }
}

/// The state that takes a zone that was found, and shows its today. Where none was found it
/// stays as it is.
pub open spec fn zone_taken(s: WindowModel, found: Option<ZonedNow>) -> WindowModel {
    match found {
        Some((zone, now)) => WindowModel {
            now,
            date_today: now.local.date,
            date_selected: now.local.date,
            timezone: Some(zone),
            ..s
        },
        None => s,
    }
}

/// Whether a zone may be found under a name, with the moment that it is there.
pub open spec fn is_zone_found(name: Seq<char>, found: Option<ZonedNow>) -> bool {
    match found {
        Some((zone, now)) => zone.name == name && valid_moment(now) && now.zone
            == ZoneModel::Named(zone),
        None => true,
    }
}

/// Whether `t` is the state after a tick: it shows the moment that it is, in the zone of the
/// clock.
pub open spec fn is_tick(s: WindowModel, t: WindowModel) -> bool {
    &&& t == shown_at(s, t.now)
    &&& valid_moment(t.now)
    &&& t.now.zone == shown_zone(s)
}

/// Whether `t` is the state after the zone changed: it takes the zone, if there is such a
/// zone; then it ticks.
pub open spec fn is_zone_change(s: WindowModel, name: Seq<char>, t: WindowModel) -> bool {
    exists|found: Option<ZonedNow>|
        is_zone_found(name, found) && is_tick(#[trigger] zone_taken(s, found), t)
}

/// Whether `t` is the state after a sync brought events and to-dos.
pub open spec fn is_synced(
    s: WindowModel,
    events: Seq<EventModel>,
    todos: Seq<TodoModel>,
    t: WindowModel,
) -> bool {
    &&& groups(events, t.calendar_events)
    &&& t == WindowModel {
        calendar_events: t.calendar_events,
        all_events: events,
        upcoming_events: at_most(
            events_from(events, s.date_today),
            s.calendar_config.upcoming_count as int,
        ),
        calendar_todos: todos,
        calendar_syncing: false,
        calendar_error: None,
        ..s
    }
}

pub open spec fn failed_with(s: WindowModel, error: Seq<char>) -> WindowModel {
    WindowModel { calendar_error: Some(error), ..s }
}

pub open spec fn syncing(s: WindowModel) -> WindowModel {
    WindowModel { calendar_syncing: true, ..s }
}

pub open spec fn creation_closed(s: WindowModel) -> WindowModel {
    WindowModel { creating_event: false, creating_event_saving: false, ..s }
}

pub open spec fn edit_closed(s: WindowModel) -> WindowModel {
    WindowModel { editing_event: false, editing_event_saving: false, ..s }
}

/// The event that is viewed.
pub open spec fn viewed(s: WindowModel) -> Option<EventModel> {
    match s.viewing_event_uid {
        Some(uid) => event_with(s.all_events, uid),
        None => None,
    }
}

/// A form with what an event holds.
pub open spec fn form_of(e: EventModel, calendar_idx: int) -> FormModel {
    FormModel {
        summary: e.summary,
        start_time: clock_text(e.dtstart),
        end_time: match e.dtend {
            Some(end) => clock_text(end),
            None => "10:00"@,
        },
        all_day: e.all_day,
        calendar_idx,
        description: or_empty(e.description),
        location: or_empty(e.location),
    }
}

pub open spec fn edit_opened(s: WindowModel) -> WindowModel {
    match viewed(s) {
        Some(e) => WindowModel {
            form: form_of(e, s.form.calendar_idx),
            editing_event: true,
            editing_event_saving: false,
            ..s
        },
        None => s,
    }
}

/// Whether the times of a form on a date may be no moments.
pub open spec fn may_not_be(d: CivilDate, form: FormModel) -> bool {
    exists|start: Option<Moment>, end: Option<Moment>|
        #![trigger is_event_span(d, form.all_day, form.start_time, form.end_time, start, end)]
        is_event_span(d, form.all_day, form.start_time, form.end_time, start, end) && (start is None
            || end is None)
}

/// Whether an event has the times of a form on a date.
pub open spec fn has_times_of(e: EventModel, d: CivilDate, form: FormModel) -> bool {
    e.dtend is Some && is_event_span(
        d,
        form.all_day,
        form.start_time,
        form.end_time,
        Some(e.dtstart),
        e.dtend,
    )
}

/// Whether a submission of the form for a new event leads to `t` and `a`: the event is
/// created in the chosen calendar, on the selected date, under an identifier of its own.
/// Nothing happens without a calendar to put it into.
pub open spec fn is_submission(s: WindowModel, t: WindowModel, a: ActionModel) -> bool {
    let calendars = all_writable(s.calendar_config.sources);
    let i = s.form.calendar_idx;
    if !(0 <= i < calendars.len()) {
        t == s && a == ActionModel::Nothing
    } else {
        match access_to(s.calendar_config.sources, calendars[i].0) {
            None => t == s && a == ActionModel::Nothing,
            Some(access) => match a {
                ActionModel::Nothing => t == s && may_not_be(s.date_selected, s.form),
                ActionModel::Create { calendar_href, event, access: used } => {
                    &&& t == WindowModel { creating_event_saving: true, ..s }
                    &&& calendar_href == calendars[i].1
                    &&& used == access
                    &&& is_uuid(event.uid)
                    &&& has_times_of(event, s.date_selected, s.form)
                    &&& event == EventModel {
                        uid: event.uid,
                        source_id: calendars[i].0,
                        summary: s.form.summary,
                        description: None,
                        location: None,
                        dtstart: event.dtstart,
                        dtend: event.dtend,
                        all_day: s.form.all_day,
                        url: None,
                        color: Seq::empty(),
                        etag: None,
                        href: None,
                        rrule: None,
                        exdates: Seq::empty(),
                        rdates: Seq::empty(),
                    }
                },
                _ => false,
            },
        }
    }
}

/// A text that was typed; none where nothing was.
pub open spec fn typed(s: Seq<char>) -> Option<Seq<char>> {
    if s.len() > 0 {
        Some(s)
    } else {
        None
    }
}

/// The event that is viewed, with its address and ETag and how its server is reached, where
/// it can be changed there.
pub open spec fn changeable(s: WindowModel) -> Option<
    (EventModel, Seq<char>, Seq<char>, AccessModel),
> {
    match viewed(s) {
        Some(e) => match (e.href, e.etag, access_to(s.calendar_config.sources, e.source_id)) {
            (Some(href), Some(etag), Some(access)) => Some((e, href, etag, access)),
            _ => None,
        },
        None => None,
    }
}

/// Whether saving an edited event leads to `t` and `a`: the event is changed on its server,
/// to what the form holds, on its own date.
pub open spec fn is_saved_edit(s: WindowModel, t: WindowModel, a: ActionModel) -> bool {
    match changeable(s) {
        None => t == s && a == ActionModel::Nothing,
        Some((e, href, etag, access)) => match a {
            ActionModel::Nothing => t == s && may_not_be(date_of(e), s.form),
            ActionModel::Update { href: h, etag: g, event, access: used } => {
                &&& t == WindowModel { editing_event_saving: true, ..s }
                &&& h == href
                &&& g == etag
                &&& used == access
                &&& has_times_of(event, date_of(e), s.form)
                &&& event == EventModel {
                    summary: s.form.summary,
                    description: typed(s.form.description),
                    location: typed(s.form.location),
                    dtstart: event.dtstart,
                    dtend: event.dtend,
                    all_day: s.form.all_day,
                    ..e
                }
            },
            _ => false,
        },
    }
}

/// A confirmed deletion: the event is deleted on its server.
pub open spec fn deletion_confirmed(s: WindowModel) -> (WindowModel, ActionModel) {
    match changeable(s) {
        None => (s, ActionModel::Nothing),
        Some((e, href, etag, access)) => (
            WindowModel { deleting_event: true, ..s },
            ActionModel::Delete { href, etag, access },
        ),
    }
}

/// A to-do that is ticked off: its completion is turned round on its server.
pub open spec fn todo_toggled(s: WindowModel, uid: Seq<char>) -> ActionModel {
    match todo_with(s.calendar_todos, uid) {
        Some(t) => match (t.href, t.etag, access_to(s.calendar_config.sources, t.source_id)) {
            (Some(href), Some(etag), Some(access)) => ActionModel::Complete {
                href,
                etag,
                todo: t,
                access,
            },
            _ => ActionModel::Nothing,
        },
        None => ActionModel::Nothing,
    }
}

pub open spec fn calendar_program(app: Seq<char>) -> Seq<char> {
    if app.len() == 0 {
        "gnome-calendar"@
    } else {
        app
    }
}

/// Whether a message leads from the state `s` to the state `t` and the action `a`.
pub open spec fn is_step(s: WindowModel, m: Message, t: WindowModel, a: ActionModel) -> bool {
    let nothing = ActionModel::Nothing;
    let start = ActionModel::StartSync;
    let save = ActionModel::SaveConfig;
    match m {
        Message::TogglePopup(id) => (t, a) == popup_toggled(s, id),
        Message::CloseRequested(id) => a == nothing && t == (if s.popup == Some(id) {
            WindowModel { popup: None, ..s }
        } else {
            s
        }),
        Message::Tick => a == nothing && is_tick(s, t),
        Message::SelectDate(d) => a == nothing && t == (WindowModel { date_selected: d@, ..s }),
        Message::GoToToday => a == nothing && t == (WindowModel {
            date_selected: s.date_today,
            ..s
        }),
        Message::PreviousMonth => a == nothing && t == month_moved(s, -1i32),
        Message::NextMonth => a == nothing && t == month_moved(s, 1i32),
        Message::OpenDateTimeSettings => a == ActionModel::OpenSettings && t == s,
        Message::ConfigChanged(c) => (t, a) == settings_changed(s, c@),
        Message::TimezoneUpdate(name) => a == nothing && is_zone_change(s, name@, t),
        Message::CalendarSync(events, todos) => a == ActionModel::SaveCache && is_synced(
            s,
            events_view(events@),
            todos_view(todos@),
            t,
        ),
        Message::CalendarAuthExpired(ids) => a == nothing && t == (WindowModel {
            auth_expired_sources: with_new(s.auth_expired_sources, texts_view(ids@)),
            ..s
        }),
        Message::CalendarRefresh => a == start && t == syncing(s),
        Message::CalendarConfigChanged(c) => a == start && t == (WindowModel {
            calendar_config: c@,
            ..s
        }),
        Message::CalendarToggleSource(id) => a == save && t == with_sources(
            s,
            source_toggled(s.calendar_config.sources, id@),
        ),
        Message::CalendarRemoveSource(id) => a == ActionModel::ForgetSource(id@) && t
            == with_sources(s, source_removed(s.calendar_config.sources, id@)),
        Message::CalendarCtagUpdate(sources) => a == save && t == with_sources(
            s,
            sources_view(sources@),
        ),
        Message::CalendarStartCreateEvent => a == nothing && t == (WindowModel {
            creating_event: true,
            creating_event_saving: false,
            form: blank_form(),
            ..s
        }),
        Message::CalendarCancelCreateEvent => a == nothing && t == creation_closed(s),
        Message::CalendarSubmitCreateEvent => is_submission(s, t, a),
        Message::CalendarEventCreated => a == start && t == syncing(creation_closed(s)),
        Message::CalendarEventCreateError(e) => a == nothing && t == failed_with(
            WindowModel { creating_event_saving: false, ..s },
            e@,
        ),
        Message::CalFormEventSummary(v) => a == nothing && t == (WindowModel {
            form: FormModel { summary: v@, ..s.form },
            ..s
        }),
        Message::CalFormEventStartTime(v) => a == nothing && t == (WindowModel {
            form: FormModel { start_time: v@, ..s.form },
            ..s
        }),
        Message::CalFormEventEndTime(v) => a == nothing && t == (WindowModel {
            form: FormModel { end_time: v@, ..s.form },
            ..s
        }),
        Message::CalFormEventAllDay(v) => a == nothing && t == (WindowModel {
            form: FormModel { all_day: v, ..s.form },
            ..s
        }),
        Message::CalFormEventCalendar(v) => a == nothing && t == (WindowModel {
            form: FormModel { calendar_idx: v as int, ..s.form },
            ..s
        }),
        Message::CalFormEventDescription(v) => a == nothing && t == (WindowModel {
            form: FormModel { description: v@, ..s.form },
            ..s
        }),
        Message::CalFormEventLocation(v) => a == nothing && t == (WindowModel {
            form: FormModel { location: v@, ..s.form },
            ..s
        }),
        Message::CalendarViewEvent(uid) => a == nothing && t == (WindowModel {
            viewing_event_uid: Some(uid@),
            editing_event: false,
            confirming_delete: false,
            ..s
        }),
        Message::CalendarCloseEventView => a == nothing && t == (WindowModel {
            viewing_event_uid: None,
            confirming_delete: false,
            deleting_event: false,
            ..edit_closed(s)
        }),
        Message::CalendarLaunchExternalApp => a == ActionModel::Launch(
            calendar_program(s.calendar_config.calendar_app),
        ) && t == s,
        Message::CalendarOpenUrl(url) => a == ActionModel::OpenUrl(url@) && t == s,
        Message::CalendarEditEvent => a == nothing && t == edit_opened(s),
        Message::CalendarSaveEditEvent => is_saved_edit(s, t, a),
        Message::CalendarCancelEditEvent => a == nothing && t == edit_closed(s),
        Message::CalendarEventUpdated => a == start && t == syncing(
            WindowModel { viewing_event_uid: None, ..edit_closed(s) },
        ),
        Message::CalendarEventUpdateError(e) => a == nothing && t == failed_with(
            WindowModel { editing_event_saving: false, ..s },
            e@,
        ),
        Message::CalendarDeleteEvent => a == nothing && t == (WindowModel {
            confirming_delete: true,
            ..s
        }),
        Message::CalendarConfirmDeleteEvent => (t, a) == deletion_confirmed(s),
        Message::CalendarCancelDeleteEvent => a == nothing && t == (WindowModel {
            confirming_delete: false,
            ..s
        }),
        Message::CalendarEventDeleted => a == start && t == syncing(
            WindowModel {
                viewing_event_uid: None,
                confirming_delete: false,
                deleting_event: false,
                ..s
            },
        ),
        Message::CalendarEventDeleteError(e) => a == nothing && t == failed_with(
            WindowModel { deleting_event: false, confirming_delete: false, ..s },
            e@,
        ),
        Message::CalendarToggleTodo(uid) => a == todo_toggled(s, uid@) && t == s,
        Message::CalendarTodoToggled => a == start && t == syncing(s),
        Message::CalendarTodoError(e) => a == nothing && t == failed_with(s, e@),
    }
}

impl Window {
    fn toggle_popup(&mut self, id: u64) -> (a: Action)
        ensures
            (final(self)@, a@) == popup_toggled(old(self)@, id),
    {
        match self.popup {
            Some(p) => {
                self.popup = None;
                Action::ClosePopup(p)
            },
            None => {
                self.date_today = self.now.date();
                self.date_selected = self.date_today;
                self.popup = Some(id);
                Action::OpenPopup(id)
            },
        }
    }

    fn move_month(&mut self, n: i32)
        requires
            -1 <= n <= 1,
        ensures
            final(self)@ == month_moved(old(self)@, n),
    {
        if let Some(d) = self.date_selected.plus(Step::Months(n)) {
            self.date_selected = d;
        }
    }

    fn change_settings(&mut self, c: TimeAppletConfig) -> (a: Action)
        ensures
            (final(self)@, a@) == settings_changed(old(self)@, c@),
    {
        let before = self.ticking_seconds;
        let seconds = shows_seconds(c.format_strftime.as_str(), c.show_seconds, before);
        self.ticking_seconds = seconds;
        self.config = c;
        if seconds == before {
            Action::Nothing
        } else {
            Action::TickSeconds(seconds)
        }
    }

    /// Shows a moment.
    pub fn show(&mut self, now: Zoned)
        ensures
            final(self)@ == shown_at(old(self)@, now@),
    {
        self.now = now;
    }

    fn tick(&mut self)
        ensures
            is_tick(old(self)@, final(self)@),
    {
        let now = match &self.timezone {
            Some(zone) => Zoned::now_in(Zone::Named(zone.clone())),
            None => Zoned::now(),
        };
        self.show(now);
    }

    /// Takes a zone that was found, with the moment that it is there.
    pub fn take_zone(&mut self, found: Option<(FoundZone, Zoned)>)
        ensures
            final(self)@ == zone_taken(old(self)@, zoned_now_view(found)),
    {
        if let Some((zone, now)) = found {
            self.date_today = now.date();
            self.date_selected = self.date_today;
            self.now = now;
            self.timezone = Some(zone);
        }
    }

    fn change_zone(&mut self, name: String)
        ensures
            is_zone_change(old(self)@, name@, final(self)@),
    {
        let ghost asked = name@;
        let found = match FoundZone::find(name) {
            Some(zone) => {
                let now = Zoned::now_in(Zone::Named(zone.clone()));
                Some((zone, now))
            },
            None => None,
        };
        let ghost f = zoned_now_view(found);
        self.take_zone(found);
        let ghost between = self@;
        self.tick();
        proof {
            assert(is_zone_found(asked, f));
            assert(between == zone_taken(old(self)@, f));
        }
    }

    fn take_sync(&mut self, events: Vec<CalendarEvent>, todos: Vec<CalendarTodo>)
        ensures
            is_synced(old(self)@, events_view(events@), todos_view(todos@), final(self)@),
    {
        self.calendar_events = events_by_date(events.as_slice());
        self.upcoming_events = upcoming_events(
            events.as_slice(),
            self.date_today,
            self.calendar_config.upcoming_count,
        );
        self.all_events = events;
        self.calendar_todos = todos;
        self.calendar_syncing = false;
        self.calendar_error = None;
    }
}

fn is_in(list: &Vec<String>, s: &str) -> (r: bool)
    ensures
        r == texts_view(list@).contains(s@),
{
    let mut i: usize = 0;
    while i < list.len()
        invariant
            i <= list@.len(),
            forall|j: int| 0 <= j < i ==> #[trigger] list@[j]@ != s@,
        decreases list@.len() - i,
    {
        if same_text(list[i].as_str(), s) {
            proof {
                assert(texts_view(list@)[i as int] == s@);
            }
            return true;
        }
        i = i + 1;
    }
    proof {
        if texts_view(list@).contains(s@) {
            let j = choose|j: int| 0 <= j < texts_view(list@).len() && texts_view(list@)[j] == s@;
            assert(list@[j]@ == s@);
        }
    }
    false
}

fn push_new(known: &mut Vec<String>, ids: &Vec<String>)
    ensures
        texts_view(final(known)@) == with_new(texts_view(old(known)@), texts_view(ids@)),
{
    let ghost start = texts_view(known@);
    let ghost all = texts_view(ids@);
    let mut i: usize = 0;
    proof {
        assert(all.take(0) =~= Seq::<Seq<char>>::empty());
    }
    while i < ids.len()
        invariant
            i <= ids@.len(),
            all == texts_view(ids@),
            texts_view(known@) == with_new(start, all.take(i as int)),
        decreases ids@.len() - i,
    {
        let ghost before = texts_view(known@);
        proof {
            assert(all.take(i + 1).drop_last() =~= all.take(i as int));
            assert(all.take(i + 1).last() == ids@[i as int]@);
        }
        if !is_in(known, ids[i].as_str()) {
            known.push(ids[i].clone());
            proof {
                assert(texts_view(known@) =~= before.push(ids@[i as int]@));
            }
        }
        i = i + 1;
    }
    proof {
        assert(all.take(i as int) =~= all);
    }
}

fn toggle_source(sources: &mut Vec<SourceConfig>, id: &str)
    ensures
        sources_view(final(sources)@) == source_toggled(sources_view(old(sources)@), id@),
{
    let ghost before = sources_view(sources@);
    let i: usize = find_source(sources, id);
    if i < sources.len() {
        let s = sources.remove(i);
        let ghost m = s@;
        let enabled = !s.enabled;
        sources.insert(i, SourceConfig { enabled, ..s });
        proof {
            assert(before[i as int] == m);
            assert(sources_view(sources@) =~= source_toggled(before, id@));
        }
    }
}

fn without_source(sources: &Vec<SourceConfig>, id: &str) -> (r: Vec<SourceConfig>)
    ensures
        sources_view(r@) == source_removed(sources_view(sources@), id@),
{
    let ghost all = sources_view(sources@);
    let ghost keep = |s: SourceModel| s.id != id@;
    let mut r: Vec<SourceConfig> = Vec::new();
    let mut i: usize = 0;
    proof {
        reveal(Seq::filter);
        assert(all.take(0) =~= Seq::<SourceModel>::empty());
        assert(sources_view(r@) =~= all.take(0).filter(keep));
    }
    while i < sources.len()
        invariant
            i <= sources@.len(),
            all == sources_view(sources@),
            keep == |s: SourceModel| s.id != id@,
            sources_view(r@) == all.take(i as int).filter(keep),
        decreases sources@.len() - i,
    {
        let ghost before = sources_view(r@);
        let s = &sources[i];
        proof {
            reveal(Seq::filter);
            assert(all.take(i + 1).drop_last() =~= all.take(i as int));
            assert(all.take(i + 1).last() == s@);
        }
        if !same_text(s.id.as_str(), id) {
            r.push(s.clone());
            proof {
                assert(sources_view(r@) =~= before.push(s@));
            }
        }
        i = i + 1;
    }
    proof {
        assert(all.take(i as int) =~= all);
    }
    r
}

fn empty_form() -> (r: EventForm)
    ensures
        r@ == blank_form(),
{
    let r = EventForm {
        summary: String::new(),
        start_time: "09:00".to_owned(),
        end_time: "10:00".to_owned(),
        all_day: false,
        calendar_idx: 0,
        description: String::new(),
        location: String::new(),
    };
    proof {
        assert(r@ =~= blank_form());
    }
    r
}

fn clock_string(z: &Zoned) -> (r: String)
    ensures
        r@ == clock_text(z@),
{
    let mut r = String::new();
    push_padded(&mut r, z.hour() as i64, 2);
    r.push(':');
    push_padded(&mut r, z.minute() as i64, 2);
    proof {
        assert(r@ =~= clock_text(z@));
    }
    r
}

fn typed_text(s: &String) -> (r: Option<String>)
    ensures
        opt_text(r) == typed(s@),
{
    if s.as_str().is_empty() {
        None
    } else {
        Some(s.clone())
    }
}

impl Window {
    /// The event that is viewed.
    pub fn viewed_event(&self) -> (r: Option<&CalendarEvent>)
        ensures
            match r {
                Some(e) => viewed(self@) == Some(e@),
                None => viewed(self@) is None,
            },
    {
        match &self.viewing_event_uid {
            Some(uid) => find_event(&self.all_events, uid.as_str()),
            None => None,
        }
    }

    fn submit(&mut self) -> (a: Action)
        ensures
            is_submission(old(self)@, final(self)@, a@),
    {
        let calendars = writable_calendars(&self.calendar_config.sources);
        proof {
            assert(writables_view(calendars@).len() == calendars@.len());
        }
        if self.form.calendar_idx >= calendars.len() {
            return Action::Nothing;
        }
        let chosen = &calendars[self.form.calendar_idx];
        proof {
            assert(writables_view(calendars@)[self.form.calendar_idx as int] == (
                chosen.0@,
                chosen.1@,
                chosen.2@,
            ));
        }
        let access = match find_access(&self.calendar_config.sources, chosen.0.as_str()) {
            Some(access) => access,
            None => return Action::Nothing,
        };
        let all_day = self.form.all_day;
        let span = event_span(
            self.date_selected,
            all_day,
            self.form.start_time.as_str(),
            self.form.end_time.as_str(),
        );
        let ghost start = moment_view(span.0);
        let ghost end = moment_view(span.1);
        proof {
            assert(is_event_span(
                self@.date_selected,
                self@.form.all_day,
                self@.form.start_time,
                self@.form.end_time,
                start,
                end,
            ));
        }
        match span {
            (Some(dtstart), Some(dtend)) => {
                let event = CalendarEvent {
                    uid: random_uuid(),
                    source_id: chosen.0.clone(),
                    summary: self.form.summary.clone(),
                    description: None,
                    location: None,
                    dtstart,
                    dtend: Some(dtend),
                    all_day,
                    url: None,
                    color: String::new(),
                    etag: None,
                    href: None,
                    rrule: None,
                    exdates: Vec::new(),
                    rdates: Vec::new(),
                };
                proof {
                    assert(event@.color =~= Seq::<char>::empty());
                    assert(event@.exdates =~= Seq::<CivilDate>::empty());
                    assert(event@.rdates =~= Seq::<CivilDate>::empty());
                }
                self.creating_event_saving = true;
                Action::Create { calendar_href: chosen.1.clone(), event, access }
            },
            _ => Action::Nothing,
        }
    }

    fn open_edit(&mut self)
        ensures
            final(self)@ == edit_opened(old(self)@),
    {
        let form = match self.viewed_event() {
            Some(e) => EventForm {
                summary: e.summary.clone(),
                start_time: clock_string(&e.dtstart),
                end_time: match &e.dtend {
                    Some(end) => clock_string(end),
                    None => "10:00".to_owned(),
                },
                all_day: e.all_day,
                calendar_idx: self.form.calendar_idx,
                description: or_default(copy_text(&e.description)),
                location: or_default(copy_text(&e.location)),
            },
            None => return,
        };
        self.form = form;
        self.editing_event = true;
        self.editing_event_saving = false;
    }

    fn save_edit(&mut self) -> (a: Action)
        ensures
            is_saved_edit(old(self)@, final(self)@, a@),
    {
        let event = match self.viewed_event() {
            Some(e) => e.clone(),
            None => return Action::Nothing,
        };
        let (href, etag) = match (copy_text(&event.href), copy_text(&event.etag)) {
            (Some(href), Some(etag)) => (href, etag),
            _ => return Action::Nothing,
        };
        let access = match find_access(
            &self.calendar_config.sources,
            event.source_id.as_str(),
        ) {
            Some(access) => access,
            None => return Action::Nothing,
        };
        let all_day = self.form.all_day;
        let span = event_span(
            event.date(),
            all_day,
            self.form.start_time.as_str(),
            self.form.end_time.as_str(),
        );
        let ghost start = moment_view(span.0);
        let ghost end = moment_view(span.1);
        proof {
            assert(is_event_span(
                date_of(event@),
                self@.form.all_day,
                self@.form.start_time,
                self@.form.end_time,
                start,
                end,
            ));
        }
        match span {
            (Some(dtstart), Some(dtend)) => {
                let changed = CalendarEvent {
                    summary: self.form.summary.clone(),
                    description: typed_text(&self.form.description),
                    location: typed_text(&self.form.location),
                    dtstart,
                    dtend: Some(dtend),
                    all_day,
                    ..event
                };
                self.editing_event_saving = true;
                Action::Update { href, etag, event: changed, access }
            },
            _ => Action::Nothing,
        }
    }

    fn confirm_delete(&mut self) -> (a: Action)
        ensures
            (final(self)@, a@) == deletion_confirmed(old(self)@),
    {
        let event = match self.viewed_event() {
            Some(e) => e,
            None => return Action::Nothing,
        };
        let (href, etag) = match (copy_text(&event.href), copy_text(&event.etag)) {
            (Some(href), Some(etag)) => (href, etag),
            _ => return Action::Nothing,
        };
        let access = match find_access(
            &self.calendar_config.sources,
            event.source_id.as_str(),
        ) {
            Some(access) => access,
            None => return Action::Nothing,
        };
        self.deleting_event = true;
        Action::Delete { href, etag, access }
    }

    fn toggle_todo(&self, uid: &str) -> (a: Action)
        ensures
            a@ == todo_toggled(self@, uid@),
    {
        let todo = match find_todo(&self.calendar_todos, uid) {
            Some(t) => t,
            None => return Action::Nothing,
        };
        let (href, etag) = match (copy_text(&todo.href), copy_text(&todo.etag)) {
            (Some(href), Some(etag)) => (href, etag),
            _ => return Action::Nothing,
        };
        match find_access(&self.calendar_config.sources, todo.source_id.as_str()) {
            Some(access) => Action::Complete { href, etag, todo: todo.clone(), access },
            None => Action::Nothing,
        }
    }

    fn calendar_program(&self) -> (r: String)
        ensures
            r@ == calendar_program(self@.calendar_config.calendar_app),
    {
        if self.calendar_config.calendar_app.as_str().is_empty() {
            "gnome-calendar".to_owned()
        } else {
            self.calendar_config.calendar_app.clone()
        }
    }
}

/// What a message is about.
#[derive(Clone, Copy, Debug, PartialEq, Eq, Structural)]
pub enum Topic {
    /// The clock and the popup.
    Panel,
    /// The calendars and to-dos.
    Calendar,
    /// A new event.
    Creation,
    /// The form of an event.
    Form,
    /// The event that is viewed.
    Viewing,
    /// A change of the event that is viewed.
    Editing,
    /// The deletion of the event that is viewed.
    Deletion,
}

pub open spec fn topic_of(m: Message) -> Topic {
    match m {
        Message::TogglePopup(_) => Topic::Panel,
        Message::CloseRequested(_) => Topic::Panel,
        Message::Tick => Topic::Panel,
        Message::SelectDate(_) => Topic::Panel,
        Message::GoToToday => Topic::Panel,
        Message::PreviousMonth => Topic::Panel,
        Message::NextMonth => Topic::Panel,
        Message::OpenDateTimeSettings => Topic::Panel,
        Message::ConfigChanged(_) => Topic::Panel,
        Message::TimezoneUpdate(_) => Topic::Panel,
        Message::CalendarSync(_, _) => Topic::Calendar,
        Message::CalendarAuthExpired(_) => Topic::Calendar,
        Message::CalendarRefresh => Topic::Calendar,
        Message::CalendarConfigChanged(_) => Topic::Calendar,
        Message::CalendarToggleSource(_) => Topic::Calendar,
        Message::CalendarRemoveSource(_) => Topic::Calendar,
        Message::CalendarCtagUpdate(_) => Topic::Calendar,
        Message::CalendarToggleTodo(_) => Topic::Calendar,
        Message::CalendarTodoToggled => Topic::Calendar,
        Message::CalendarTodoError(_) => Topic::Calendar,
        Message::CalendarStartCreateEvent => Topic::Creation,
        Message::CalendarCancelCreateEvent => Topic::Creation,
        Message::CalendarSubmitCreateEvent => Topic::Creation,
        Message::CalendarEventCreated => Topic::Creation,
        Message::CalendarEventCreateError(_) => Topic::Creation,
        Message::CalFormEventSummary(_) => Topic::Form,
        Message::CalFormEventStartTime(_) => Topic::Form,
        Message::CalFormEventEndTime(_) => Topic::Form,
        Message::CalFormEventAllDay(_) => Topic::Form,
        Message::CalFormEventCalendar(_) => Topic::Form,
        Message::CalFormEventDescription(_) => Topic::Form,
        Message::CalFormEventLocation(_) => Topic::Form,
        Message::CalendarViewEvent(_) => Topic::Viewing,
        Message::CalendarCloseEventView => Topic::Viewing,
        Message::CalendarLaunchExternalApp => Topic::Viewing,
        Message::CalendarOpenUrl(_) => Topic::Viewing,
        Message::CalendarEditEvent => Topic::Editing,
        Message::CalendarSaveEditEvent => Topic::Editing,
        Message::CalendarCancelEditEvent => Topic::Editing,
        Message::CalendarEventUpdated => Topic::Editing,
        Message::CalendarEventUpdateError(_) => Topic::Editing,
        _ => Topic::Deletion,
    }
}

fn topic(m: &Message) -> (r: Topic)
    ensures
        r == topic_of(*m),
{
    match m {
        Message::TogglePopup(_) => Topic::Panel,
        Message::CloseRequested(_) => Topic::Panel,
        Message::Tick => Topic::Panel,
        Message::SelectDate(_) => Topic::Panel,
        Message::GoToToday => Topic::Panel,
        Message::PreviousMonth => Topic::Panel,
        Message::NextMonth => Topic::Panel,
        Message::OpenDateTimeSettings => Topic::Panel,
        Message::ConfigChanged(_) => Topic::Panel,
        Message::TimezoneUpdate(_) => Topic::Panel,
        Message::CalendarSync(_, _) => Topic::Calendar,
        Message::CalendarAuthExpired(_) => Topic::Calendar,
        Message::CalendarRefresh => Topic::Calendar,
        Message::CalendarConfigChanged(_) => Topic::Calendar,
        Message::CalendarToggleSource(_) => Topic::Calendar,
        Message::CalendarRemoveSource(_) => Topic::Calendar,
        Message::CalendarCtagUpdate(_) => Topic::Calendar,
        Message::CalendarToggleTodo(_) => Topic::Calendar,
        Message::CalendarTodoToggled => Topic::Calendar,
        Message::CalendarTodoError(_) => Topic::Calendar,
        Message::CalendarStartCreateEvent => Topic::Creation,
        Message::CalendarCancelCreateEvent => Topic::Creation,
        Message::CalendarSubmitCreateEvent => Topic::Creation,
        Message::CalendarEventCreated => Topic::Creation,
        Message::CalendarEventCreateError(_) => Topic::Creation,
        Message::CalFormEventSummary(_) => Topic::Form,
        Message::CalFormEventStartTime(_) => Topic::Form,
        Message::CalFormEventEndTime(_) => Topic::Form,
        Message::CalFormEventAllDay(_) => Topic::Form,
        Message::CalFormEventCalendar(_) => Topic::Form,
        Message::CalFormEventDescription(_) => Topic::Form,
        Message::CalFormEventLocation(_) => Topic::Form,
        Message::CalendarViewEvent(_) => Topic::Viewing,
        Message::CalendarCloseEventView => Topic::Viewing,
        Message::CalendarLaunchExternalApp => Topic::Viewing,
        Message::CalendarOpenUrl(_) => Topic::Viewing,
        Message::CalendarEditEvent => Topic::Editing,
        Message::CalendarSaveEditEvent => Topic::Editing,
        Message::CalendarCancelEditEvent => Topic::Editing,
        Message::CalendarEventUpdated => Topic::Editing,
        Message::CalendarEventUpdateError(_) => Topic::Editing,
        _ => Topic::Deletion,
    }
}

impl Window {
    /// Takes a message about the clock and the popup.
    #[verifier::rlimit(50)]
    fn update_panel(&mut self, message: Message) -> (a: Action)
        requires
            topic_of(message) == Topic::Panel,
        ensures
            is_step(old(self)@, message, final(self)@, a@),
    {
        match message {
            Message::TogglePopup(id) => self.toggle_popup(id),
            Message::CloseRequested(id) => {
                if let Some(p) = self.popup {
                    if p == id {
                        self.popup = None;
                    }
                }
                Action::Nothing
            },
            Message::Tick => {
                self.tick();
                Action::Nothing
            },
            Message::SelectDate(d) => {
                self.date_selected = d;
                Action::Nothing
            },
            Message::GoToToday => {
                self.date_selected = self.date_today;
                Action::Nothing
            },
            Message::PreviousMonth => {
                self.move_month(-1);
                Action::Nothing
            },
            Message::NextMonth => {
                self.move_month(1);
                Action::Nothing
            },
            Message::OpenDateTimeSettings => Action::OpenSettings,
            Message::ConfigChanged(c) => self.change_settings(c),
            Message::TimezoneUpdate(name) => {
                self.change_zone(name);
                Action::Nothing
            },
            _ => Action::Nothing,
        }
    }

    /// Takes a message about the calendars and to-dos.
    #[verifier::rlimit(50)]
    fn update_calendar(&mut self, message: Message) -> (a: Action)
        requires
            topic_of(message) == Topic::Calendar,
        ensures
            is_step(old(self)@, message, final(self)@, a@),
    {
        match message {
            Message::CalendarSync(events, todos) => {
                self.take_sync(events, todos);
                Action::SaveCache
            },
            Message::CalendarAuthExpired(ids) => {
                push_new(&mut self.auth_expired_sources, &ids);
                Action::Nothing
            },
            Message::CalendarRefresh => {
                self.calendar_syncing = true;
                Action::StartSync
            },
            Message::CalendarConfigChanged(c) => {
                self.calendar_config = c;
                Action::StartSync
            },
            Message::CalendarToggleSource(id) => {
                toggle_source(&mut self.calendar_config.sources, id.as_str());
                Action::SaveConfig
            },
            Message::CalendarRemoveSource(id) => {
                self.calendar_config.sources = without_source(
                    &self.calendar_config.sources,
                    id.as_str(),
                );
                Action::ForgetSource(id)
            },
            Message::CalendarCtagUpdate(sources) => {
                self.calendar_config.sources = sources;
                Action::SaveConfig
            },
            Message::CalendarToggleTodo(uid) => self.toggle_todo(uid.as_str()),
            Message::CalendarTodoToggled => {
                self.calendar_syncing = true;
                Action::StartSync
            },
            Message::CalendarTodoError(e) => {
                self.calendar_error = Some(e);
                Action::Nothing
            },
            _ => Action::Nothing,
        }
    }

    /// Takes a message about a new event.
    #[verifier::rlimit(50)]
    fn update_creation(&mut self, message: Message) -> (a: Action)
        requires
            topic_of(message) == Topic::Creation,
        ensures
            is_step(old(self)@, message, final(self)@, a@),
    {
        match message {
            Message::CalendarStartCreateEvent => {
                self.creating_event = true;
                self.creating_event_saving = false;
                self.form = empty_form();
                Action::Nothing
            },
            Message::CalendarCancelCreateEvent => {
                self.creating_event = false;
                self.creating_event_saving = false;
                Action::Nothing
            },
            Message::CalendarSubmitCreateEvent => self.submit(),
            Message::CalendarEventCreated => {
                self.creating_event = false;
                self.creating_event_saving = false;
                self.calendar_syncing = true;
                Action::StartSync
            },
            Message::CalendarEventCreateError(e) => {
                self.creating_event_saving = false;
                self.calendar_error = Some(e);
                Action::Nothing
            },
            _ => Action::Nothing,
        }
    }

    /// Takes a message about the form of an event.
    #[verifier::rlimit(50)]
    fn update_form(&mut self, message: Message) -> (a: Action)
        requires
            topic_of(message) == Topic::Form,
        ensures
            is_step(old(self)@, message, final(self)@, a@),
    {
        match message {
            Message::CalFormEventSummary(v) => {
                self.form.summary = v;
                Action::Nothing
            },
            Message::CalFormEventStartTime(v) => {
                self.form.start_time = v;
                Action::Nothing
            },
            Message::CalFormEventEndTime(v) => {
                self.form.end_time = v;
                Action::Nothing
            },
            Message::CalFormEventAllDay(v) => {
                self.form.all_day = v;
                Action::Nothing
            },
            Message::CalFormEventCalendar(v) => {
                self.form.calendar_idx = v;
                Action::Nothing
            },
            Message::CalFormEventDescription(v) => {
                self.form.description = v;
                Action::Nothing
            },
            Message::CalFormEventLocation(v) => {
                self.form.location = v;
                Action::Nothing
            },
            _ => Action::Nothing,
        }
    }

    /// Takes a message about the event that is viewed.
    #[verifier::rlimit(50)]
    fn update_viewing(&mut self, message: Message) -> (a: Action)
        requires
            topic_of(message) == Topic::Viewing,
        ensures
            is_step(old(self)@, message, final(self)@, a@),
    {
        match message {
            Message::CalendarViewEvent(uid) => {
                self.viewing_event_uid = Some(uid);
                self.editing_event = false;
                self.confirming_delete = false;
                Action::Nothing
            },
            Message::CalendarCloseEventView => {
                self.viewing_event_uid = None;
                self.editing_event = false;
                self.editing_event_saving = false;
                self.confirming_delete = false;
                self.deleting_event = false;
                Action::Nothing
            },
            Message::CalendarLaunchExternalApp => Action::Launch(self.calendar_program()),
            Message::CalendarOpenUrl(url) => Action::OpenUrl(url),
            _ => Action::Nothing,
        }
    }

    /// Takes a message about a change of the event that is viewed.
    #[verifier::rlimit(50)]
    fn update_editing(&mut self, message: Message) -> (a: Action)
        requires
            topic_of(message) == Topic::Editing,
        ensures
            is_step(old(self)@, message, final(self)@, a@),
    {
        match message {
            Message::CalendarEditEvent => {
                self.open_edit();
                Action::Nothing
            },
            Message::CalendarSaveEditEvent => self.save_edit(),
            Message::CalendarCancelEditEvent => {
                self.editing_event = false;
                self.editing_event_saving = false;
                Action::Nothing
            },
            Message::CalendarEventUpdated => {
                self.editing_event = false;
                self.editing_event_saving = false;
                self.viewing_event_uid = None;
                self.calendar_syncing = true;
                Action::StartSync
            },
            Message::CalendarEventUpdateError(e) => {
                self.editing_event_saving = false;
                self.calendar_error = Some(e);
                Action::Nothing
            },
            _ => Action::Nothing,
        }
    }

    /// Takes a message about the deletion of the event that is viewed.
    #[verifier::rlimit(50)]
    fn update_deletion(&mut self, message: Message) -> (a: Action)
        requires
            topic_of(message) == Topic::Deletion,
        ensures
            is_step(old(self)@, message, final(self)@, a@),
    {
        match message {
            Message::CalendarDeleteEvent => {
                self.confirming_delete = true;
                Action::Nothing
            },
            Message::CalendarConfirmDeleteEvent => self.confirm_delete(),
            Message::CalendarCancelDeleteEvent => {
                self.confirming_delete = false;
                Action::Nothing
            },
            Message::CalendarEventDeleted => {
                self.viewing_event_uid = None;
                self.confirming_delete = false;
                self.deleting_event = false;
                self.calendar_syncing = true;
                Action::StartSync
            },
            Message::CalendarEventDeleteError(e) => {
                self.deleting_event = false;
                self.confirming_delete = false;
                self.calendar_error = Some(e);
                Action::Nothing
            },
            _ => Action::Nothing,
        }
    }

    /// Takes a message: the state changes, and something may be left to do outside.
    pub fn update(&mut self, message: Message) -> (a: Action)
        ensures
            is_step(old(self)@, message, final(self)@, a@),
    {
        match topic(&message) {
            Topic::Panel => self.update_panel(message),
            Topic::Calendar => self.update_calendar(message),
            Topic::Creation => self.update_creation(message),
            Topic::Form => self.update_form(message),
            Topic::Viewing => self.update_viewing(message),
            Topic::Editing => self.update_editing(message),
            Topic::Deletion => self.update_deletion(message),
        }
    }
}

/// The state that the applet starts with, given the time and what the cache holds.
pub open spec fn is_start(
    w: WindowModel,
    now: Moment,
    events: Seq<EventModel>,
    todos: Seq<TodoModel>,
) -> bool {
    &&& groups(events, w.calendar_events)
    &&& w == WindowModel {
        popup: None,
        now,
        timezone: None,
        date_today: now.local.date,
        date_selected: now.local.date,
        config: w.config,
        ticking_seconds: true,
        calendar_events: w.calendar_events,
        all_events: events,
        upcoming_events: at_most(events_from(events, now.local.date), 5),
        calendar_config: default_config(),
        calendar_syncing: false,
        calendar_error: None,
        auth_expired_sources: Seq::empty(),
        creating_event: false,
        creating_event_saving: false,
        form: blank_form(),
        viewing_event_uid: None,
        editing_event: false,
        editing_event_saving: false,
        confirming_delete: false,
        deleting_event: false,
        calendar_todos: todos,
    }
}

impl Window {
    /// The applet at its start, with its settings, the time, and the events and to-dos of
    /// the cache.
    pub fn start(
        config: TimeAppletConfig,
        now: Zoned,
        events: Vec<CalendarEvent>,
        todos: Vec<CalendarTodo>,
    ) -> (r: Window)
        ensures
            is_start(r@, now@, events_view(events@), todos_view(todos@)),
            r@.config == config@,
    {
        let today = now.date();
        let r = Window {
            popup: None,
            date_today: today,
            date_selected: today,
            now,
            timezone: None,
            config,
            ticking_seconds: true,
            calendar_events: events_by_date(events.as_slice()),
            upcoming_events: upcoming_events(events.as_slice(), today, 5),
            all_events: events,
            calendar_config: CalendarConfig::default(),
            calendar_syncing: false,
            calendar_error: None,
            auth_expired_sources: Vec::new(),
            creating_event: false,
            creating_event_saving: false,
            form: empty_form(),
            viewing_event_uid: None,
            editing_event: false,
            editing_event_saving: false,
            confirming_delete: false,
            deleting_event: false,
            calendar_todos: todos,
        };
        proof {
            assert(r@.auth_expired_sources =~= Seq::<Seq<char>>::empty());
        }
        r
    }
}

// ── After a sync ───────────────────────────────────────────────────

/// Whether messages tell of a sync: the events and to-dos, then the sources that need the
/// user to sign in again, if any, then the sources, if they changed.
pub open spec fn tells_of(
    messages: Seq<Message>,
    events: Seq<EventModel>,
    todos: Seq<TodoModel>,
    expired: Seq<Seq<char>>,
    sources: Seq<SourceModel>,
    changed: bool,
) -> bool {
    let second = if expired.len() > 0 {
        2int
    } else {
        1int
    };
    &&& messages.len() == second + (if changed {
        1int
    } else {
        0int
    })
    &&& messages[0] matches Message::CalendarSync(e, t) && events_view(e@) == events && todos_view(
        t@,
    ) == todos
    &&& expired.len() > 0 ==> (messages[1] matches Message::CalendarAuthExpired(ids) && texts_view(
        ids@,
    ) == expired)
    &&& changed ==> (messages[second] matches Message::CalendarCtagUpdate(s) && sources_view(s@)
        == sources)
}

/// The messages that tell of a sync.
pub fn sync_messages(result: SyncResult, updated: Vec<SourceConfig>, before: &Vec<SourceConfig>)
    -> (r: Vec<Message>)
    ensures
        tells_of(
            r@,
            events_view(result.events@),
            todos_view(result.todos@),
            texts_view(result.auth_expired@),
            sources_view(updated@),
            sources_view(updated@) != sources_view(before@),
        ),
{
    let changed = !same_sources(&updated, before);
    let mut r: Vec<Message> = Vec::new();
    r.push(Message::CalendarSync(result.events, result.todos));
    proof {
        assert(texts_view(result.auth_expired@).len() == result.auth_expired@.len());
    }
    if result.auth_expired.len() > 0 {
        r.push(Message::CalendarAuthExpired(result.auth_expired));
    }
    if changed {
        r.push(Message::CalendarCtagUpdate(updated));
    }
    r
}

// ── What holds of every state ──────────────────────────────────────

/// Whether the events by date are those of the list of events.
pub open spec fn is_grouped(s: WindowModel) -> bool {
    groups(s.all_events, s.calendar_events)
}

/// Every message keeps the events by date in step with the list of events.
#[verifier::rlimit(50)]
pub proof fn lemma_stays_grouped(s: WindowModel, m: Message, t: WindowModel, a: ActionModel)
    requires
        is_grouped(s),
        is_step(s, m, t, a),
    ensures
        is_grouped(t),
{
}

/// An event is changed or deleted on its server only where it is viewed, has an address and
/// an ETag there, and comes from a CalDAV source.
#[verifier::rlimit(50)]
pub proof fn lemma_changes_need_etag(s: WindowModel, m: Message, t: WindowModel, a: ActionModel)
    requires
        is_step(s, m, t, a),
        a is Update || a is Delete,
    ensures
        viewed(s) is Some,
        viewed(s)->0.href is Some,
        viewed(s)->0.etag is Some,
        access_to(s.calendar_config.sources, viewed(s)->0.source_id) is Some,
{
}

proof fn lemma_position_bounds(sources: Seq<SourceModel>, id: Seq<char>)
    ensures
        0 <= position_of_source(sources, id) <= sources.len(),
        position_of_source(sources, id) < sources.len() ==> sources[position_of_source(
            sources,
            id,
        )].id == id,
        forall|j: int|
            0 <= j < position_of_source(sources, id) ==> (#[trigger] sources[j]).id != id,
    decreases sources.len(),
{
    if sources.len() > 0 && sources[0].id != id {
        let rest = sources.skip(1);
        lemma_position_bounds(rest, id);
        assert forall|j: int| 0 <= j < position_of_source(sources, id) implies (
        #[trigger] sources[j]).id != id by {
            if j > 0 {
                assert(sources[j] == rest[j - 1]);
            }
        }
    }
}

/// A source that is toggled twice is as it was, and so are the others.
pub proof fn lemma_toggle_twice(sources: Seq<SourceModel>, id: Seq<char>)
    ensures
        source_toggled(source_toggled(sources, id), id) == sources,
{
    lemma_position_bounds(sources, id);
    let i = position_of_source(sources, id);
    let once = source_toggled(sources, id);
    if i < sources.len() {
        assert forall|j: int| 0 <= j < i implies (#[trigger] once[j]).id != id by {
            assert(once[j] == sources[j]);
        }
        lemma_position_of_source(once, id, i);
        assert(source_toggled(once, id) =~= sources);
    }
}

/// A source that is removed is gone, and the others stay in their order.
pub proof fn lemma_removed_is_gone(sources: Seq<SourceModel>, id: Seq<char>)
    ensures
        forall|i: int|
            0 <= i < source_removed(sources, id).len() ==> (#[trigger] source_removed(
                sources,
                id,
            )[i]).id != id,
        position_of_source(sources, id) == sources.len() ==> source_removed(sources, id)
            == sources,
    decreases sources.len(),
{
    reveal(Seq::filter);
    lemma_position_bounds(sources, id);
    if sources.len() > 0 {
        let front = sources.drop_last();
        lemma_removed_is_gone(front, id);
        let kept = source_removed(front, id);
        let now = source_removed(sources, id);
        assert forall|i: int| 0 <= i < now.len() implies (#[trigger] now[i]).id != id by {
            if i < kept.len() {
                assert(now[i] == kept[i]);
            }
        }
        if position_of_source(sources, id) == sources.len() {
            assert(sources[sources.len() - 1].id != id);
            assert forall|j: int| 0 <= j < front.len() implies (#[trigger] front[j]).id != id by {
                assert(front[j] == sources[j]);
            }
            lemma_position_of_source(front, id, front.len() as int);
            assert(sources =~= front.push(sources.last()));
        }
    } else {
        assert(source_removed(sources, id) =~= sources);
    }
}

/// The sources that need the user to sign in again are listed once each, and none is
/// forgotten.
pub proof fn lemma_listed_once(known: Seq<Seq<char>>, ids: Seq<Seq<char>>)
    requires
        known.no_duplicates(),
    ensures
        with_new(known, ids).no_duplicates(),
        forall|x: Seq<char>| #[trigger]
            with_new(known, ids).contains(x) <==> known.contains(x) || ids.contains(x),
    decreases ids.len(),
{
    if ids.len() > 0 {
        let front = ids.drop_last();
        let before = with_new(known, front);
        let now = with_new(known, ids);
        lemma_listed_once(known, front);
        assert forall|x: Seq<char>| #[trigger]
            now.contains(x) <==> known.contains(x) || ids.contains(x) by {
            if now.contains(x) {
                let i = choose|i: int| 0 <= i < now.len() && now[i] == x;
                if i < before.len() {
                    assert(before[i] == x);
                    assert(before.contains(x));
                    if front.contains(x) {
                        let k = choose|k: int| 0 <= k < front.len() && front[k] == x;
                        assert(ids[k] == x);
                    }
                } else {
                    assert(ids[ids.len() - 1] == x);
                }
            }
            if known.contains(x) {
                assert(before.contains(x));
                let i = choose|i: int| 0 <= i < before.len() && before[i] == x;
                assert(now[i] == x);
            }
            if ids.contains(x) {
                let k = choose|k: int| 0 <= k < ids.len() && ids[k] == x;
                if k < front.len() {
                    assert(front[k] == x);
                    assert(before.contains(x));
                    let i = choose|i: int| 0 <= i < before.len() && before[i] == x;
                    assert(now[i] == x);
                } else if before.contains(x) {
                    assert(now == before);
                } else {
                    assert(now[before.len() as int] == x);
                }
            }
        }
    }
}

} // verus!
