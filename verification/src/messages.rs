//! What the messages to the applet do.

use crate::config::{ConfigModel, SourceModel};
use crate::event::EventModel;
use crate::forms::{hour_and_minute, is_event_span, time_on};
use crate::editing::{is_server_of, is_viewing, own_access};
use crate::periods::{day_within, month_count};
use crate::time::{is_moment_anywhere, valid_date, CivilDate, Moment};
use crate::window::{
    all_writable, is_step, ActionModel, FormModel, Message, TimeAppletConfig, WindowModel,
};
use vstd::prelude::*;

verus! {

// ── The popup and the month ────────────────────────────────────────

/// The popup opens on the day that the clock shows, and the next toggle closes that popup.
#[verifier::rlimit(50)]
pub proof fn lemma_popup(
    s: WindowModel,
    t: WindowModel,
    u: WindowModel,
    a: ActionModel,
    b: ActionModel,
    i: u64,
    j: u64,
)
    requires
        s.popup is None,
        is_step(s, Message::TogglePopup(i), t, a),
        is_step(t, Message::TogglePopup(j), u, b),
    ensures
        a == ActionModel::OpenPopup(i),
        t == (WindowModel {
            popup: Some(i),
            date_today: s.now.local.date,
            date_selected: s.now.local.date,
            ..s
        }),
        b == ActionModel::ClosePopup(i),
        u == (WindowModel { popup: None, ..t }),
{
}

/// A request to close a popup closes that one, and leaves another open.
#[verifier::rlimit(50)]
pub proof fn lemma_close_request(s: WindowModel, t: WindowModel, a: ActionModel, i: u64)
    requires
        is_step(s, Message::CloseRequested(i), t, a),
    ensures
        a == ActionModel::Nothing,
        t.popup is None <==> s.popup is None || s.popup == Some(i),
        t == (WindowModel { popup: t.popup, ..s }),
        t.popup is Some ==> t.popup == s.popup,
{
}

/// The next month is the one after the shown one, the previous the one before it, across the
/// turn of the year too. The day stays, or is the last of the month where that is shorter. At
/// the end of the calendar nothing changes.
#[verifier::rlimit(50)]
pub proof fn lemma_months(s: WindowModel, t: WindowModel, a: ActionModel, forward: bool)
    requires
        valid_date(s.date_selected),
        forward ==> is_step(s, Message::NextMonth, t, a),
        !forward ==> is_step(s, Message::PreviousMonth, t, a),
    ensures
        a == ActionModel::Nothing,
        t == (WindowModel { date_selected: t.date_selected, ..s }),
        ({
            let d = s.date_selected;
            let e = t.date_selected;
            let n = month_count(d) + if forward {
                1int
            } else {
                -1int
            };
            if -12 * 9999 <= n < 12 * 10000 {
                &&& valid_date(e)
                &&& month_count(e) == n
                &&& e.day == day_within(d.day, e.year, e.month)
            } else {
                e == d
            }
        }),
{
    let n = if forward {
        1int
    } else {
        -1int
    };
    let m = s.date_selected.month - 1 + n;
    assert(m / 12 == (if m < 0 {
        -1int
    } else if m > 11 {
        1int
    } else {
        0int
    }));
    assert(m % 12 == m - 12 * (m / 12));
}

/// One month forward and one back shows the same month, and the same day where it is one that
/// every month has.
#[verifier::rlimit(50)]
pub proof fn lemma_month_and_back(
    s: WindowModel,
    t: WindowModel,
    u: WindowModel,
    a: ActionModel,
    b: ActionModel,
)
    requires
        valid_date(s.date_selected),
        month_count(s.date_selected) < 12 * 10000 - 1,
        is_step(s, Message::NextMonth, t, a),
        is_step(t, Message::PreviousMonth, u, b),
    ensures
        u.date_selected.year == s.date_selected.year,
        u.date_selected.month == s.date_selected.month,
        s.date_selected.day <= 28 ==> u == s,
{
    lemma_months(s, t, a, true);
    lemma_months(t, u, b, false);
}

/// A date that is selected is shown; and the way back leads to today.
#[verifier::rlimit(50)]
pub proof fn lemma_selected(
    s: WindowModel,
    t: WindowModel,
    u: WindowModel,
    a: ActionModel,
    b: ActionModel,
    d: crate::time::Date,
)
    requires
        is_step(s, Message::SelectDate(d), t, a),
        is_step(t, Message::GoToToday, u, b),
    ensures
        t == (WindowModel { date_selected: d@, ..s }),
        u == (WindowModel { date_selected: s.date_today, ..s }),
        a == ActionModel::Nothing,
        b == ActionModel::Nothing,
{
}

/// A tick changes nothing but the moment that is shown, and keeps the zone of the clock.
#[verifier::rlimit(50)]
pub proof fn lemma_tick_shows_time(s: WindowModel, t: WindowModel, a: ActionModel)
    requires
        is_step(s, Message::Tick, t, a),
    ensures
        a == ActionModel::Nothing,
        t == (WindowModel { now: t.now, ..s }),
        crate::time::valid_moment(t.now),
        s.timezone is None ==> t.now.zone == crate::time::ZoneModel::System,
        s.timezone is Some ==> t.now.zone == crate::time::ZoneModel::Named(s.timezone->0),
{
}

/// New settings are taken over; the tick changes if and only if it has to. Without a format
/// of the user's own the clock ticks every second if and only if seconds are shown.
#[verifier::rlimit(50)]
pub proof fn lemma_settings(s: WindowModel, t: WindowModel, a: ActionModel, c: TimeAppletConfig)
    requires
        is_step(s, Message::ConfigChanged(c), t, a),
    ensures
        t == (WindowModel { config: c@, ticking_seconds: t.ticking_seconds, ..s }),
        c@.format_strftime.len() == 0 ==> t.ticking_seconds == c@.show_seconds,
        c@.format_strftime.len() > 0 && s.ticking_seconds ==> t.ticking_seconds,
        t.ticking_seconds == s.ticking_seconds ==> a == ActionModel::Nothing,
        t.ticking_seconds != s.ticking_seconds ==> a == ActionModel::TickSeconds(t.ticking_seconds),
{
}

// ── Sources ────────────────────────────────────────────────────────

/// A source that is switched changes in nothing but that; all others stay, and the settings
/// are saved.
#[verifier::rlimit(50)]
pub proof fn lemma_switched(s: WindowModel, t: WindowModel, a: ActionModel, id: String, i: int)
    requires
        is_step(s, Message::CalendarToggleSource(id), t, a),
        0 <= i < s.calendar_config.sources.len(),
        s.calendar_config.sources[i].id == id@,
        forall|j: int| 0 <= j < i ==> (#[trigger] s.calendar_config.sources[j]).id != id@,
    ensures
        a == ActionModel::SaveConfig,
        t == (WindowModel { calendar_config: t.calendar_config, ..s }),
        t.calendar_config == (ConfigModel {
            sources: t.calendar_config.sources,
            ..s.calendar_config
        }),
        t.calendar_config.sources.len() == s.calendar_config.sources.len(),
        t.calendar_config.sources[i] == (SourceModel {
            enabled: !s.calendar_config.sources[i].enabled,
            ..s.calendar_config.sources[i]
        }),
        forall|j: int|
            0 <= j < s.calendar_config.sources.len() && j != i
                ==> #[trigger] t.calendar_config.sources[j] == s.calendar_config.sources[j],
{
    crate::window::lemma_position_of_source(s.calendar_config.sources, id@, i);
}

/// A source that is removed is not there any more, its secrets are forgotten, and every other
/// source is still there.
#[verifier::rlimit(50)]
pub proof fn lemma_source_removed(
    s: WindowModel,
    t: WindowModel,
    a: ActionModel,
    id: String,
    source: SourceModel,
)
    requires
        is_step(s, Message::CalendarRemoveSource(id), t, a),
    ensures
        a == ActionModel::ForgetSource(id@),
        t == (WindowModel { calendar_config: t.calendar_config, ..s }),
        t.calendar_config.sources.contains(source) <==> s.calendar_config.sources.contains(source)
            && source.id != id@,
{
    lemma_without(s.calendar_config.sources, id@, source);
}

proof fn lemma_without(sources: Seq<SourceModel>, id: Seq<char>, source: SourceModel)
    ensures
        crate::window::source_removed(sources, id).contains(source) <==> sources.contains(source)
            && source.id != id,
    decreases sources.len(),
{
    reveal(Seq::filter);
    let r = crate::window::source_removed(sources, id);
    if sources.len() > 0 {
        let n = sources.len() - 1;
        let front = sources.drop_last();
        let before = crate::window::source_removed(front, id);
        lemma_without(front, id, source);
        assert(r == if sources[n].id != id {
            before.push(sources[n])
        } else {
            before
        });
        if r.contains(source) {
            let k = choose|k: int| 0 <= k < r.len() && r[k] == source;
            if k < before.len() {
                assert(before[k] == source);
                assert(before.contains(source));
                let i = choose|i: int| 0 <= i < front.len() && front[i] == source;
                assert(sources[i] == source);
            } else {
                assert(sources[n] == source);
            }
        }
        if sources.contains(source) && source.id != id {
            let i = choose|i: int| 0 <= i < sources.len() && sources[i] == source;
            if i < n {
                assert(front[i] == source);
                assert(before.contains(source));
                let k = choose|k: int| 0 <= k < before.len() && before[k] == source;
                assert(r[k] == source);
            } else {
                assert(r[before.len() as int] == source);
            }
        }
    }
}

/// A source needs a new sign-in if and only if that was known or is told now.
#[verifier::rlimit(50)]
pub proof fn lemma_sign_in_noted(
    s: WindowModel,
    t: WindowModel,
    a: ActionModel,
    ids: Vec<String>,
    id: Seq<char>,
)
    requires
        is_step(s, Message::CalendarAuthExpired(ids), t, a),
    ensures
        a == ActionModel::Nothing,
        t == (WindowModel { auth_expired_sources: t.auth_expired_sources, ..s }),
        t.auth_expired_sources.contains(id) <==> s.auth_expired_sources.contains(id) || exists|i: int|
            0 <= i < ids@.len() && (#[trigger] ids@[i])@ == id,
{
    let all = crate::component::texts_view(ids@);
    lemma_with_new(s.auth_expired_sources, all, id);
    if all.contains(id) {
        let i = choose|i: int| 0 <= i < all.len() && all[i] == id;
        assert(ids@[i]@ == id);
    }
    if exists|i: int| 0 <= i < ids@.len() && (#[trigger] ids@[i])@ == id {
        let i = choose|i: int| 0 <= i < ids@.len() && (#[trigger] ids@[i])@ == id;
        assert(all[i] == id);
    }
}

proof fn lemma_with_new(known: Seq<Seq<char>>, ids: Seq<Seq<char>>, id: Seq<char>)
    ensures
        crate::window::with_new(known, ids).contains(id) <==> known.contains(id) || ids.contains(id),
    decreases ids.len(),
{
    let r = crate::window::with_new(known, ids);
    if ids.len() > 0 {
        let n = ids.len() - 1;
        let front = ids.drop_last();
        let before = crate::window::with_new(known, front);
        lemma_with_new(known, front, id);
        if front.contains(id) {
            let i = choose|i: int| 0 <= i < front.len() && front[i] == id;
            assert(ids[i] == id);
        }
        if ids.contains(id) && !front.contains(id) {
            let i = choose|i: int| 0 <= i < ids.len() && ids[i] == id;
            if i < n {
                assert(front[i] == id);
            }
            assert(ids.last() == id);
        }
        assert(ids.contains(ids[n]));
        if before.contains(id) {
            let k = choose|k: int| 0 <= k < before.len() && before[k] == id;
            assert(r[k] == id);
        }
        if !before.contains(ids.last()) {
            assert(r[before.len() as int] == ids.last());
            if r.contains(id) && id != ids.last() {
                let k = choose|k: int| 0 <= k < r.len() && r[k] == id;
                assert(before[k] == id);
            }
        }
    }
}

// ── Syncs ──────────────────────────────────────────────────────────

/// A sync replaces the events and the to-dos, ends the waiting and the error, and is saved to
/// the cache. What is upcoming are the first events that start today or later, as many as are
/// wanted.
#[verifier::rlimit(50)]
pub proof fn lemma_sync_taken(
    s: WindowModel,
    t: WindowModel,
    a: ActionModel,
    events: Vec<crate::event::CalendarEvent>,
    todos: Vec<crate::todo::CalendarTodo>,
)
    requires
        is_step(s, Message::CalendarSync(events, todos), t, a),
    ensures
        a == ActionModel::SaveCache,
        t.all_events == crate::event::events_view(events@),
        t.calendar_todos == crate::todo::todos_view(todos@),
        !t.calendar_syncing,
        t.calendar_error is None,
        t.date_selected == s.date_selected,
        t.popup == s.popup,
        t.form == s.form,
        t.upcoming_events.len() <= s.calendar_config.upcoming_count,
        crate::showing::is_upcoming(t.all_events, s.date_today, t.upcoming_events),
        t.upcoming_events.len() < s.calendar_config.upcoming_count
            ==> crate::showing::has_all_upcoming(t.all_events, s.date_today, t.upcoming_events),
{
    crate::showing::lemma_upcoming(
        t.all_events,
        s.date_today,
        s.calendar_config.upcoming_count as int,
    );
}

/// Whoever asks for a sync is told that one runs; what is shown stays until it is there.
#[verifier::rlimit(50)]
pub proof fn lemma_refresh(s: WindowModel, t: WindowModel, a: ActionModel)
    requires
        is_step(s, Message::CalendarRefresh, t, a),
    ensures
        a == ActionModel::StartSync,
        t == (WindowModel { calendar_syncing: true, ..s }),
{
}

// ── Forms ──────────────────────────────────────────────────────────

/// Whether the times that are typed on a date are times in whatever zone.
pub open spec fn are_times(d: CivilDate, start: Seq<char>, end: Seq<char>) -> bool {
    match (hour_and_minute(start), hour_and_minute(end)) {
        (Some((h, m)), Some((x, y))) => is_moment_anywhere(time_on(d, h, m)) && is_moment_anywhere(
            time_on(d, x, y),
        ),
        _ => false,
    }
}

/// A new event with times that can be read, in a calendar that is there, is created: the
/// server is asked.
#[verifier::rlimit(50)]
pub proof fn lemma_creation_is_sent(s: WindowModel, t: WindowModel, a: ActionModel, k: int)
    requires
        is_step(s, Message::CalendarSubmitCreateEvent, t, a),
        0 <= s.form.calendar_idx < all_writable(s.calendar_config.sources).len(),
        is_server_of(
            s.calendar_config.sources,
            all_writable(s.calendar_config.sources)[s.form.calendar_idx].0,
            k,
        ),
        !s.form.all_day,
        are_times(s.date_selected, s.form.start_time, s.form.end_time),
    ensures
        a is Create,
        a->Create_event.summary == s.form.summary,
        t.creating_event_saving,
{
    let w = all_writable(s.calendar_config.sources)[s.form.calendar_idx];
    crate::editing::lemma_own_access(s.calendar_config.sources, w.0, k);
    let d = s.date_selected;
    assert forall|p: Option<Moment>, q: Option<Moment>|
        #![trigger is_event_span(d, false, s.form.start_time, s.form.end_time, p, q)]
        is_event_span(d, false, s.form.start_time, s.form.end_time, p, q) implies p is Some
        && q is Some by {}
}

#[verifier::rlimit(50)]
proof fn lemma_opened(s: WindowModel, t: WindowModel, a: ActionModel, i: int)
    requires
        crate::editing::is_first_event(s.all_events, i),
        s.viewing_event_uid == Some(s.all_events[i].uid),
        is_step(s, Message::CalendarEditEvent, t, a),
    ensures
        t.form.all_day == s.all_events[i].all_day,
        t == (WindowModel {
            form: t.form,
            editing_event: true,
            editing_event_saving: false,
            ..s
        }),
{
    crate::editing::lemma_finds_event(s.all_events, i);
}

#[verifier::rlimit(50)]
proof fn lemma_typed(
    s: Seq<WindowModel>,
    a: Seq<ActionModel>,
    summary: String,
    description: String,
    location: String,
    start: String,
    end: String,
)
    requires
        s.len() == 8,
        a.len() == 7,
        is_step(s[1], Message::CalFormEventSummary(summary), s[2], a[1]),
        is_step(s[2], Message::CalFormEventDescription(description), s[3], a[2]),
        is_step(s[3], Message::CalFormEventLocation(location), s[4], a[3]),
        is_step(s[4], Message::CalFormEventStartTime(start), s[5], a[4]),
        is_step(s[5], Message::CalFormEventEndTime(end), s[6], a[5]),
    ensures
        s[6] == (WindowModel {
            form: FormModel {
                summary: summary@,
                description: description@,
                location: location@,
                start_time: start@,
                end_time: end@,
                ..s[1].form
            },
            ..s[1]
        }),
{
}

#[verifier::rlimit(50)]
proof fn lemma_form_is_sent(s: WindowModel, u: WindowModel, b: ActionModel, i: int, k: int)
    requires
        is_viewing(s, i, k),
        is_step(s, Message::CalendarSaveEditEvent, u, b),
        !s.form.all_day,
        are_times(s.all_events[i].dtstart.local.date, s.form.start_time, s.form.end_time),
        s.form.description.len() > 0,
        s.form.location.len() > 0,
    ensures
        u.editing_event_saving,
        b matches ActionModel::Update { href, etag, event, access } && {
            let e = s.all_events[i];
            let d = e.dtstart.local.date;
            let (h, m) = hour_and_minute(s.form.start_time)->0;
            let (x, y) = hour_and_minute(s.form.end_time)->0;
            &&& href == e.href->0
            &&& etag == e.etag->0
            &&& access == own_access(s.calendar_config.sources[k])
            &&& event == EventModel {
                summary: s.form.summary,
                description: Some(s.form.description),
                location: Some(s.form.location),
                all_day: s.form.all_day,
                dtstart: event.dtstart,
                dtend: event.dtend,
                ..e
            }
            &&& crate::time::placed(
                time_on(d, h, m),
                crate::time::ZoneModel::System,
                Some(event.dtstart),
            )
            &&& crate::time::placed(time_on(d, x, y), crate::time::ZoneModel::System, event.dtend)
        },
{
    let e = s.all_events[i];
    let d = e.dtstart.local.date;
    crate::editing::lemma_finds_event(s.all_events, i);
    crate::editing::lemma_own_access(s.calendar_config.sources, e.source_id, k);
    assert forall|p: Option<Moment>, q: Option<Moment>|
        #![trigger is_event_span(d, false, s.form.start_time, s.form.end_time, p, q)]
        is_event_span(d, false, s.form.start_time, s.form.end_time, p, q) implies p is Some
        && q is Some by {}
}

/// What is typed while an event is changed is what is sent, and only that is changed.
#[verifier::rlimit(100)]
pub proof fn lemma_typed_changes(
    s: Seq<WindowModel>,
    a: Seq<ActionModel>,
    summary: String,
    description: String,
    location: String,
    start: String,
    end: String,
    i: int,
    k: int,
)
    requires
        s.len() == 8,
        a.len() == 7,
        is_viewing(s[0], i, k),
        is_step(s[0], Message::CalendarEditEvent, s[1], a[0]),
        is_step(s[1], Message::CalFormEventSummary(summary), s[2], a[1]),
        is_step(s[2], Message::CalFormEventDescription(description), s[3], a[2]),
        is_step(s[3], Message::CalFormEventLocation(location), s[4], a[3]),
        is_step(s[4], Message::CalFormEventStartTime(start), s[5], a[4]),
        is_step(s[5], Message::CalFormEventEndTime(end), s[6], a[5]),
        is_step(s[6], Message::CalendarSaveEditEvent, s[7], a[6]),
        !s[0].all_events[i].all_day,
        are_times(s[0].all_events[i].dtstart.local.date, start@, end@),
        summary@.len() > 0,
        description@.len() > 0,
        location@.len() > 0,
    ensures
        a[6] matches ActionModel::Update { href, etag, event, access } && {
            let e = s[0].all_events[i];
            let d = e.dtstart.local.date;
            let (h, m) = hour_and_minute(start@)->0;
            let (x, y) = hour_and_minute(end@)->0;
            &&& href == e.href->0
            &&& etag == e.etag->0
            &&& access == own_access(s[0].calendar_config.sources[k])
            &&& event == EventModel {
                summary: summary@,
                description: Some(description@),
                location: Some(location@),
                dtstart: event.dtstart,
                dtend: event.dtend,
                ..e
            }
            &&& crate::time::placed(
                time_on(d, h, m),
                crate::time::ZoneModel::System,
                Some(event.dtstart),
            )
            &&& crate::time::placed(time_on(d, x, y), crate::time::ZoneModel::System, event.dtend)
        },
        s[7].editing_event_saving,
{
    let e = s[0].all_events[i];
    let d = e.dtstart.local.date;
    lemma_opened(s[0], s[1], a[0], i);
    lemma_typed(s, a, summary, description, location, start, end);
    let u = s[6];
    assert(u.form.all_day == e.all_day);
    assert(is_viewing(u, i, k));
    lemma_form_is_sent(u, s[7], a[6], i, k);
}

/// An event that is created, changed or deleted closes its form and starts a sync; one that
/// could not be is told of, and can be tried again.
#[verifier::rlimit(50)]
pub proof fn lemma_answers(s: WindowModel, t: WindowModel, a: ActionModel, e: String)
    ensures
        is_step(s, Message::CalendarEventCreated, t, a) ==> a == ActionModel::StartSync
            && !t.creating_event && !t.creating_event_saving && t.calendar_syncing,
        is_step(s, Message::CalendarEventUpdated, t, a) ==> a == ActionModel::StartSync
            && !t.editing_event && !t.editing_event_saving && t.viewing_event_uid is None,
        is_step(s, Message::CalendarEventDeleted, t, a) ==> a == ActionModel::StartSync
            && !t.confirming_delete && !t.deleting_event && t.viewing_event_uid is None,
        is_step(s, Message::CalendarEventCreateError(e), t, a) ==> a == ActionModel::Nothing
            && t.calendar_error == Some(e@) && !t.creating_event_saving && t.creating_event
            == s.creating_event && t.form == s.form,
        is_step(s, Message::CalendarEventUpdateError(e), t, a) ==> a == ActionModel::Nothing
            && t.calendar_error == Some(e@) && !t.editing_event_saving && t.editing_event
            == s.editing_event && t.form == s.form,
        is_step(s, Message::CalendarEventDeleteError(e), t, a) ==> a == ActionModel::Nothing
            && t.calendar_error == Some(e@) && !t.deleting_event && t.viewing_event_uid
            == s.viewing_event_uid,
        is_step(s, Message::CalendarTodoError(e), t, a) ==> a == ActionModel::Nothing
            && t.calendar_error == Some(e@) && t.calendar_todos == s.calendar_todos,
        is_step(s, Message::CalendarTodoToggled, t, a) ==> a == ActionModel::StartSync
            && t.calendar_syncing,
{
}

/// A view that is opened shows that event and asks nothing; one that is closed leaves nothing
/// open.
#[verifier::rlimit(50)]
pub proof fn lemma_viewed(
    s: WindowModel,
    t: WindowModel,
    u: WindowModel,
    a: ActionModel,
    b: ActionModel,
    uid: String,
)
    requires
        is_step(s, Message::CalendarViewEvent(uid), t, a),
        is_step(t, Message::CalendarCloseEventView, u, b),
    ensures
        t.viewing_event_uid == Some(uid@),
        !t.editing_event,
        !t.confirming_delete,
        t.all_events == s.all_events,
        u.viewing_event_uid is None,
        !u.editing_event,
        !u.confirming_delete,
        !u.deleting_event,
        !u.editing_event_saving,
        u.all_events == s.all_events,
        a == ActionModel::Nothing,
        b == ActionModel::Nothing,
{
}

/// A deletion that is taken back asks nothing of the server.
#[verifier::rlimit(50)]
pub proof fn lemma_deletion_taken_back(
    s: WindowModel,
    t: WindowModel,
    u: WindowModel,
    a: ActionModel,
    b: ActionModel,
)
    requires
        !s.confirming_delete,
        is_step(s, Message::CalendarDeleteEvent, t, a),
        is_step(t, Message::CalendarCancelDeleteEvent, u, b),
    ensures
        t.confirming_delete,
        u == s,
        a == ActionModel::Nothing,
        b == ActionModel::Nothing,
{
}

/// Only a change that is saved, a deletion that is confirmed, a creation that is submitted and
/// a to-do that is ticked off change anything on a server.
#[verifier::rlimit(50)]
pub proof fn lemma_changes_are_asked_for(s: WindowModel, m: Message, t: WindowModel, a: ActionModel)
    requires
        is_step(s, m, t, a),
    ensures
        a is Create ==> m is CalendarSubmitCreateEvent,
        a is Update ==> m is CalendarSaveEditEvent,
        a is Delete ==> m is CalendarConfirmDeleteEvent,
        a is Complete ==> m is CalendarToggleTodo,
{
}

} // verus!
