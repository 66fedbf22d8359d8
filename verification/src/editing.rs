//! What the forms of the applet send to the servers.

use crate::event::{clock_text, EventModel};
use crate::forms::{hour_and_minute, is_event_span, time_on};
use crate::roundtrip::filled;
use crate::text::{
    decimal_padded, is_digit, lemma_digits_read, lemma_split_first, lemma_split_one,
    lemma_two_digits, signed_value, trim,
};
use crate::time::{
    date_on, day_number, is_day, is_moment_anywhere, placed, utc_moment, valid_moment, CivilDate,
    CivilTime, Moment, ZoneModel,
};
use crate::config::{CollectionModel, SourceModel};
use crate::todo::TodoModel;
use crate::window::{
    access_to, all_writable, event_with, is_step, todo_with, writable_in, writable_of, AccessModel,
    ActionModel, Message, WindowModel, WritableModel,
};
use vstd::prelude::*;

verus! {

// ── Times that are typed ───────────────────────────────────────────

proof fn lemma_digits_are_trimmed(s: Seq<char>)
    requires
        crate::text::all_digits(s),
        s.len() > 0,
    ensures
        trim(s) == s,
        !s.contains(':'),
        signed_value(s) == Some(crate::text::decimal_value(s) as int),
{
    assert(is_digit(s[0]) && is_digit(s[s.len() - 1]));
    lemma_digits_read(s);
    assert forall|i: int| 0 <= i < s.len() implies s[i] != ':' by {
        assert(is_digit(s[i]));
    }
}

/// An hour and a minute that are typed as numbers with a colon between are read as these.
pub proof fn lemma_typed_time(h: Seq<char>, m: Seq<char>)
    requires
        h.len() > 0,
        m.len() > 0,
        crate::text::all_digits(h),
        crate::text::all_digits(m),
        crate::text::decimal_value(h) <= 23,
        crate::text::decimal_value(m) <= 59,
    ensures
        hour_and_minute(h + seq![':'] + m) == Some(
            (crate::text::decimal_value(h) as int, crate::text::decimal_value(m) as int),
        ),
{
    lemma_digits_are_trimmed(h);
    lemma_digits_are_trimmed(m);
    lemma_split_one(m, ':');
    lemma_split_first(h, ':', m);
}

/// The time of day that is shown of a moment is read as that time of day.
pub proof fn lemma_shown_time_is_read(m: Moment)
    requires
        valid_moment(m),
    ensures
        hour_and_minute(clock_text(m)) == Some((m.local.hour, m.local.minute)),
{
    lemma_two_digits(m.local.hour);
    lemma_two_digits(m.local.minute);
    lemma_typed_time(decimal_padded(m.local.hour, 2), decimal_padded(m.local.minute, 2));
}

// ── Finding ────────────────────────────────────────────────────────

/// Whether the `i`-th event is the first with its identifier.
pub open spec fn is_first_event(events: Seq<EventModel>, i: int) -> bool {
    &&& 0 <= i < events.len()
    &&& forall|j: int| 0 <= j < i ==> (#[trigger] events[j]).uid != events[i].uid
}

pub(crate) proof fn lemma_finds_event(events: Seq<EventModel>, i: int)
    requires
        is_first_event(events, i),
    ensures
        event_with(events, events[i].uid) == Some(events[i]),
    decreases events.len(),
{
    if i > 0 {
        let rest = events.skip(1);
        assert(events[0].uid != events[i].uid);
        assert(rest[i - 1] == events[i]);
        assert forall|j: int| 0 <= j < i - 1 implies (#[trigger] rest[j]).uid != rest[i - 1].uid by {
            assert(rest[j] == events[j + 1]);
        }
        lemma_finds_event(rest, i - 1);
    }
}

/// Whether the `i`-th to-do is the first with its identifier.
pub open spec fn is_first_todo(todos: Seq<TodoModel>, i: int) -> bool {
    &&& 0 <= i < todos.len()
    &&& forall|j: int| 0 <= j < i ==> (#[trigger] todos[j]).uid != todos[i].uid
}

proof fn lemma_finds_todo(todos: Seq<TodoModel>, i: int)
    requires
        is_first_todo(todos, i),
    ensures
        todo_with(todos, todos[i].uid) == Some(todos[i]),
    decreases todos.len(),
{
    if i > 0 {
        let rest = todos.skip(1);
        assert(todos[0].uid != todos[i].uid);
        assert(rest[i - 1] == todos[i]);
        assert forall|j: int| 0 <= j < i - 1 implies (#[trigger] rest[j]).uid != rest[i - 1].uid by {
            assert(rest[j] == todos[j + 1]);
        }
        lemma_finds_todo(rest, i - 1);
    }
}

/// Whether the `i`-th source is the first with an identifier, and a CalDAV source.
pub open spec fn is_server_of(sources: Seq<SourceModel>, id: Seq<char>, i: int) -> bool {
    &&& 0 <= i < sources.len()
    &&& sources[i].id == id
    &&& sources[i].source_type is CalDav
    &&& forall|j: int| 0 <= j < i ==> (#[trigger] sources[j]).id != id
}

/// How a CalDAV source is reached: with its own credentials and its own certificate.
pub open spec fn own_access(source: SourceModel) -> AccessModel {
    AccessModel {
        source_id: source.id,
        auth: source.source_type->CalDav_auth,
        ca_cert_path: source.ca_cert_path,
    }
}

/// A source is reached with its own credentials and its own certificate.
pub proof fn lemma_own_access(sources: Seq<SourceModel>, id: Seq<char>, i: int)
    requires
        is_server_of(sources, id, i),
    ensures
        access_to(sources, id) == Some(own_access(sources[i])),
{
    crate::window::lemma_position_of_source(sources, id, i);
}

/// Whether the event that is viewed is the `i`-th, and it can be changed on the server of the
/// `k`-th source.
pub open spec fn is_viewing(s: WindowModel, i: int, k: int) -> bool {
    &&& is_first_event(s.all_events, i)
    &&& s.viewing_event_uid == Some(s.all_events[i].uid)
    &&& s.all_events[i].href is Some
    &&& s.all_events[i].etag is Some
    &&& is_server_of(s.calendar_config.sources, s.all_events[i].source_id, k)
}

/// The minute of a time.
pub open spec fn minute_of(t: CivilTime) -> CivilTime {
    CivilTime { second: 0, nanosecond: 0, ..t }
}

/// The same minute of the day on another date.
pub open spec fn minute_on(t: CivilTime, d: CivilDate) -> CivilTime {
    CivilTime { date: d, ..minute_of(t) }
}

// ── Changes of an event ────────────────────────────────────────────

/// The form of a change opens with what the event holds: its texts, and its own start and its
/// own end to the minute.
#[verifier::rlimit(30)]
pub proof fn lemma_form_opens(s: WindowModel, t: WindowModel, a: ActionModel, i: int)
    requires
        is_first_event(s.all_events, i),
        s.viewing_event_uid == Some(s.all_events[i].uid),
        is_step(s, Message::CalendarEditEvent, t, a),
        valid_moment(s.all_events[i].dtstart),
        s.all_events[i].dtend is Some,
        valid_moment(s.all_events[i].dtend->0),
    ensures
        ({
            let e = s.all_events[i];
            let end = e.dtend->0.local;
            &&& hour_and_minute(t.form.start_time) == Some(
                (e.dtstart.local.hour, e.dtstart.local.minute),
            )
            &&& hour_and_minute(t.form.end_time) == Some((end.hour, end.minute))
            &&& t.form.all_day == e.all_day
            &&& t.form.summary == e.summary
            &&& e.description is Some ==> t.form.description == e.description->0
            &&& e.description is None ==> t.form.description.len() == 0
            &&& e.location is Some ==> t.form.location == e.location->0
            &&& e.location is None ==> t.form.location.len() == 0
            &&& t == (WindowModel {
                form: t.form,
                editing_event: true,
                editing_event_saving: false,
                ..s
            })
        }),
{
    lemma_finds_event(s.all_events, i);
    lemma_shown_time_is_read(s.all_events[i].dtstart);
    lemma_shown_time_is_read(s.all_events[i].dtend->0);
}

/// An event that is opened for a change and saved without one is sent as it was, with its own
/// ETag to its own address: with the texts that it has, and from the minute at which it
/// starts to the minute at which it ends, in the zone of the machine.
#[verifier::rlimit(50)]
pub proof fn lemma_saved_unchanged(
    s: WindowModel,
    t: WindowModel,
    u: WindowModel,
    a: ActionModel,
    b: ActionModel,
    i: int,
    k: int,
)
    requires
        is_viewing(s, i, k),
        is_step(s, Message::CalendarEditEvent, t, a),
        is_step(t, Message::CalendarSaveEditEvent, u, b),
        !s.all_events[i].all_day,
        valid_moment(s.all_events[i].dtstart),
        s.all_events[i].dtend is Some,
        valid_moment(s.all_events[i].dtend->0),
        is_moment_anywhere(minute_of(s.all_events[i].dtstart.local)),
        is_moment_anywhere(
            minute_on(s.all_events[i].dtend->0.local, s.all_events[i].dtstart.local.date),
        ),
    ensures
        b matches ActionModel::Update { href, etag, event, access } && {
            let e = s.all_events[i];
            &&& href == e.href->0
            &&& etag == e.etag->0
            &&& access == own_access(s.calendar_config.sources[k])
            &&& event == EventModel {
                description: filled(e.description),
                location: filled(e.location),
                dtstart: event.dtstart,
                dtend: event.dtend,
                ..e
            }
            &&& placed(minute_of(e.dtstart.local), ZoneModel::System, Some(event.dtstart))
            &&& event.dtend is Some
            &&& placed(
                minute_on(e.dtend->0.local, e.dtstart.local.date),
                ZoneModel::System,
                event.dtend,
            )
        },
{
    let e = s.all_events[i];
    lemma_finds_event(s.all_events, i);
    lemma_own_access(s.calendar_config.sources, e.source_id, k);
    lemma_shown_time_is_read(e.dtstart);
    lemma_shown_time_is_read(e.dtend->0);
    let d = e.dtstart.local.date;
    let x = minute_of(e.dtstart.local);
    let y = minute_on(e.dtend->0.local, d);
    assert(time_on(d, e.dtstart.local.hour, e.dtstart.local.minute) == x);
    assert(time_on(d, e.dtend->0.local.hour, e.dtend->0.local.minute) == y);
    assert forall|p: Option<Moment>, q: Option<Moment>|
        #![trigger is_event_span(d, false, t.form.start_time, t.form.end_time, p, q)]
        is_event_span(d, false, t.form.start_time, t.form.end_time, p, q) implies placed(
        x,
        ZoneModel::System,
        p,
    ) && placed(y, ZoneModel::System, q) && p is Some && q is Some by {}
}

/// An all-day event that is opened for a change and saved without one is sent from midnight
/// to midnight of universal time: its own day.
#[verifier::rlimit(50)]
pub proof fn lemma_day_saved_unchanged(
    s: WindowModel,
    t: WindowModel,
    u: WindowModel,
    a: ActionModel,
    b: ActionModel,
    i: int,
    k: int,
)
    requires
        is_viewing(s, i, k),
        is_step(s, Message::CalendarEditEvent, t, a),
        is_step(t, Message::CalendarSaveEditEvent, u, b),
        s.all_events[i].all_day,
        valid_moment(s.all_events[i].dtstart),
        is_day(day_number(s.all_events[i].dtstart.local.date) + 1),
        utc_moment(time_on(s.all_events[i].dtstart.local.date, 0, 0)) is Some,
        utc_moment(
            time_on(date_on(day_number(s.all_events[i].dtstart.local.date) + 1), 0, 0),
        ) is Some,
    ensures
        b matches ActionModel::Update { href, etag, event, access } && {
            let e = s.all_events[i];
            let d = e.dtstart.local.date;
            &&& href == e.href->0
            &&& etag == e.etag->0
            &&& access == own_access(s.calendar_config.sources[k])
            &&& event == EventModel {
                description: filled(e.description),
                location: filled(e.location),
                dtstart: utc_moment(time_on(d, 0, 0))->0,
                dtend: utc_moment(time_on(date_on(day_number(d) + 1), 0, 0)),
                ..e
            }
        },
{
    let e = s.all_events[i];
    lemma_finds_event(s.all_events, i);
    lemma_own_access(s.calendar_config.sources, e.source_id, k);
    let d = e.dtstart.local.date;
    assert(crate::forms::day_after(d) == date_on(day_number(d) + 1));
    assert forall|p: Option<Moment>, q: Option<Moment>|
        #![trigger is_event_span(d, true, t.form.start_time, t.form.end_time, p, q)]
        is_event_span(d, true, t.form.start_time, t.form.end_time, p, q) implies p is Some
        && q is Some by {}
}

/// What is typed while an event is changed is what is sent: summary, description, location,
/// start and end.
#[verifier::rlimit(50)]
pub proof fn lemma_saved_as_typed(s: WindowModel, u: WindowModel, b: ActionModel, i: int, k: int)
    requires
        is_viewing(s, i, k),
        is_step(s, Message::CalendarSaveEditEvent, u, b),
        b !is Nothing,
    ensures
        b matches ActionModel::Update { href, etag, event, access } && {
            let e = s.all_events[i];
            &&& href == e.href->0
            &&& etag == e.etag->0
            &&& access == own_access(s.calendar_config.sources[k])
            &&& event.uid == e.uid
            &&& event.summary == s.form.summary
            &&& event.description == filled(Some(s.form.description))
            &&& event.location == filled(Some(s.form.location))
            &&& event.all_day == s.form.all_day
            &&& event.rrule == e.rrule
            &&& event.exdates == e.exdates
            &&& event.rdates == e.rdates
            &&& event.url == e.url
            &&& !s.form.all_day ==> match (
                hour_and_minute(s.form.start_time),
                hour_and_minute(s.form.end_time),
            ) {
                (Some((h, m)), Some((x, y))) => {
                    let d = e.dtstart.local.date;
                    &&& placed(time_on(d, h, m), ZoneModel::System, Some(event.dtstart))
                    &&& placed(time_on(d, x, y), ZoneModel::System, event.dtend)
                },
                _ => true,
            }
        },
{
    lemma_finds_event(s.all_events, i);
    lemma_own_access(s.calendar_config.sources, s.all_events[i].source_id, k);
}

/// An event that is viewed and whose deletion is asked for and confirmed is deleted: with its
/// own ETag, at its own address.
#[verifier::rlimit(50)]
pub proof fn lemma_confirmed_is_deleted(
    s: WindowModel,
    t: WindowModel,
    u: WindowModel,
    a: ActionModel,
    b: ActionModel,
    i: int,
    k: int,
)
    requires
        is_viewing(s, i, k),
        is_step(s, Message::CalendarDeleteEvent, t, a),
        is_step(t, Message::CalendarConfirmDeleteEvent, u, b),
    ensures
        a == ActionModel::Nothing,
        t.confirming_delete,
        u.deleting_event,
        b == (ActionModel::Delete {
            href: s.all_events[i].href->0,
            etag: s.all_events[i].etag->0,
            access: own_access(s.calendar_config.sources[k]),
        }),
{
    lemma_finds_event(s.all_events, i);
    lemma_own_access(s.calendar_config.sources, s.all_events[i].source_id, k);
}

/// A to-do that is ticked off is sent to its own server with its own ETag.
#[verifier::rlimit(50)]
pub proof fn lemma_ticked_off(
    s: WindowModel,
    uid: String,
    t: WindowModel,
    a: ActionModel,
    i: int,
    k: int,
)
    requires
        is_first_todo(s.calendar_todos, i),
        s.calendar_todos[i].uid == uid@,
        s.calendar_todos[i].href is Some,
        s.calendar_todos[i].etag is Some,
        is_server_of(s.calendar_config.sources, s.calendar_todos[i].source_id, k),
        is_step(s, Message::CalendarToggleTodo(uid), t, a),
    ensures
        t == s,
        a == (ActionModel::Complete {
            href: s.calendar_todos[i].href->0,
            etag: s.calendar_todos[i].etag->0,
            todo: s.calendar_todos[i],
            access: own_access(s.calendar_config.sources[k]),
        }),
{
    lemma_finds_todo(s.calendar_todos, i);
    lemma_own_access(s.calendar_config.sources, s.calendar_todos[i].source_id, k);
}

// ── New events ─────────────────────────────────────────────────────

/// Whether events can be put into a calendar: it is an enabled one of an enabled CalDAV
/// source.
pub open spec fn is_writable(sources: Seq<SourceModel>, i: int, j: int) -> bool {
    &&& 0 <= i < sources.len()
    &&& sources[i].enabled
    &&& sources[i].source_type is CalDav
    &&& 0 <= j < sources[i].source_type->CalDav_calendars.len()
    &&& sources[i].source_type->CalDav_calendars[j].enabled
}

/// How a calendar is offered: by its source, its address and the names of both.
pub open spec fn offer(source: SourceModel, c: CollectionModel) -> WritableModel {
    (source.id, c.href, source.name + " / "@ + c.display_name)
}

proof fn lemma_writable_in(source: SourceModel, calendars: Seq<CollectionModel>, w: WritableModel)
    ensures
        writable_in(source, calendars).contains(w) <==> exists|j: int|
            0 <= j < calendars.len() && (#[trigger] calendars[j]).enabled && w == offer(
                source,
                calendars[j],
            ),
    decreases calendars.len(),
{
    let r = writable_in(source, calendars);
    if calendars.len() > 0 {
        let n = calendars.len() - 1;
        let front = calendars.drop_last();
        let before = writable_in(source, front);
        lemma_writable_in(source, front, w);
        if r.contains(w) {
            let i = choose|i: int| 0 <= i < r.len() && r[i] == w;
            if i < before.len() {
                assert(before[i] == w);
                assert(before.contains(w));
                let j = choose|j: int|
                    0 <= j < front.len() && (#[trigger] front[j]).enabled && w == offer(
                        source,
                        front[j],
                    );
                assert(calendars[j] == front[j]);
            } else {
                assert(calendars[n].enabled && w == offer(source, calendars[n]));
            }
        }
        if exists|j: int|
            0 <= j < calendars.len() && (#[trigger] calendars[j]).enabled && w == offer(
                source,
                calendars[j],
            ) {
            let j = choose|j: int|
                0 <= j < calendars.len() && (#[trigger] calendars[j]).enabled && w == offer(
                    source,
                    calendars[j],
                );
            if j < front.len() {
                assert(front[j] == calendars[j]);
                assert(before.contains(w));
                let i = choose|i: int| 0 <= i < before.len() && before[i] == w;
                assert(r[i] == w);
            } else {
                assert(r[before.len() as int] == w);
            }
        }
    }
}

/// Events can be put into exactly the enabled calendars of the enabled CalDAV sources.
pub proof fn lemma_offered(sources: Seq<SourceModel>, w: WritableModel)
    ensures
        all_writable(sources).contains(w) <==> exists|i: int, j: int| #[trigger]
            is_writable(sources, i, j) && w == offer(
                sources[i],
                sources[i].source_type->CalDav_calendars[j],
            ),
    decreases sources.len(),
{
    let r = all_writable(sources);
    if sources.len() > 0 {
        let n = sources.len() - 1;
        let front = sources.drop_last();
        let last = sources.last();
        let a = all_writable(front);
        let b = writable_of(last);
        lemma_offered(front, w);
        if last.source_type is CalDav {
            lemma_writable_in(last, last.source_type->CalDav_calendars, w);
        }
        if r.contains(w) {
            let x = choose|x: int| 0 <= x < r.len() && r[x] == w;
            if x < a.len() {
                assert(a[x] == w);
                assert(a.contains(w));
                let (i, j) = choose|i: int, j: int| #[trigger]
                    is_writable(front, i, j) && w == offer(
                        front[i],
                        front[i].source_type->CalDav_calendars[j],
                    );
                assert(sources[i] == front[i]);
                assert(is_writable(sources, i, j));
            } else {
                assert(b[x - a.len()] == w);
                assert(b.contains(w));
                let calendars = last.source_type->CalDav_calendars;
                let j = choose|j: int|
                    0 <= j < calendars.len() && (#[trigger] calendars[j]).enabled && w == offer(
                        last,
                        calendars[j],
                    );
                assert(is_writable(sources, n, j));
            }
        }
        if exists|i: int, j: int| #[trigger]
            is_writable(sources, i, j) && w == offer(
                sources[i],
                sources[i].source_type->CalDav_calendars[j],
            ) {
            let (i, j) = choose|i: int, j: int| #[trigger]
                is_writable(sources, i, j) && w == offer(
                    sources[i],
                    sources[i].source_type->CalDav_calendars[j],
                );
            if i < n {
                assert(front[i] == sources[i]);
                assert(is_writable(front, i, j));
                assert(a.contains(w));
                let x = choose|x: int| 0 <= x < a.len() && a[x] == w;
                assert(r[x] == w);
            } else {
                let calendars = last.source_type->CalDav_calendars;
                assert(calendars[j].enabled && w == offer(last, calendars[j]));
                assert(b.contains(w));
                let x = choose|x: int| 0 <= x < b.len() && b[x] == w;
                assert(r[a.len() + x] == w);
            }
        }
    }
}

/// A form for a new event is blank but for what is typed: nothing of an event that was edited
/// before is in it. Summary and whether it lasts all day are those that were typed.
#[verifier::rlimit(30)]
pub proof fn lemma_form_begun(
    s: WindowModel,
    t: WindowModel,
    u: WindowModel,
    v: WindowModel,
    a: Seq<ActionModel>,
    summary: String,
    all_day: bool,
)
    requires
        is_step(s, Message::CalendarStartCreateEvent, t, a[0]),
        is_step(t, Message::CalFormEventSummary(summary), u, a[1]),
        is_step(u, Message::CalFormEventAllDay(all_day), v, a[2]),
    ensures
        v.form.summary == summary@,
        v.form.all_day == all_day,
        v.form.description.len() == 0,
        v.form.location.len() == 0,
        v == (WindowModel {
            form: v.form,
            creating_event: true,
            creating_event_saving: false,
            ..s
        }),
{
}

/// Start, end and calendar are those that were typed; what was typed before stays.
#[verifier::rlimit(30)]
pub proof fn lemma_form_ended(
    s: WindowModel,
    t: WindowModel,
    u: WindowModel,
    v: WindowModel,
    a: Seq<ActionModel>,
    start: String,
    end: String,
    calendar: usize,
)
    requires
        is_step(s, Message::CalFormEventStartTime(start), t, a[3]),
        is_step(t, Message::CalFormEventEndTime(end), u, a[4]),
        is_step(u, Message::CalFormEventCalendar(calendar), v, a[5]),
    ensures
        v.form.start_time == start@,
        v.form.end_time == end@,
        v.form.calendar_idx == calendar,
        v.form.summary == s.form.summary,
        v.form.all_day == s.form.all_day,
        v == (WindowModel { form: v.form, ..s }),
{
}

/// What the form of a new event holds is what is created: in the calendar that is chosen, on
/// the date that is selected, with the summary and from the start to the end that were typed.
#[verifier::rlimit(50)]
pub proof fn lemma_form_is_created(s: WindowModel, t: WindowModel, a: ActionModel, k: int)
    requires
        is_step(s, Message::CalendarSubmitCreateEvent, t, a),
        0 <= s.form.calendar_idx < all_writable(s.calendar_config.sources).len(),
        is_server_of(
            s.calendar_config.sources,
            all_writable(s.calendar_config.sources)[s.form.calendar_idx].0,
            k,
        ),
        a !is Nothing,
    ensures
        t.creating_event_saving,
        a matches ActionModel::Create { calendar_href, event, access } && {
            let w = all_writable(s.calendar_config.sources)[s.form.calendar_idx];
            let d = s.date_selected;
            &&& calendar_href == w.1
            &&& access == own_access(s.calendar_config.sources[k])
            &&& event.source_id == w.0
            &&& event.summary == s.form.summary
            &&& event.all_day == s.form.all_day
            &&& event.description is None
            &&& event.location is None
            &&& event.rrule is None
            &&& event.etag is None
            &&& event.href is None
            &&& s.form.all_day ==> Some(event.dtstart) == utc_moment(time_on(d, 0, 0))
            &&& !s.form.all_day ==> match (
                hour_and_minute(s.form.start_time),
                hour_and_minute(s.form.end_time),
            ) {
                (Some((h, m)), Some((x, y))) => {
                    &&& placed(time_on(d, h, m), ZoneModel::System, Some(event.dtstart))
                    &&& placed(time_on(d, x, y), ZoneModel::System, event.dtend)
                },
                _ => true,
            }
        },
{
    let w = all_writable(s.calendar_config.sources)[s.form.calendar_idx];
    lemma_own_access(s.calendar_config.sources, w.0, k);
}

// ── Times that cannot be read ──────────────────────────────────────

/// Nine and ten o'clock stand in for times that cannot be read.
pub proof fn lemma_default_times(
    d: CivilDate,
    start: Seq<char>,
    end: Seq<char>,
    p: Option<Moment>,
    q: Option<Moment>,
)
    requires
        is_event_span(d, false, start, end, p, q),
    ensures
        hour_and_minute(start) is None ==> placed(
            CivilTime { date: d, hour: 9, minute: 0, second: 0, nanosecond: 0 },
            ZoneModel::System,
            p,
        ),
        hour_and_minute(end) is None ==> placed(
            CivilTime { date: d, hour: 10, minute: 0, second: 0, nanosecond: 0 },
            ZoneModel::System,
            q,
        ),
{
}

/// A text without a colon writes no time.
pub proof fn lemma_no_time(s: Seq<char>)
    requires
        !s.contains(':'),
    ensures
        hour_and_minute(s) is None,
{
    lemma_split_one(s, ':');
}

/// An hour beyond 23 or a minute beyond 59 writes no time.
pub proof fn lemma_no_such_time(h: Seq<char>, m: Seq<char>)
    requires
        h.len() > 0,
        m.len() > 0,
        crate::text::all_digits(h),
        crate::text::all_digits(m),
        crate::text::decimal_value(h) > 23 || crate::text::decimal_value(m) > 59,
    ensures
        hour_and_minute(h + seq![':'] + m) is None,
{
    lemma_digits_are_trimmed(h);
    lemma_digits_are_trimmed(m);
    lemma_split_one(m, ':');
    lemma_split_first(h, ':', m);
}

/// A to-do that is due on a date without a time is due at midnight of universal time; with a
/// time, at that time in the zone of the machine.
pub proof fn lemma_due(d: CivilDate, h: Seq<char>, m: Seq<char>, r: Option<Moment>)
    requires
        crate::time::valid_date(d),
        d.year >= 0,
        h.len() > 0,
        m.len() > 0,
        crate::text::all_digits(h),
        crate::text::all_digits(m),
        crate::text::decimal_value(h) <= 23,
        crate::text::decimal_value(m) <= 59,
    ensures
        crate::forms::is_due(crate::cache::date_text(d), Seq::empty(), r) ==> r == utc_moment(
            CivilTime { date: d, hour: 0, minute: 0, second: 0, nanosecond: 0 },
        ),
        crate::forms::is_due(crate::cache::date_text(d), h + seq![':'] + m, r) ==> placed(
            CivilTime {
                date: d,
                hour: crate::text::decimal_value(h) as int,
                minute: crate::text::decimal_value(m) as int,
                second: 0,
                nanosecond: 0,
            },
            ZoneModel::System,
            r,
        ),
{
    crate::cache::lemma_date_text(d);
    lemma_typed_time(h, m);
}

} // verus!
