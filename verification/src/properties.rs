//! What the properties of a component make of an event or a to-do.

use crate::component::{first_named, param_of, value_of, CalendarModel, PropertyModel};
use crate::datetime::{stands_for, written_time};
use crate::escape::{escaped, lemma_unescape_inverts_escape, unescaped};
use crate::event::{ics_day, ics_stamp, EventModel};
use crate::ics::{all_events, are_events_of, is_event_of, is_moment_of, or_empty, plain_text};
use crate::reading::{is_writing_of, lemma_writing_is_read};
use crate::roundtrip::{lemma_day_is_plain, lemma_stamp_is_plain};
use crate::text::{decimal, lemma_digits_of};
use crate::time::{civil_second, is_moment_anywhere, valid_time, CivilTime, Moment, ZoneModel};
use crate::todo::{all_todos, are_todos_of, is_todo_of, priority_of, TodoModel};
use vstd::prelude::*;

verus! {

// ── Finding a property ─────────────────────────────────────────────

/// Whether the `i`-th property is the first with a name, and has a value.
pub open spec fn is_said(
    props: Seq<PropertyModel>,
    name: Seq<char>,
    i: int,
    value: Seq<char>,
) -> bool {
    &&& 0 <= i < props.len()
    &&& props[i].name == name
    &&& props[i].value == Some(value)
    &&& forall|j: int| 0 <= j < i ==> (#[trigger] props[j]).name != name
}

/// Whether no property has a name.
pub open spec fn is_unsaid(props: Seq<PropertyModel>, name: Seq<char>) -> bool {
    forall|j: int| 0 <= j < props.len() ==> (#[trigger] props[j]).name != name
}

/// The first property with a name is the one that counts, wherever it stands.
pub proof fn lemma_said(props: Seq<PropertyModel>, name: Seq<char>, i: int, value: Seq<char>)
    requires
        is_said(props, name, i, value),
    ensures
        first_named(props, name) == Some(props[i]),
        value_of(props, name) == Some(value),
    decreases props.len(),
{
    if i > 0 {
        assert(props[0].name != name);
        let rest = props.skip(1);
        assert(rest[i - 1] == props[i]);
        assert forall|j: int| 0 <= j < i - 1 implies (#[trigger] rest[j]).name != name by {
            assert(rest[j] == props[j + 1]);
        }
        lemma_said(rest, name, i - 1, value);
    }
}

/// Where no property has a name, none is found.
pub proof fn lemma_unsaid(props: Seq<PropertyModel>, name: Seq<char>)
    requires
        is_unsaid(props, name),
    ensures
        first_named(props, name) is None,
        value_of(props, name) is None,
    decreases props.len(),
{
    if props.len() > 0 {
        assert(props[0].name != name);
        let rest = props.skip(1);
        assert forall|j: int| 0 <= j < rest.len() implies (#[trigger] rest[j]).name != name by {
            assert(rest[j] == props[j + 1]);
        }
        lemma_unsaid(rest, name);
    }
}

// ── Texts ──────────────────────────────────────────────────────────

/// Whether properties say a text: escaped, in the first one with the name.
pub open spec fn says(
    props: Seq<PropertyModel>,
    name: Seq<char>,
    i: int,
    text: Option<Seq<char>>,
) -> bool {
    match text {
        Some(text) => is_said(props, name, i, escaped(text)),
        None => is_unsaid(props, name),
    }
}

/// Whether properties say a value as it is.
pub open spec fn says_plainly(
    props: Seq<PropertyModel>,
    name: Seq<char>,
    i: int,
    value: Option<Seq<char>>,
) -> bool {
    match value {
        Some(value) => is_said(props, name, i, value),
        None => is_unsaid(props, name),
    }
}

proof fn lemma_says(props: Seq<PropertyModel>, name: Seq<char>, i: int, text: Option<Seq<char>>)
    requires
        says(props, name, i, text),
    ensures
        plain_text(value_of(props, name)) == text,
        text is Some ==> unescaped(or_empty(value_of(props, name))) == text->0,
        text is None ==> unescaped(or_empty(value_of(props, name))).len() == 0,
{
    if let Some(t) = text {
        lemma_said(props, name, i, escaped(t));
        lemma_unescape_inverts_escape(t);
    } else {
        lemma_unsaid(props, name);
    }
}

proof fn lemma_says_plainly(
    props: Seq<PropertyModel>,
    name: Seq<char>,
    i: int,
    value: Option<Seq<char>>,
)
    requires
        says_plainly(props, name, i, value),
    ensures
        value_of(props, name) == value,
{
    if let Some(v) = value {
        lemma_said(props, name, i, v);
    } else {
        lemma_unsaid(props, name);
    }
}

/// An event says what its properties say, in whatever order they stand and whatever other
/// properties there are: its identifier, its address and its rule as they are written, its
/// summary, its description and its location with the escapes undone. What is not said is
/// not there. It belongs to the source, has the color that is given and is not known to a
/// server.
pub proof fn lemma_event_says(
    props: Seq<PropertyModel>,
    source_id: Seq<char>,
    color: Seq<char>,
    e: EventModel,
    at: Seq<int>,
    uid: Seq<char>,
    summary: Seq<char>,
    description: Option<Seq<char>>,
    location: Option<Seq<char>>,
    url: Option<Seq<char>>,
    rrule: Option<Seq<char>>,
)
    requires
        is_event_of(props, source_id, color, Some(e)),
        at.len() == 6,
        says_plainly(props, "UID"@, at[0], Some(uid)),
        says(props, "SUMMARY"@, at[1], Some(summary)),
        says(props, "DESCRIPTION"@, at[2], description),
        says(props, "LOCATION"@, at[3], location),
        says_plainly(props, "URL"@, at[4], url),
        says_plainly(props, "RRULE"@, at[5], rrule),
    ensures
        e.uid == uid,
        e.summary == summary,
        e.description == description,
        e.location == location,
        e.url == url,
        e.rrule == rrule,
        e.source_id == source_id,
        e.color == color,
        e.etag is None,
        e.href is None,
{
    lemma_says_plainly(props, "UID"@, at[0], Some(uid));
    lemma_says(props, "SUMMARY"@, at[1], Some(summary));
    lemma_says(props, "DESCRIPTION"@, at[2], description);
    lemma_says(props, "LOCATION"@, at[3], location);
    lemma_says_plainly(props, "URL"@, at[4], url);
    lemma_says_plainly(props, "RRULE"@, at[5], rrule);
}

// ── Times ──────────────────────────────────────────────────────────

/// What a property with a time of universal time, or with a date, stands for: that time, or
/// midnight of that date.
proof fn lemma_said_time(
    props: Seq<PropertyModel>,
    name: Seq<char>,
    i: int,
    value: Seq<char>,
    t: CivilTime,
    m: Option<Moment>,
)
    requires
        is_said(props, name, i, value),
        is_writing_of(value, t),
        is_moment_of(props, name, m),
    ensures
        m is Some,
        m->0.zone == ZoneModel::Utc,
        m->0.offset == 0,
        value == ics_stamp(t) ==> m->0.local == (CivilTime { nanosecond: 0, ..t }),
        value == ics_day(t.date) ==> m->0.local == (CivilTime {
            date: t.date,
            hour: 0,
            minute: 0,
            second: 0,
            nanosecond: 0,
        }),
{
    lemma_said(props, name, i, value);
    let tzid = param_of(props[i], "TZID"@);
    assert(stands_for(written_time(value), value, tzid, m));
    lemma_writing_is_read(value, t, tzid, m);
    lemma_day_is_plain(t.date);
    lemma_stamp_is_plain(t);
    crate::datetime::lemma_plain_bytes(value);
}

/// An event starts and ends when its properties say: at a time of universal time, or at
/// midnight of a date. It lasts all day if and only if its start is a date. An event that has
/// an identifier and such a start is read.
pub proof fn lemma_event_times(
    props: Seq<PropertyModel>,
    source_id: Seq<char>,
    color: Seq<char>,
    r: Option<EventModel>,
    at: Seq<int>,
    uid: Seq<char>,
    start: Seq<char>,
    t: CivilTime,
    end: Seq<char>,
    u: CivilTime,
)
    requires
        is_event_of(props, source_id, color, r),
        at.len() == 3,
        is_said(props, "UID"@, at[0], uid),
        is_said(props, "DTSTART"@, at[1], start),
        is_writing_of(start, t),
        is_said(props, "DTEND"@, at[2], end) && is_writing_of(end, u) || is_unsaid(props, "DTEND"@),
    ensures
        r is Some,
        start == ics_stamp(t) ==> !r->0.all_day && r->0.dtstart.local == (CivilTime {
            nanosecond: 0,
            ..t
        }),
        start == ics_day(t.date) ==> r->0.all_day && r->0.dtstart.local == (CivilTime {
            date: t.date,
            hour: 0,
            minute: 0,
            second: 0,
            nanosecond: 0,
        }),
        r->0.dtstart.zone == ZoneModel::Utc,
        is_unsaid(props, "DTEND"@) ==> r->0.dtend is None,
        !is_unsaid(props, "DTEND"@) ==> {
            &&& r->0.dtend is Some
            &&& r->0.dtend->0.zone == ZoneModel::Utc
            &&& end == ics_stamp(u) ==> r->0.dtend->0.local == (CivilTime { nanosecond: 0, ..u })
            &&& end == ics_day(u.date) ==> r->0.dtend->0.local == (CivilTime {
                date: u.date,
                hour: 0,
                minute: 0,
                second: 0,
                nanosecond: 0,
            })
        },
{
    lemma_said(props, "UID"@, at[0], uid);
    lemma_said(props, "DTSTART"@, at[1], start);
    if is_moment_of(props, "DTSTART"@, None) {
        lemma_said_time(props, "DTSTART"@, at[1], start, t, None);
    }
    let e = r->0;
    lemma_said_time(props, "DTSTART"@, at[1], start, t, Some(e.dtstart));
    lemma_day_is_plain(t.date);
    lemma_stamp_is_plain(t);
    crate::datetime::lemma_plain_bytes(start);
    if is_unsaid(props, "DTEND"@) {
        lemma_unsaid(props, "DTEND"@);
    } else {
        lemma_said_time(props, "DTEND"@, at[2], end, u, e.dtend);
    }
}

/// A local time as iCalendar writes it: as one of universal time, without the last letter.
pub open spec fn local_stamp(t: CivilTime) -> Seq<char> {
    ics_stamp(t).take(15)
}

/// A local time without the name of a zone stands for that time of universal time. With the
/// name of a zone it stands in the zone that is found under this name, for that time or for
/// a later one where the zone skips it; where no zone is found, it stands for none.
pub proof fn lemma_local_time(t: CivilTime, tzid: Option<Seq<char>>, m: Option<Moment>)
    requires
        valid_time(t),
        0 <= t.date.year,
        t.nanosecond == 0,
        is_moment_anywhere(t),
        stands_for(written_time(local_stamp(t)), local_stamp(t), tzid, m),
    ensures
        tzid is None ==> m == Some(Moment { local: t, offset: 0, zone: ZoneModel::Utc }),
        tzid is Some && m is Some ==> {
            &&& m->0.zone is Named
            &&& m->0.zone->Named_0.name == tzid->0
            &&& civil_second(m->0.local) >= civil_second(t)
        },
{
    let v = local_stamp(t);
    let s = ics_stamp(t);
    lemma_stamp_is_plain(t);
    assert(s.len() == 16);
    assert(v.subrange(0, 4) =~= s.subrange(0, 4));
    assert(v.subrange(4, 6) =~= s.subrange(4, 6));
    assert(v.subrange(6, 8) =~= s.subrange(6, 8));
    assert(v.subrange(9, 11) =~= s.subrange(9, 11));
    assert(v.subrange(11, 13) =~= s.subrange(11, 13));
    assert(v.subrange(13, 15) =~= s.subrange(13, 15));
    assert(crate::datetime::is_plain_datetime(v));
    assert(crate::datetime::plain_datetime(v) == t);
    crate::datetime::lemma_plain_bytes(v);
    assert(crate::text::is_digit(v.subrange(9, 15)[5]));
    assert(v.last() == v.subrange(9, 15)[5]);
}

// ── To-dos ─────────────────────────────────────────────────────────

/// A to-do says what its properties say. It is completed if and only if its status is
/// `COMPLETED`, and due when it says so, at a time of universal time or at midnight of a
/// date. One that has an identifier is read.
pub proof fn lemma_todo_says(
    props: Seq<PropertyModel>,
    source_id: Seq<char>,
    color: Seq<char>,
    r: Option<TodoModel>,
    at: Seq<int>,
    uid: Seq<char>,
    summary: Seq<char>,
    description: Option<Seq<char>>,
    status: Option<Seq<char>>,
    priority: Option<u32>,
    due: Seq<char>,
    t: CivilTime,
)
    requires
        is_todo_of(props, source_id, color, r),
        at.len() == 6,
        says_plainly(props, "UID"@, at[0], Some(uid)),
        says(props, "SUMMARY"@, at[1], Some(summary)),
        says(props, "DESCRIPTION"@, at[2], description),
        says_plainly(props, "STATUS"@, at[3], status),
        match priority {
            Some(n) => is_said(props, "PRIORITY"@, at[4], decimal(n as int)),
            None => is_unsaid(props, "PRIORITY"@),
        },
        is_said(props, "DUE"@, at[5], due) && is_writing_of(due, t) || is_unsaid(props, "DUE"@),
    ensures
        r is Some,
        r->0.uid == uid,
        r->0.summary == summary,
        r->0.description == description,
        r->0.completed <==> status == Some("COMPLETED"@),
        r->0.priority == priority,
        r->0.source_id == source_id,
        r->0.color == color,
        r->0.etag is None,
        r->0.href is None,
        is_unsaid(props, "DUE"@) ==> r->0.due is None,
        !is_unsaid(props, "DUE"@) ==> {
            &&& r->0.due is Some
            &&& r->0.due->0.zone == ZoneModel::Utc
            &&& due == ics_stamp(t) ==> r->0.due->0.local == (CivilTime { nanosecond: 0, ..t })
            &&& due == ics_day(t.date) ==> r->0.due->0.local == (CivilTime {
                date: t.date,
                hour: 0,
                minute: 0,
                second: 0,
                nanosecond: 0,
            })
        },
{
    lemma_says_plainly(props, "UID"@, at[0], Some(uid));
    lemma_says(props, "SUMMARY"@, at[1], Some(summary));
    lemma_says(props, "DESCRIPTION"@, at[2], description);
    lemma_says_plainly(props, "STATUS"@, at[3], status);
    reveal_strlit("COMPLETED");
    assert("COMPLETED"@.len() == 9);
    if let Some(n) = priority {
        lemma_said(props, "PRIORITY"@, at[4], decimal(n as int));
        lemma_priority(n);
    } else {
        lemma_unsaid(props, "PRIORITY"@);
    }
    if is_unsaid(props, "DUE"@) {
        lemma_unsaid(props, "DUE"@);
    } else {
        lemma_said_time(props, "DUE"@, at[5], due, t, r->0.due);
    }
}

proof fn lemma_priority(n: u32)
    ensures
        priority_of(Some(decimal(n as int))) == Some(n),
{
    lemma_digits_of(n as nat);
    let s = decimal(n as int);
    assert(crate::text::is_digit(s[0]));
}

// ── Documents ──────────────────────────────────────────────────────

/// The components of the calendars of a document count one after the other; a calendar that
/// cannot be read takes nothing from the others.
pub proof fn lemma_calendars_count(
    a: Seq<Option<CalendarModel>>,
    b: Seq<Option<CalendarModel>>,
    c: CalendarModel,
)
    ensures
        all_events(a + b) == all_events(a) + all_events(b),
        all_todos(a + b) == all_todos(a) + all_todos(b),
        all_events(seq![Some(c)]) == c.events,
        all_todos(seq![Some(c)]) == c.todos,
        all_events(seq![None::<CalendarModel>]).len() == 0,
        all_todos(seq![None::<CalendarModel>]).len() == 0,
    decreases b.len(),
{
    let one = seq![Some(c)];
    let bad = seq![None::<CalendarModel>];
    let none = Seq::<Option<CalendarModel>>::empty();
    assert(one.drop_last() =~= none);
    assert(bad.drop_last() =~= none);
    assert(one.last() == Some(c));
    assert(all_events(none) =~= Seq::<Seq<PropertyModel>>::empty());
    assert(all_todos(none) =~= Seq::<Seq<PropertyModel>>::empty());
    assert(all_events(one) =~= c.events);
    assert(all_todos(one) =~= c.todos);
    if b.len() == 0 {
        assert(a + b =~= a);
        assert(all_events(a + b) =~= all_events(a) + all_events(b));
        assert(all_todos(a + b) =~= all_todos(a) + all_todos(b));
    } else {
        assert((a + b).drop_last() =~= a + b.drop_last());
        lemma_calendars_count(a, b.drop_last(), c);
        assert(all_events(a + b) =~= all_events(a) + all_events(b));
        assert(all_todos(a + b) =~= all_todos(a) + all_todos(b));
    }
}

/// Every component that describes an event gives it: one for each, in their order.
pub proof fn lemma_every_event_is_read(
    components: Seq<Seq<PropertyModel>>,
    source_id: Seq<char>,
    color: Seq<char>,
    out: Seq<EventModel>,
)
    requires
        are_events_of(components, source_id, color, out),
        forall|i: int|
            0 <= i < components.len() ==> !is_event_of(
                #[trigger] components[i],
                source_id,
                color,
                None,
            ),
    ensures
        out.len() == components.len(),
        forall|i: int|
            0 <= i < components.len() ==> is_event_of(
                #[trigger] components[i],
                source_id,
                color,
                Some(out[i]),
            ),
    decreases components.len(),
{
    if components.len() > 0 {
        let n = components.len() - 1;
        let front = components.drop_last();
        assert(!is_event_of(components[n], source_id, color, None));
        assert forall|i: int| 0 <= i < front.len() implies !is_event_of(
            #[trigger] front[i],
            source_id,
            color,
            None,
        ) by {
            assert(front[i] == components[i]);
        }
        lemma_every_event_is_read(front, source_id, color, out.drop_last());
        assert forall|i: int| 0 <= i < components.len() implies is_event_of(
            #[trigger] components[i],
            source_id,
            color,
            Some(out[i]),
        ) by {
            if i < n {
                assert(front[i] == components[i]);
                assert(out.drop_last()[i] == out[i]);
            }
        }
    }
}

/// Every component that describes a to-do gives it: one for each, in their order.
pub proof fn lemma_every_todo_is_read(
    components: Seq<Seq<PropertyModel>>,
    source_id: Seq<char>,
    color: Seq<char>,
    out: Seq<TodoModel>,
)
    requires
        are_todos_of(components, source_id, color, out),
        forall|i: int|
            0 <= i < components.len() ==> !is_todo_of(
                #[trigger] components[i],
                source_id,
                color,
                None,
            ),
    ensures
        out.len() == components.len(),
        forall|i: int|
            0 <= i < components.len() ==> is_todo_of(
                #[trigger] components[i],
                source_id,
                color,
                Some(out[i]),
            ),
    decreases components.len(),
{
    if components.len() > 0 {
        let n = components.len() - 1;
        let front = components.drop_last();
        assert(!is_todo_of(components[n], source_id, color, None));
        assert forall|i: int| 0 <= i < front.len() implies !is_todo_of(
            #[trigger] front[i],
            source_id,
            color,
            None,
        ) by {
            assert(front[i] == components[i]);
        }
        lemma_every_todo_is_read(front, source_id, color, out.drop_last());
        assert forall|i: int| 0 <= i < components.len() implies is_todo_of(
            #[trigger] components[i],
            source_id,
            color,
            Some(out[i]),
        ) by {
            if i < n {
                assert(front[i] == components[i]);
                assert(out.drop_last()[i] == out[i]);
            }
        }
    }
}

// ── Zones ──────────────────────────────────────────────────────────

/// Whether the `j`-th parameter of a property is the first `TZID`, and names a zone.
pub open spec fn names_zone(p: PropertyModel, j: int, name: Seq<char>) -> bool {
    &&& p.params is Some
    &&& 0 <= j < p.params->0.len()
    &&& p.params->0[j].0 == "TZID"@
    &&& p.params->0[j].1.len() > 0
    &&& p.params->0[j].1[0] == name
    &&& forall|i: int| 0 <= i < j ==> (#[trigger] p.params->0[i]).0 != "TZID"@
}

proof fn lemma_parameter(
    params: Seq<(Seq<char>, Seq<Seq<char>>)>,
    name: Seq<char>,
    j: int,
)
    requires
        0 <= j < params.len(),
        params[j].0 == name,
        params[j].1.len() > 0,
        forall|i: int| 0 <= i < j ==> (#[trigger] params[i]).0 != name,
    ensures
        crate::component::first_param(params, name) == Some(params[j].1[0]),
    decreases j,
{
    if j > 0 {
        assert(params[0].0 != name);
        let rest = params.skip(1);
        assert(rest[j - 1] == params[j]);
        assert forall|i: int| 0 <= i < j - 1 implies (#[trigger] rest[i]).0 != name by {
            assert(rest[i] == params[i + 1]);
        }
        lemma_parameter(rest, name, j - 1);
    }
}

/// An event whose start is a local time beside the name of a zone starts in the zone of that
/// name, at that time, or later where the zone skips it. It does not last all day.
pub proof fn lemma_event_in_zone(
    props: Seq<PropertyModel>,
    source_id: Seq<char>,
    color: Seq<char>,
    e: EventModel,
    i: int,
    j: int,
    t: CivilTime,
    zone: Seq<char>,
)
    requires
        is_event_of(props, source_id, color, Some(e)),
        valid_time(t),
        0 <= t.date.year,
        t.nanosecond == 0,
        is_moment_anywhere(t),
        is_said(props, "DTSTART"@, i, local_stamp(t)),
        names_zone(props[i], j, zone),
    ensures
        e.dtstart.zone is Named,
        e.dtstart.zone->Named_0.name == zone,
        civil_second(e.dtstart.local) >= civil_second(t),
        !e.all_day,
{
    let v = local_stamp(t);
    lemma_said(props, "DTSTART"@, i, v);
    lemma_parameter(props[i].params->0, "TZID"@, j);
    assert(param_of(props[i], "TZID"@) == Some(zone));
    lemma_local_time(t, Some(zone), Some(e.dtstart));
    lemma_local_is_plain(t);
    crate::datetime::lemma_plain_bytes(v);
}

proof fn lemma_local_is_plain(t: CivilTime)
    requires
        valid_time(t),
        0 <= t.date.year,
        t.nanosecond == 0,
    ensures
        crate::datetime::is_plain_datetime(local_stamp(t)),
{
    let v = local_stamp(t);
    let s = ics_stamp(t);
    lemma_stamp_is_plain(t);
    assert(v.subrange(0, 8) =~= s.subrange(0, 8));
    assert(v.subrange(9, 15) =~= s.subrange(9, 15));
    assert(v.subrange(13, 15) =~= s.subrange(13, 15));
}

/// An event whose start is a local time without the name of a zone starts at that time of
/// universal time.
pub proof fn lemma_event_without_zone(
    props: Seq<PropertyModel>,
    source_id: Seq<char>,
    color: Seq<char>,
    e: EventModel,
    i: int,
    t: CivilTime,
)
    requires
        is_event_of(props, source_id, color, Some(e)),
        valid_time(t),
        0 <= t.date.year,
        t.nanosecond == 0,
        is_moment_anywhere(t),
        is_said(props, "DTSTART"@, i, local_stamp(t)),
        props[i].params is None,
    ensures
        e.dtstart == (Moment { local: t, offset: 0, zone: ZoneModel::Utc }),
{
    lemma_said(props, "DTSTART"@, i, local_stamp(t));
    lemma_local_time(t, None, Some(e.dtstart));
}

// ── Escapes ────────────────────────────────────────────────────────

proof fn lemma_plain_front(a: Seq<char>, rest: Seq<char>)
    requires
        !a.contains('\\'),
    ensures
        unescaped(a + rest) == a + unescaped(rest),
    decreases a.len(),
{
    if a.len() == 0 {
        assert(a + rest =~= rest);
        assert(a + unescaped(rest) =~= unescaped(rest));
    } else {
        assert(a.contains(a[0]));
        let b = a.skip(1);
        assert(!b.contains('\\')) by {
            if b.contains('\\') {
                let i = choose|i: int| 0 <= i < b.len() && b[i] == '\\';
                assert(a[i + 1] == '\\');
            }
        }
        lemma_plain_front(b, rest);
        assert((a + rest)[0] == a[0]);
        assert((a + rest).skip(1) =~= b + rest);
        assert(seq![a[0]] + (b + unescaped(rest)) =~= a + unescaped(rest));
    }
}

/// A backslash makes a line break of an `n`, small or capital, and takes its meaning from a
/// comma, a semicolon and another backslash, wherever it stands; what is not escaped stands
/// for itself.
pub proof fn lemma_escapes_undone(a: Seq<char>, rest: Seq<char>)
    requires
        !a.contains('\\'),
    ensures
        unescaped(a) == a,
        unescaped(a + (seq!['\\', 'n'] + rest)) == a + (seq!['\n'] + unescaped(rest)),
        unescaped(a + (seq!['\\', 'N'] + rest)) == a + (seq!['\n'] + unescaped(rest)),
        unescaped(a + (seq!['\\', ','] + rest)) == a + (seq![','] + unescaped(rest)),
        unescaped(a + (seq!['\\', ';'] + rest)) == a + (seq![';'] + unescaped(rest)),
        unescaped(a + (seq!['\\', '\\'] + rest)) == a + (seq!['\\'] + unescaped(rest)),
{
    let none = Seq::<char>::empty();
    lemma_plain_front(a, none);
    assert(a + none =~= a);
    assert(a + unescaped(none) =~= a);
    lemma_one_escape(a, 'n', rest);
    lemma_one_escape(a, 'N', rest);
    lemma_one_escape(a, ',', rest);
    lemma_one_escape(a, ';', rest);
    lemma_one_escape(a, '\\', rest);
}

proof fn lemma_one_escape(a: Seq<char>, c: char, rest: Seq<char>)
    requires
        !a.contains('\\'),
        crate::escape::escape_meaning(c) is Some,
    ensures
        unescaped(a + (seq!['\\', c] + rest)) == a + (seq![crate::escape::escape_meaning(c)->0]
            + unescaped(rest)),
{
    let s = seq!['\\', c] + rest;
    lemma_plain_front(a, s);
    assert(s[0] == '\\' && s[1] == c);
    assert(s.skip(2) =~= rest);
}

} // verus!
