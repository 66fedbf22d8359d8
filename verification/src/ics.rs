//! Reading events out of iCalendar documents.

use crate::component::{
    calendars_view, components_view, document_text, find_prop, first_named, get_param, get_prop,
    ical_calendars, opt_text, param_of, props_view, read_calendars, value_of, Calendar,
    CalendarModel, Property, PropertyModel,
};
use crate::datetime::{is_date_value, parse_ics_datetime, stands_for, text_view, written_time};
use crate::escape::{ics_unescape, unescaped};
use crate::event::{event_document_at, event_view, events_view, CalendarEvent, EventModel};
use crate::recurrence::dates_view;
use crate::roundtrip::{event_read_back, is_writable, lemma_event_is_plain, lemma_event_round_trip};
use crate::text::{byte_len, chars_of, pieces_view, split, split_at_char, text_of, trim, trimmed};
use crate::time::{moment_view, valid_moment, CivilDate, Date, Moment, Zoned};
use vstd::prelude::*;

verus! {

// ── The model ──────────────────────────────────────────────────────

/// A value and the zone that it names.
pub type DateItem = (Seq<char>, Option<Seq<char>>);

/// The values that a property lists, each with the property's zone.
pub open spec fn items_of(p: PropertyModel) -> Seq<DateItem> {
    match p.value {
        Some(value) => split(value, ',').map_values(
            |part: Seq<char>| (trim(part), param_of(p, "TZID"@)),
        ),
        None => Seq::empty(),
    }
}

/// The values that all properties with a name list.
pub open spec fn date_items(props: Seq<PropertyModel>, name: Seq<char>) -> Seq<DateItem>
    decreases props.len(),
{
    if props.len() == 0 {
        Seq::empty()
    } else {
        let before = date_items(props.drop_last(), name);
        if props.last().name == name {
            before + items_of(props.last())
        } else {
            before
        }
    }
}

/// Whether `date` is the local date of a moment that a value can stand for.
pub open spec fn is_date_of(item: DateItem, date: CivilDate) -> bool {
    exists|m: Moment|
        #![trigger m.local.date]
        stands_for(written_time(item.0), item.0, item.1, Some(m)) && m.local.date == date
}

/// Whether `dates` are the dates that values stand for, one after the other, without those
/// that stand for none.
pub open spec fn are_dates_of(items: Seq<DateItem>, dates: Seq<CivilDate>) -> bool
    decreases items.len(),
{
    if items.len() == 0 {
        dates.len() == 0
    } else {
        let item = items.last();
        let earlier = items.drop_last();
        ||| stands_for(written_time(item.0), item.0, item.1, None) && are_dates_of(earlier, dates)
        ||| dates.len() > 0 && is_date_of(item, dates.last()) && are_dates_of(
            earlier,
            dates.drop_last(),
        )
    }
}

/// Whether the moments are what values stand for, one for each.
pub open spec fn are_moments_of(items: Seq<DateItem>, moments: Seq<Option<Moment>>) -> bool {
    items.len() == moments.len() && forall|i: int|
        0 <= i < items.len() ==> stands_for(
            written_time((#[trigger] items[i]).0),
            items[i].0,
            items[i].1,
            moments[i],
        )
}

/// The local dates of the moments that were found, one after the other.
pub open spec fn found_dates(moments: Seq<Option<Moment>>) -> Seq<CivilDate>
    decreases moments.len(),
{
    if moments.len() == 0 {
        Seq::empty()
    } else {
        let before = found_dates(moments.drop_last());
        match moments.last() {
            Some(m) => before.push(m.local.date),
            None => before,
        }
    }
}

pub open spec fn moments_view(v: Seq<Option<Zoned>>) -> Seq<Option<Moment>> {
    v.map_values(|z: Option<Zoned>| moment_view(z))
}

proof fn lemma_found_dates(items: Seq<DateItem>, moments: Seq<Option<Moment>>)
    requires
        are_moments_of(items, moments),
    ensures
        are_dates_of(items, found_dates(moments)),
    decreases items.len(),
{
    if items.len() > 0 {
        let earlier = items.drop_last();
        let before = moments.drop_last();
        let item = items[items.len() - 1];
        assert forall|i: int| 0 <= i < earlier.len() implies stands_for(
            written_time((#[trigger] earlier[i]).0),
            earlier[i].0,
            earlier[i].1,
            before[i],
        ) by {
            assert(earlier[i] == items[i]);
        }
        lemma_found_dates(earlier, before);
        assert(stands_for(written_time(item.0), item.0, item.1, moments.last()));
        if let Some(m) = moments.last() {
            assert(m.local.date == m.local.date);
            assert(is_date_of(item, m.local.date));
            assert(found_dates(moments).drop_last() =~= found_dates(before));
        }
    }
}

/// Whether `m` is what the first property with a name stands for as a moment.
pub open spec fn is_moment_of(
    props: Seq<PropertyModel>,
    name: Seq<char>,
    m: Option<Moment>,
) -> bool {
    match first_named(props, name) {
        Some(p) => match p.value {
            Some(v) => stands_for(written_time(v), v, param_of(p, "TZID"@), m),
            None => m is None,
        },
        None => m is None,
    }
}

/// A text value with its escapes undone.
pub open spec fn plain_text(v: Option<Seq<char>>) -> Option<Seq<char>> {
    match v {
        Some(v) => Some(unescaped(v)),
        None => None,
    }
}

pub open spec fn or_empty(v: Option<Seq<char>>) -> Seq<char> {
    match v {
        Some(v) => v,
        None => Seq::empty(),
    }
}

/// Whether `r` is the event that properties describe. There is none without an identifier
/// or a start.
pub open spec fn is_event_of(
    props: Seq<PropertyModel>,
    source_id: Seq<char>,
    color: Seq<char>,
    r: Option<EventModel>,
) -> bool {
    match r {
        None => value_of(props, "UID"@) is None || is_moment_of(props, "DTSTART"@, None),
        Some(e) => {
            &&& value_of(props, "UID"@) is Some
            &&& is_moment_of(props, "DTSTART"@, Some(e.dtstart))
            &&& is_moment_of(props, "DTEND"@, e.dtend)
            &&& are_dates_of(date_items(props, "EXDATE"@), e.exdates)
            &&& are_dates_of(date_items(props, "RDATE"@), e.rdates)
            &&& e == EventModel {
                uid: value_of(props, "UID"@)->0,
                source_id,
                summary: unescaped(or_empty(value_of(props, "SUMMARY"@))),
                description: plain_text(value_of(props, "DESCRIPTION"@)),
                location: plain_text(value_of(props, "LOCATION"@)),
                dtstart: e.dtstart,
                dtend: e.dtend,
                all_day: is_date_value(or_empty(value_of(props, "DTSTART"@))),
                url: value_of(props, "URL"@),
                color,
                etag: None,
                href: None,
                rrule: value_of(props, "RRULE"@),
                exdates: e.exdates,
                rdates: e.rdates,
            }
        },
    }
}

/// The event that properties describe, given the moments and dates that were found for it.
/// There is none without an identifier or a start.
pub open spec fn event_of(
    props: Seq<PropertyModel>,
    source_id: Seq<char>,
    color: Seq<char>,
    dtstart: Option<Moment>,
    dtend: Option<Moment>,
    exdates: Seq<CivilDate>,
    rdates: Seq<CivilDate>,
) -> Option<EventModel> {
    match value_of(props, "UID"@) {
        Some(uid) => match dtstart {
            Some(start) => Some(
                EventModel {
                    uid,
                    source_id,
                    summary: unescaped(or_empty(value_of(props, "SUMMARY"@))),
                    description: plain_text(value_of(props, "DESCRIPTION"@)),
                    location: plain_text(value_of(props, "LOCATION"@)),
                    dtstart: start,
                    dtend,
                    all_day: is_date_value(or_empty(value_of(props, "DTSTART"@))),
                    url: value_of(props, "URL"@),
                    color,
                    etag: None,
                    href: None,
                    rrule: value_of(props, "RRULE"@),
                    exdates,
                    rdates,
                },
            ),
            None => None,
        },
        None => None,
    }
}

/// The events of the calendars that can be read, one after the other.
pub open spec fn all_events(calendars: Seq<Option<CalendarModel>>) -> Seq<Seq<PropertyModel>>
    decreases calendars.len(),
{
    if calendars.len() == 0 {
        Seq::empty()
    } else {
        let before = all_events(calendars.drop_last());
        match calendars.last() {
            Some(c) => before + c.events,
            None => before,
        }
    }
}

/// Whether `out` are the events that components describe, without those that describe
/// none.
pub open spec fn are_events_of(
    components: Seq<Seq<PropertyModel>>,
    source_id: Seq<char>,
    color: Seq<char>,
    out: Seq<EventModel>,
) -> bool
    decreases components.len(),
{
    if components.len() == 0 {
        out.len() == 0
    } else {
        let earlier = components.drop_last();
        ||| is_event_of(components.last(), source_id, color, None) && are_events_of(
            earlier,
            source_id,
            color,
            out,
        )
        ||| out.len() > 0 && is_event_of(components.last(), source_id, color, Some(out.last()))
            && are_events_of(earlier, source_id, color, out.drop_last())
    }
}

// ── Dates ──────────────────────────────────────────────────────────

pub fn as_str_option(s: &Option<String>) -> (r: Option<&str>)
    ensures
        text_view(r) == opt_text(*s),
{
    match s {
        Some(s) => Some(s.as_str()),
        None => None,
    }
}

/// Appends what the values that a property lists stand for.
fn push_moments(prop: &Property, moments: &mut Vec<Option<Zoned>>, Ghost(items): Ghost<Seq<DateItem>>)
    requires
        are_moments_of(items, moments_view(old(moments)@)),
    ensures
        are_moments_of(items + items_of(prop@), moments_view(final(moments)@)),
{
    let ghost more = items_of(prop@);
    proof {
        assert(items + Seq::<DateItem>::empty() =~= items);
    }
    if let Some(value) = &prop.value {
        let tzid = get_param(prop, "TZID");
        let cs = chars_of(value.as_str());
        let parts = split_at_char(&cs, ',');
        let mut i: usize = 0;
        proof {
            assert(items + more.take(0) =~= items);
            assert(more.len() == parts@.len()) by {
                assert(pieces_view(parts@).len() == parts@.len());
            }
        }
        while i < parts.len()
            invariant
                i <= parts@.len(),
                more.len() == parts@.len(),
                pieces_view(parts@) == split(value@, ','),
                prop@.value == Some(value@),
                more == items_of(prop@),
                opt_text(tzid) == param_of(prop@, "TZID"@),
                are_moments_of(items + more.take(i as int), moments_view(moments@)),
            decreases parts@.len() - i,
        {
            let part = text_of(trimmed(parts[i].as_slice()));
            let ghost before = moments_view(moments@);
            let ghost done = items + more.take(i as int);
            let ghost next = items + more.take(i + 1);
            proof {
                assert(pieces_view(parts@)[i as int] == parts@[i as int]@);
                assert(more[i as int] == (part@, opt_text(tzid)));
            }
            let found = parse_ics_datetime(part.as_str(), as_str_option(&tzid));
            let ghost m = moment_view(found);
            moments.push(found);
            proof {
                let now = moments_view(moments@);
                assert(now =~= before.push(m));
                assert(next =~= done.push(more[i as int]));
                assert forall|k: int| 0 <= k < next.len() implies stands_for(
                    written_time((#[trigger] next[k]).0),
                    next[k].0,
                    next[k].1,
                    now[k],
                ) by {
                    if k < done.len() {
                        assert(next[k] == done[k]);
                    }
                }
            }
            i = i + 1;
        }
        proof {
            assert(more.take(i as int) =~= more);
        }
    }
}

/// What the values that all properties with a name list stand for.
pub fn parse_moments(props: &[Property], name: &str) -> (r: Vec<Option<Zoned>>)
    ensures
        are_moments_of(date_items(props_view(props@), name@), moments_view(r@)),
{
    let ghost all = props_view(props@);
    let mut moments: Vec<Option<Zoned>> = Vec::new();
    let mut i: usize = 0;
    proof {
        assert(all.take(0) =~= Seq::<PropertyModel>::empty());
    }
    while i < props.len()
        invariant
            i <= props@.len(),
            all == props_view(props@),
            are_moments_of(date_items(all.take(i as int), name@), moments_view(moments@)),
        decreases props@.len() - i,
    {
        proof {
            assert(all.take(i + 1).drop_last() =~= all.take(i as int));
            assert(all.take(i + 1).last() == props@[i as int]@);
        }
        if crate::text::same_text(props[i].name.as_str(), name) {
            push_moments(&props[i], &mut moments, Ghost(date_items(all.take(i as int), name@)));
        }
        i = i + 1;
    }
    proof {
        assert(all.take(i as int) =~= all);
    }
    moments
}

/// The local dates of the moments that were found.
pub fn dates_of_moments(moments: &Vec<Option<Zoned>>) -> (r: Vec<Date>)
    ensures
        dates_view(r@) == found_dates(moments_view(moments@)),
{
    let ghost all = moments_view(moments@);
    let mut dates: Vec<Date> = Vec::new();
    let mut i: usize = 0;
    proof {
        assert(all.take(0) =~= Seq::<Option<Moment>>::empty());
        assert(dates_view(dates@) =~= Seq::<CivilDate>::empty());
    }
    while i < moments.len()
        invariant
            i <= moments@.len(),
            all == moments_view(moments@),
            dates_view(dates@) == found_dates(all.take(i as int)),
        decreases moments@.len() - i,
    {
        let ghost before = dates_view(dates@);
        proof {
            assert(all.take(i + 1).drop_last() =~= all.take(i as int));
            assert(all.take(i + 1).last() == moment_view(moments@[i as int]));
        }
        if let Some(z) = &moments[i] {
            let d = z.date();
            dates.push(d);
            proof {
                assert(dates_view(dates@) =~= before.push(d@));
            }
        }
        i = i + 1;
    }
    proof {
        assert(all.take(i as int) =~= all);
    }
    dates
}

/// The dates that all properties with a name list.
fn parse_dates(props: &[Property], name: &str) -> (r: Vec<Date>)
    ensures
        are_dates_of(date_items(props_view(props@), name@), dates_view(r@)),
{
    let moments = parse_moments(props, name);
    proof {
        lemma_found_dates(date_items(props_view(props@), name@), moments_view(moments@));
    }
    dates_of_moments(&moments)
}

/// The dates on which an event does not recur.
pub fn parse_exdates(props: &[Property]) -> (r: Vec<Date>)
    ensures
        are_dates_of(date_items(props_view(props@), "EXDATE"@), dates_view(r@)),
{
    parse_dates(props, "EXDATE")
}

/// The dates on which an event recurs besides its rule.
pub fn parse_rdates(props: &[Property]) -> (r: Vec<Date>)
    ensures
        are_dates_of(date_items(props_view(props@), "RDATE"@), dates_view(r@)),
{
    parse_dates(props, "RDATE")
}

/// The moment that the first property with a name stands for.
pub fn parse_moment(props: &[Property], name: &str) -> (r: Option<Zoned>)
    ensures
        is_moment_of(props_view(props@), name@, moment_view(r)),
{
    match find_prop(props, name) {
        None => None,
        Some(p) => match &p.value {
            None => None,
            Some(value) => {
                let tzid = get_param(p, "TZID");
                parse_ics_datetime(value.as_str(), as_str_option(&tzid))
            },
        },
    }
}

pub fn unescape_option(v: Option<String>) -> (r: Option<String>)
    ensures
        opt_text(r) == plain_text(opt_text(v)),
{
    match v {
        Some(v) => Some(ics_unescape(v.as_str())),
        None => None,
    }
}

pub fn or_default(v: Option<String>) -> (r: String)
    ensures
        r@ == or_empty(opt_text(v)),
{
    match v {
        Some(v) => v,
        None => {
            let r = String::new();
            proof {
                assert(r@ =~= Seq::<char>::empty());
            }
            r
        },
    }
}

// ── Events ─────────────────────────────────────────────────────────

/// The event that properties describe, given the moments and dates that were found for it.
pub fn event_with(
    props: &[Property],
    source_id: &str,
    color: &str,
    dtstart: Option<Zoned>,
    dtend: Option<Zoned>,
    exdates: Vec<Date>,
    rdates: Vec<Date>,
) -> (r: Option<CalendarEvent>)
    ensures
        event_view(r) == event_of(
            props_view(props@),
            source_id@,
            color@,
            moment_view(dtstart),
            moment_view(dtend),
            dates_view(exdates@),
            dates_view(rdates@),
        ),
{
    let uid = match get_prop(props, "UID") {
        Some(uid) => uid,
        None => return None,
    };
    let dtstart = match dtstart {
        Some(z) => z,
        None => return None,
    };
    let summary = or_default(get_prop(props, "SUMMARY"));
    let start_value = or_default(get_prop(props, "DTSTART"));
    let all_day = byte_len(start_value.as_str()) == 8;
    Some(
        CalendarEvent {
            uid,
            source_id: source_id.to_owned(),
            summary: ics_unescape(summary.as_str()),
            description: unescape_option(get_prop(props, "DESCRIPTION")),
            location: unescape_option(get_prop(props, "LOCATION")),
            dtstart,
            dtend,
            all_day,
            url: get_prop(props, "URL"),
            color: color.to_owned(),
            etag: None,
            href: None,
            rrule: get_prop(props, "RRULE"),
            exdates,
            rdates,
        },
    )
}

/// The event that properties describe.
pub fn parse_event(props: &[Property], source_id: &str, color: &str) -> (r: Option<CalendarEvent>)
    ensures
        is_event_of(props_view(props@), source_id@, color@, event_view(r)),
{
    event_with(
        props,
        source_id,
        color,
        parse_moment(props, "DTSTART"),
        parse_moment(props, "DTEND"),
        parse_exdates(props),
        parse_rdates(props),
    )
}

fn push_events(
    components: &Vec<Vec<Property>>,
    source_id: &str,
    color: &str,
    out: &mut Vec<CalendarEvent>,
    Ghost(done): Ghost<Seq<Seq<PropertyModel>>>,
)
    requires
        are_events_of(done, source_id@, color@, events_view(old(out)@)),
    ensures
        are_events_of(
            done + components_view(components@),
            source_id@,
            color@,
            events_view(final(out)@),
        ),
{
    let ghost more = components_view(components@);
    let mut i: usize = 0;
    proof {
        assert(done + more.take(0) =~= done);
    }
    while i < components.len()
        invariant
            i <= components@.len(),
            more == components_view(components@),
            are_events_of(done + more.take(i as int), source_id@, color@, events_view(out@)),
        decreases components@.len() - i,
    {
        let ghost before = events_view(out@);
        let ghost next = done + more.take(i + 1);
        proof {
            assert(next.drop_last() =~= done + more.take(i as int));
            assert(next.last() == props_view(components@[i as int]@));
        }
        if let Some(e) = parse_event(components[i].as_slice(), source_id, color) {
            let ghost m = e@;
            out.push(e);
            proof {
                assert(events_view(out@) =~= before.push(m));
                assert(events_view(out@).drop_last() =~= before);
            }
        }
        i = i + 1;
    }
    proof {
        assert(more.take(i as int) =~= more);
    }
}

/// The events of the calendars that could be read.
pub fn events_of_calendars(calendars: &Vec<Option<Calendar>>, source_id: &str, color: &str) -> (r:
    Vec<CalendarEvent>)
    ensures
        are_events_of(
            all_events(calendars_view(calendars@)),
            source_id@,
            color@,
            events_view(r@),
        ),
{
    let ghost all = calendars_view(calendars@);
    let mut out: Vec<CalendarEvent> = Vec::new();
    let mut i: usize = 0;
    proof {
        assert(all.take(0) =~= Seq::<Option<CalendarModel>>::empty());
    }
    while i < calendars.len()
        invariant
            i <= calendars@.len(),
            all == calendars_view(calendars@),
            are_events_of(
                all_events(all.take(i as int)),
                source_id@,
                color@,
                events_view(out@),
            ),
        decreases calendars@.len() - i,
    {
        proof {
            assert(all.take(i + 1).drop_last() =~= all.take(i as int));
            assert(all.take(i + 1).last() == all[i as int]);
        }
        if let Some(c) = &calendars[i] {
            proof {
                assert(all[i as int] == Some(c@));
            }
            push_events(
                &c.events,
                source_id,
                color,
                &mut out,
                Ghost(all_events(all.take(i as int))),
            );
        }
        i = i + 1;
    }
    proof {
        assert(all.take(i as int) =~= all);
    }
    out
}

/// Parse iCalendar data into a list of calendar events.
///
/// The document that an event is written as gives back that event.
pub fn parse_ics_events(ics_data: &str, source_id: &str, color: &str) -> (r: Vec<CalendarEvent>)
    ensures
        are_events_of(
            all_events(ical_calendars(ics_data@)),
            source_id@,
            color@,
            events_view(r@),
        ),
        forall|e: EventModel, now: Moment|
            is_writable(e) && valid_moment(now) && ics_data@ == #[trigger] document_text(
                event_document_at(e, now),
            ) ==> events_view(r@) == seq![event_read_back(e, source_id@, color@)],
{
    let calendars = read_calendars(ics_data);
    let r = events_of_calendars(&calendars, source_id, color);
    proof {
        assert forall|e: EventModel, now: Moment|
            is_writable(e) && valid_moment(now) && ics_data@ == #[trigger] document_text(
                event_document_at(e, now),
            ) implies events_view(r@) == seq![event_read_back(e, source_id@, color@)] by {
            lemma_event_is_plain(e, now);
            lemma_event_round_trip(e, now, source_id@, color@, events_view(r@));
        }
    }
    r
}

} // verus!
