//! Expansion of recurring events into their occurrences.

use crate::event::{event_view, events_view, CalendarEvent, EventModel};
use crate::recurrence::{
    all_exist, dates_of_list, dates_of_rule, dates_view, extra_dates, is_from, lemma_extra_in_range,
    lemma_later_start, lemma_later_start_of_extra, lemma_recurrence_exists,
    lemma_recurrence_in_range, recurrence_dates, selection, starting, Selection,
};
use crate::rule::{parse_rrule_string, rule_of};
use crate::time::{
    before, civil_second, date_on, day_number, epoch_day, iso_text, lemma_date_on, moment_view,
    moved_days, valid_date, valid_moment, valid_time, CivilDate, CivilTime, Date, ZoneModel, Zoned,
};
use crate::component::copy_text;
use vstd::prelude::*;

verus! {

// ── The model ──────────────────────────────────────────────────────

/// The name of the occurrence of an event on a date.
pub open spec fn occurrence_uid(uid: Seq<char>, date: CivilDate) -> Seq<char> {
    uid + seq!['_'] + iso_text(date)
}

/// Whether `o` is an occurrence of an event on another date: the event moved by the days
/// between, under a name of its own, and no longer recurring. There is none where the
/// start cannot be moved; an end that cannot be moved is dropped.
pub open spec fn is_occurrence(e: EventModel, date: CivilDate, o: Option<EventModel>) -> bool {
    let days = day_number(date) - day_number(e.dtstart.local.date);
    match o {
        None => moved_days(e.dtstart, days, None),
        Some(o) => {
            &&& moved_days(e.dtstart, days, Some(o.dtstart))
            &&& match e.dtend {
                Some(end) => moved_days(end, days, o.dtend),
                None => o.dtend is None,
            }
            &&& o == EventModel {
                uid: occurrence_uid(e.uid, date),
                dtstart: o.dtstart,
                dtend: o.dtend,
                rrule: None,
                exdates: Seq::empty(),
                rdates: Seq::empty(),
                ..e
            }
        },
    }
}

/// Whether `o` is what an event looks like on a date: itself on its own date, an
/// occurrence on another.
pub open spec fn appears_as(e: EventModel, date: CivilDate, o: Option<EventModel>) -> bool {
    if date == e.dtstart.local.date {
        o == Some(e)
    } else {
        is_occurrence(e, date, o)
    }
}

/// Whether `out` is what an event looks like on the dates, one after the other, without
/// those on which it cannot be.
pub open spec fn appears_on(e: EventModel, dates: Seq<CivilDate>, out: Seq<EventModel>) -> bool
    decreases dates.len(),
{
    if dates.len() == 0 {
        out.len() == 0
    } else {
        let earlier = dates.drop_last();
        ||| appears_as(e, dates.last(), None) && appears_on(e, earlier, out)
        ||| out.len() > 0 && appears_as(e, dates.last(), Some(out.last())) && appears_on(
            e,
            earlier,
            out.drop_last(),
        )
    }
}

pub open spec fn selection_for(e: EventModel, start: CivilDate, end: CivilDate) -> Selection {
    Selection { start, end, excluded: e.exdates }
}

/// The dates on which an event is shown between two dates. An event without a rule that
/// can be read is shown on its own date, wherever that is; its extra dates count only
/// where it has no rule at all, or one that can be read.
pub open spec fn shown_dates(e: EventModel, start: CivilDate, end: CivilDate) -> Seq<CivilDate> {
    let first = e.dtstart.local.date;
    let sel = selection_for(e, start, end);
    match e.rrule {
        None => seq![first] + extra_dates(first, e.rdates, sel),
        Some(text) => match rule_of(text) {
            None => seq![first],
            Some(rule) => recurrence_dates(first, rule, sel) + extra_dates(first, e.rdates, sel),
        },
    }
}

/// Whether `out` is the expansion of a list of events.
pub open spec fn expands_to(
    events: Seq<EventModel>,
    start: CivilDate,
    end: CivilDate,
    out: Seq<EventModel>,
) -> bool
    decreases events.len(),
{
    if events.len() == 0 {
        out.len() == 0
    } else {
        exists|k: int|
            #![trigger out.take(k)]
            0 <= k <= out.len() && expands_to(events.drop_last(), start, end, out.take(k))
                && appears_on(
                events.last(),
                shown_dates(events.last(), start, end),
                out.skip(k),
            )
    }
}

// ── Occurrences ────────────────────────────────────────────────────

/// The occurrence of an event on another date, given its moved start and end.
pub fn occurrence_at(
    event: &CalendarEvent,
    new_date: Date,
    new_start: Zoned,
    new_end: Option<Zoned>,
) -> (r: CalendarEvent)
    ensures
        r@ == (EventModel {
            uid: occurrence_uid(event@.uid, new_date@),
            dtstart: new_start@,
            dtend: moment_view(new_end),
            rrule: None,
            exdates: Seq::empty(),
            rdates: Seq::empty(),
            ..event@
        }),
{
    let mut uid = event.uid.clone();
    uid.push('_');
    new_date.push_iso(&mut uid);
    let r = CalendarEvent {
        uid,
        source_id: event.source_id.clone(),
        summary: event.summary.clone(),
        description: copy_text(&event.description),
        location: copy_text(&event.location),
        dtstart: new_start,
        dtend: new_end,
        all_day: event.all_day,
        url: copy_text(&event.url),
        color: event.color.clone(),
        etag: copy_text(&event.etag),
        href: copy_text(&event.href),
        rrule: None,
        exdates: Vec::new(),
        rdates: Vec::new(),
    };
    proof {
        assert(r@.exdates =~= Seq::<CivilDate>::empty());
        assert(r@.rdates =~= Seq::<CivilDate>::empty());
        assert(r@.uid =~= occurrence_uid(event@.uid, new_date@));
    }
    r
}

/// The occurrence of an event on another date.
pub fn make_occurrence(event: &CalendarEvent, new_date: Date) -> (r: Option<CalendarEvent>)
    ensures
        is_occurrence(event@, new_date@, event_view(r)),
{
    let own = event.date();
    let days: i32 = new_date.days_since(own);
    proof {
        use_type_invariant(&own);
        use_type_invariant(&new_date);
        crate::time::lemma_day_distance(own@, new_date@);
    }
    let new_start = match event.dtstart.plus_days(days) {
        Some(start) => start,
        None => return None,
    };
    let new_end = match &event.dtend {
        Some(end) => end.plus_days(days),
        None => None,
    };
    Some(occurrence_at(event, new_date, new_start, new_end))
}

fn appearance(event: &CalendarEvent, date: Date) -> (r: Option<CalendarEvent>)
    ensures
        appears_as(event@, date@, event_view(r)),
{
    if date.is_same(event.date()) {
        Some(event.clone())
    } else {
        make_occurrence(event, date)
    }
}

/// Appends what an event looks like on the dates.
fn push_appearances(event: &CalendarEvent, dates: &Vec<Date>, out: &mut Vec<CalendarEvent>)
    ensures
        exists|added: Seq<EventModel>|
            #![trigger appears_on(event@, dates_view(dates@), added)]
            appears_on(event@, dates_view(dates@), added) && events_view(final(out)@)
                == events_view(old(out)@) + added,
{
    let ghost start = events_view(out@);
    let ghost all = dates_view(dates@);
    let ghost mut added: Seq<EventModel> = Seq::empty();
    let mut i: usize = 0;
    proof {
        assert(start + added =~= start);
        assert(all.take(0) =~= Seq::<CivilDate>::empty());
    }
    while i < dates.len()
        invariant
            i <= dates@.len(),
            all == dates_view(dates@),
            appears_on(event@, all.take(i as int), added),
            events_view(out@) == start + added,
        decreases dates@.len() - i,
    {
        let ghost before = events_view(out@);
        proof {
            assert(all.take(i + 1).drop_last() =~= all.take(i as int));
            assert(all.take(i + 1).last() == dates@[i as int]@);
        }
        if let Some(e) = appearance(event, dates[i]) {
            let ghost m = e@;
            out.push(e);
            proof {
                let more = added.push(m);
                assert(more.drop_last() =~= added);
                assert(events_view(out@) =~= before.push(m));
                assert(before.push(m) =~= start + more);
                added = more;
            }
        }
        i = i + 1;
    }
    proof {
        assert(all.take(i as int) =~= all);
    }
}

/// The dates on which an event is shown.
fn dates_shown(event: &CalendarEvent, range_start: Date, range_end: Date) -> (r: Vec<Date>)
    ensures
        dates_view(r@) == shown_dates(event@, range_start@, range_end@),
{
    let first = event.date();
    let ghost sel = selection(range_start, range_end, event.exdates@);
    proof {
        assert(sel == selection_for(event@, range_start@, range_end@));
    }
    let mut dates: Vec<Date> = Vec::new();
    match &event.rrule {
        None => {
            dates.push(first);
            proof {
                assert(dates_view(dates@) =~= seq![first@]);
            }
        },
        Some(text) => match parse_rrule_string(text.as_str()) {
            None => {
                dates.push(first);
                proof {
                    assert(dates_view(dates@) =~= seq![first@]);
                }
                return dates;
            },
            Some(rule) => {
                dates = dates_of_rule(first, &rule, range_start, range_end, &event.exdates);
            },
        },
    }
    let ghost before = dates@;
    let mut extra = dates_of_list(first, &event.rdates, range_start, range_end, &event.exdates);
    let ghost more = extra@;
    dates.append(&mut extra);
    proof {
        assert(dates_view(dates@) =~= dates_view(before) + dates_view(more));
    }
    dates
}

/// Expand recurring events into individual occurrences within a date range.
///
/// Non-recurring events are passed through unchanged.
pub fn expand_recurring(events: Vec<CalendarEvent>, range_start: Date, range_end: Date) -> (r: Vec<
    CalendarEvent,
>)
    ensures
        expands_to(events_view(events@), range_start@, range_end@, events_view(r@)),
{
    let ghost all = events_view(events@);
    let mut out: Vec<CalendarEvent> = Vec::new();
    let mut i: usize = 0;
    proof {
        assert(all.take(0) =~= Seq::<EventModel>::empty());
    }
    while i < events.len()
        invariant
            i <= events@.len(),
            all == events_view(events@),
            expands_to(all.take(i as int), range_start@, range_end@, events_view(out@)),
        decreases events@.len() - i,
    {
        let ghost before = events_view(out@);
        let event = &events[i];
        let dates = dates_shown(event, range_start, range_end);
        push_appearances(event, &dates, &mut out);
        proof {
            let now = events_view(out@);
            let added = choose|added: Seq<EventModel>|
                #![trigger appears_on(event@, dates_view(dates@), added)]
                appears_on(event@, dates_view(dates@), added) && now == before + added;
            assert(all.take(i + 1).drop_last() =~= all.take(i as int));
            assert(all.take(i + 1).last() == event@);
            assert(now.take(before.len() as int) =~= before);
            assert(now.skip(before.len() as int) =~= added);
        }
        i = i + 1;
    }
    proof {
        assert(all.take(i as int) =~= all);
    }
    out
}

// ── What holds of an expansion ─────────────────────────────────────

/// Whether an event has no rule and no extra dates.
pub open spec fn is_single(e: EventModel) -> bool {
    e.rrule is None && e.rdates.len() == 0
}

/// Events that do not recur are passed through unchanged.
pub proof fn lemma_single_events_unchanged(
    events: Seq<EventModel>,
    start: CivilDate,
    end: CivilDate,
    out: Seq<EventModel>,
)
    requires
        expands_to(events, start, end, out),
        forall|i: int| 0 <= i < events.len() ==> is_single(#[trigger] events[i]),
    ensures
        out == events,
    decreases events.len(),
{
    if events.len() == 0 {
        assert(out =~= events);
    } else {
        let e = events.last();
        let front = events.drop_last();
        assert(is_single(events[events.len() - 1]));
        let k = choose|k: int|
            #![trigger out.take(k)]
            0 <= k <= out.len() && expands_to(front, start, end, out.take(k)) && appears_on(
                e,
                shown_dates(e, start, end),
                out.skip(k),
            );
        assert forall|i: int| 0 <= i < front.len() implies is_single(#[trigger] front[i]) by {
            assert(front[i] == events[i]);
        }
        lemma_single_events_unchanged(front, start, end, out.take(k));
        let dates = shown_dates(e, start, end);
        reveal(Seq::filter);
        assert(dates =~= seq![e.dtstart.local.date]);
        lemma_own_date(e, out.skip(k));
        assert(out =~= out.take(k) + out.skip(k));
        assert(events =~= front + seq![e]);
    }
}

proof fn lemma_own_date(e: EventModel, out: Seq<EventModel>)
    requires
        appears_on(e, seq![e.dtstart.local.date], out),
    ensures
        out == seq![e],
{
    let dates = seq![e.dtstart.local.date];
    assert(dates.drop_last() =~= Seq::<CivilDate>::empty());
    assert(dates.last() == e.dtstart.local.date);
    reveal_with_fuel(appears_on, 2);
    assert(out.drop_last().len() == 0);
    assert(out =~= seq![e]);
}

/// Whether an event is in universal time.
pub open spec fn is_utc_event(e: EventModel) -> bool {
    e.dtstart.zone == ZoneModel::Utc && (e.dtend is Some ==> e.dtend->0.zone == ZoneModel::Utc)
}

proof fn lemma_utc_appearance(
    e: EventModel,
    date: CivilDate,
    a: Option<EventModel>,
    b: Option<EventModel>,
)
    requires
        is_utc_event(e),
        appears_as(e, date, a),
        appears_as(e, date, b),
    ensures
        a == b,
{
}

/// What an event in universal time looks like on given dates is fixed.
pub proof fn lemma_utc_appearances(
    e: EventModel,
    dates: Seq<CivilDate>,
    a: Seq<EventModel>,
    b: Seq<EventModel>,
)
    requires
        is_utc_event(e),
        appears_on(e, dates, a),
        appears_on(e, dates, b),
    ensures
        a == b,
    decreases dates.len(),
{
    if dates.len() == 0 {
        assert(a =~= b);
    } else {
        let d = dates.last();
        let earlier = dates.drop_last();
        if appears_as(e, d, None) && appears_on(e, earlier, a) {
            if appears_on(e, earlier, b) {
                lemma_utc_appearances(e, earlier, a, b);
            } else {
                lemma_utc_appearance(e, d, None, Some(b.last()));
            }
        } else {
            if appears_as(e, d, None) && appears_on(e, earlier, b) {
                lemma_utc_appearance(e, d, None, Some(a.last()));
            } else {
                lemma_utc_appearance(e, d, Some(a.last()), Some(b.last()));
                lemma_utc_appearances(e, earlier, a.drop_last(), b.drop_last());
                assert(a =~= a.drop_last().push(a.last()));
                assert(b =~= b.drop_last().push(b.last()));
            }
        }
    }
}

/// The expansion of events in universal time is fixed: the text of the rules, the events
/// and the range say which events come out, and in which order.
pub proof fn lemma_utc_expansion(
    events: Seq<EventModel>,
    start: CivilDate,
    end: CivilDate,
    a: Seq<EventModel>,
    b: Seq<EventModel>,
)
    requires
        expands_to(events, start, end, a),
        expands_to(events, start, end, b),
        forall|i: int| 0 <= i < events.len() ==> is_utc_event(#[trigger] events[i]),
    ensures
        a == b,
    decreases events.len(),
{
    if events.len() == 0 {
        assert(a =~= b);
    } else {
        let e = events.last();
        let front = events.drop_last();
        assert(is_utc_event(events[events.len() - 1]));
        let dates = shown_dates(e, start, end);
        let j = choose|k: int|
            #![trigger a.take(k)]
            0 <= k <= a.len() && expands_to(front, start, end, a.take(k)) && appears_on(
                e,
                dates,
                a.skip(k),
            );
        let k = choose|k: int|
            #![trigger b.take(k)]
            0 <= k <= b.len() && expands_to(front, start, end, b.take(k)) && appears_on(
                e,
                dates,
                b.skip(k),
            );
        assert forall|i: int| 0 <= i < front.len() implies is_utc_event(#[trigger] front[i]) by {
            assert(front[i] == events[i]);
        }
        lemma_utc_expansion(front, start, end, a.take(j), b.take(k));
        lemma_utc_appearances(e, dates, a.skip(j), b.skip(k));
        assert(a =~= a.take(j) + a.skip(j));
        assert(b =~= b.take(k) + b.skip(k));
    }
}

/// Whether an event recurs by a rule that can be read.
pub open spec fn recurs(e: EventModel) -> bool {
    e.rrule is Some && rule_of(e.rrule->0) is Some
}

proof fn lemma_appearance_date(e: EventModel, date: CivilDate, o: EventModel)
    requires
        e.dtstart.zone == ZoneModel::Utc,
        valid_date(e.dtstart.local.date),
        valid_date(date),
        appears_as(e, date, Some(o)),
    ensures
        o.dtstart.local.date == date,
{
    lemma_date_on(date);
    crate::time::lemma_valid_is_day(date);
    crate::time::lemma_day_numbers_keep_order(date, e.dtstart.local.date);
}

proof fn lemma_appearance_dates(e: EventModel, dates: Seq<CivilDate>, out: Seq<EventModel>, i: int)
    requires
        e.dtstart.zone == ZoneModel::Utc,
        valid_date(e.dtstart.local.date),
        all_exist(dates),
        appears_on(e, dates, out),
        0 <= i < out.len(),
    ensures
        dates.contains(out[i].dtstart.local.date),
    decreases dates.len(),
{
    let d = dates.last();
    let earlier = dates.drop_last();
    assert(dates.len() > 0);
    assert forall|k: int| 0 <= k < earlier.len() implies valid_date(#[trigger] earlier[k]) by {
        assert(earlier[k] == dates[k]);
    }
    if appears_as(e, d, None) && appears_on(e, earlier, out) {
        lemma_appearance_dates(e, earlier, out, i);
    } else if i < out.len() - 1 {
        lemma_appearance_dates(e, earlier, out.drop_last(), i);
    } else {
        assert(valid_date(dates[dates.len() - 1]));
        lemma_appearance_date(e, d, out[i]);
        assert(dates[dates.len() - 1] == out[i].dtstart.local.date);
    }
    if exists|k: int| 0 <= k < earlier.len() && earlier[k] == out[i].dtstart.local.date {
        let k = choose|k: int| 0 <= k < earlier.len() && earlier[k] == out[i].dtstart.local.date;
        assert(dates[k] == earlier[k]);
    }
}

/// What a recurring event in universal time looks like lies in the range that is asked for,
/// and on no date that is excluded.
pub proof fn lemma_occurrences_in_range(
    e: EventModel,
    start: CivilDate,
    end: CivilDate,
    out: Seq<EventModel>,
    i: int,
)
    requires
        recurs(e),
        e.dtstart.zone == ZoneModel::Utc,
        valid_moment(e.dtstart),
        all_exist(e.rdates),
        appears_on(e, shown_dates(e, start, end), out),
        0 <= i < out.len(),
    ensures
        !before(out[i].dtstart.local.date, start),
        !before(end, out[i].dtstart.local.date),
        !e.exdates.contains(out[i].dtstart.local.date),
{
    let first = e.dtstart.local.date;
    let sel = selection_for(e, start, end);
    let rule = rule_of(e.rrule->0)->0;
    let ruled = recurrence_dates(first, rule, sel);
    let extra = extra_dates(first, e.rdates, sel);
    let dates = shown_dates(e, start, end);
    lemma_recurrence_exists(first, rule, sel);
    assert forall|k: int| 0 <= k < dates.len() implies valid_date(#[trigger] dates[k]) && !before(
        dates[k],
        start,
    ) && !before(end, dates[k]) && !e.exdates.contains(dates[k]) by {
        if k < ruled.len() {
            assert(dates[k] == ruled[k]);
            lemma_recurrence_in_range(first, rule, sel, k);
        } else {
            assert(dates[k] == extra[k - ruled.len()]);
            lemma_extra_in_range(first, e.rdates, sel, k - ruled.len());
            let j = choose|j: int| 0 <= j < e.rdates.len() && e.rdates[j] == dates[k];
            assert(valid_date(e.rdates[j]));
        }
    }
    lemma_appearance_dates(e, dates, out, i);
}

/// Recurring events in universal time expand into events of the range that is asked for.
pub proof fn lemma_expansion_in_range(
    events: Seq<EventModel>,
    start: CivilDate,
    end: CivilDate,
    out: Seq<EventModel>,
    i: int,
)
    requires
        expands_to(events, start, end, out),
        forall|k: int|
            0 <= k < events.len() ==> {
                let e = #[trigger] events[k];
                &&& recurs(e)
                &&& e.dtstart.zone == ZoneModel::Utc
                &&& valid_moment(e.dtstart)
                &&& all_exist(e.rdates)
            },
        0 <= i < out.len(),
    ensures
        !before(out[i].dtstart.local.date, start),
        !before(end, out[i].dtstart.local.date),
    decreases events.len(),
{
    let e = events.last();
    let front = events.drop_last();
    assert(events.len() > 0);
    assert(e == events[events.len() - 1]);
    let k = choose|k: int|
        #![trigger out.take(k)]
        0 <= k <= out.len() && expands_to(front, start, end, out.take(k)) && appears_on(
            e,
            shown_dates(e, start, end),
            out.skip(k),
        );
    if i < k {
        assert forall|j: int| 0 <= j < front.len() implies ({
            let e = #[trigger] front[j];
            &&& recurs(e)
            &&& e.dtstart.zone == ZoneModel::Utc
            &&& valid_moment(e.dtstart)
            &&& all_exist(e.rdates)
        }) by {
            assert(front[j] == events[j]);
        }
        lemma_expansion_in_range(front, start, end, out.take(k), i);
        assert(out.take(k)[i] == out[i]);
    } else {
        lemma_occurrences_in_range(e, start, end, out.skip(k), i - k);
        assert(out.skip(k)[i - k] == out[i]);
    }
}

/// The dates on which a recurring event is shown from a later start on are those from an
/// earlier start on, without those before the later one.
pub proof fn lemma_later_start_of_dates(
    e: EventModel,
    start: CivilDate,
    later: CivilDate,
    end: CivilDate,
)
    requires
        recurs(e),
        !before(later, start),
    ensures
        shown_dates(e, later, end) == shown_dates(e, start, end).filter(is_from(later)),
{
    let first = e.dtstart.local.date;
    let sel = selection_for(e, start, end);
    let rule = rule_of(e.rrule->0)->0;
    assert(selection_for(e, later, end) == starting(sel, later));
    lemma_later_start(first, rule, sel, later);
    lemma_later_start_of_extra(first, e.rdates, sel, later);
    Seq::filter_distributes_over_add(
        recurrence_dates(first, rule, sel),
        extra_dates(first, e.rdates, sel),
        is_from(later),
    );
}

/// Whether an event starts on a date or after it.
pub open spec fn starts_from(start: CivilDate) -> spec_fn(EventModel) -> bool {
    |e: EventModel| !before(e.dtstart.local.date, start)
}

proof fn lemma_later_appearances(
    e: EventModel,
    dates: Seq<CivilDate>,
    start: CivilDate,
    a: Seq<EventModel>,
    b: Seq<EventModel>,
)
    requires
        is_utc_event(e),
        valid_date(e.dtstart.local.date),
        all_exist(dates),
        appears_on(e, dates, a),
        appears_on(e, dates.filter(is_from(start)), b),
    ensures
        b == a.filter(starts_from(start)),
    decreases dates.len(),
{
    reveal(Seq::filter);
    let from = is_from(start);
    let keep = starts_from(start);
    if dates.len() == 0 {
        assert(b =~= a.filter(keep));
    } else {
        let d = dates.last();
        let earlier = dates.drop_last();
        assert(valid_date(dates[dates.len() - 1]));
        assert forall|k: int| 0 <= k < earlier.len() implies valid_date(#[trigger] earlier[k]) by {
            assert(earlier[k] == dates[k]);
        }
        let kept = earlier.filter(from);
        if from(d) {
            assert(dates.filter(from) == kept.push(d));
            assert(kept.push(d).drop_last() =~= kept);
            assert(kept.push(d).last() == d);
        }
        if appears_as(e, d, None) && appears_on(e, earlier, a) {
            if from(d) && !appears_on(e, kept, b) {
                lemma_utc_appearance(e, d, None, Some(b.last()));
            }
            lemma_later_appearances(e, earlier, start, a, b);
        } else {
            let o = a.last();
            let before_o = a.drop_last();
            lemma_appearance_date(e, d, o);
            if from(d) {
                if appears_as(e, d, None) {
                    lemma_utc_appearance(e, d, None, Some(o));
                }
                lemma_utc_appearance(e, d, Some(o), Some(b.last()));
                lemma_later_appearances(e, earlier, start, before_o, b.drop_last());
                assert(b =~= b.drop_last().push(b.last()));
            } else {
                lemma_later_appearances(e, earlier, start, before_o, b);
            }
        }
    }
}

proof fn lemma_dates_exist(e: EventModel, start: CivilDate, end: CivilDate)
    requires
        recurs(e),
        valid_date(e.dtstart.local.date),
        all_exist(e.rdates),
    ensures
        all_exist(shown_dates(e, start, end)),
{
    let first = e.dtstart.local.date;
    let sel = selection_for(e, start, end);
    let rule = rule_of(e.rrule->0)->0;
    let ruled = recurrence_dates(first, rule, sel);
    let extra = extra_dates(first, e.rdates, sel);
    let dates = shown_dates(e, start, end);
    lemma_recurrence_exists(first, rule, sel);
    assert forall|k: int| 0 <= k < dates.len() implies valid_date(#[trigger] dates[k]) by {
        if k < ruled.len() {
            assert(dates[k] == ruled[k]);
        } else {
            assert(dates[k] == extra[k - ruled.len()]);
            lemma_extra_in_range(first, e.rdates, sel, k - ruled.len());
            let j = choose|j: int| 0 <= j < e.rdates.len() && e.rdates[j] == dates[k];
            assert(valid_date(e.rdates[j]));
        }
    }
}

/// Whether an event in universal time recurs by a rule that can be read, on dates that exist.
pub open spec fn recurs_in_utc(e: EventModel) -> bool {
    &&& recurs(e)
    &&& is_utc_event(e)
    &&& valid_moment(e.dtstart)
    &&& all_exist(e.rdates)
}

/// A later start of the range only drops occurrences of recurring events in universal time:
/// it neither adds nor moves one.
pub proof fn lemma_later_expansion(
    events: Seq<EventModel>,
    start: CivilDate,
    later: CivilDate,
    end: CivilDate,
    a: Seq<EventModel>,
    b: Seq<EventModel>,
)
    requires
        !before(later, start),
        forall|i: int| 0 <= i < events.len() ==> recurs_in_utc(#[trigger] events[i]),
        expands_to(events, start, end, a),
        expands_to(events, later, end, b),
    ensures
        b == a.filter(starts_from(later)),
    decreases events.len(),
{
    let keep = starts_from(later);
    if events.len() == 0 {
        reveal(Seq::filter);
        assert(b =~= a.filter(keep));
    } else {
        let e = events.last();
        let front = events.drop_last();
        assert(recurs_in_utc(events[events.len() - 1]));
        let j = choose|k: int|
            #![trigger a.take(k)]
            0 <= k <= a.len() && expands_to(front, start, end, a.take(k)) && appears_on(
                e,
                shown_dates(e, start, end),
                a.skip(k),
            );
        let k = choose|k: int|
            #![trigger b.take(k)]
            0 <= k <= b.len() && expands_to(front, later, end, b.take(k)) && appears_on(
                e,
                shown_dates(e, later, end),
                b.skip(k),
            );
        assert forall|i: int| 0 <= i < front.len() implies recurs_in_utc(#[trigger] front[i]) by {
            assert(front[i] == events[i]);
        }
        lemma_later_expansion(front, start, later, end, a.take(j), b.take(k));
        lemma_later_start_of_dates(e, start, later, end);
        lemma_dates_exist(e, start, end);
        lemma_later_appearances(e, shown_dates(e, start, end), later, a.skip(j), b.skip(k));
        Seq::filter_distributes_over_add(a.take(j), a.skip(j), keep);
        assert(a =~= a.take(j) + a.skip(j));
        assert(b =~= b.take(k) + b.skip(k));
    }
}

proof fn lemma_later_second(t: CivilTime, u: CivilTime)
    requires
        valid_time(t),
        valid_time(u),
        civil_second(t) <= civil_second(u),
    ensures
        !before(u.date, t.date),
{
    let a = day_number(t.date);
    let b = day_number(u.date);
    crate::time::lemma_day_numbers_keep_order(u.date, t.date);
    if b < a {
        assert((b - epoch_day()) * 86400 + 86400 <= (a - epoch_day()) * 86400);
    }
}

proof fn lemma_appears_not_before(e: EventModel, date: CivilDate, o: EventModel)
    requires
        valid_moment(e.dtstart),
        valid_date(date),
        appears_as(e, date, Some(o)),
    ensures
        !before(o.dtstart.local.date, date),
{
    let own = e.dtstart.local.date;
    lemma_date_on(date);
    crate::time::lemma_valid_is_day(date);
    crate::time::lemma_day_numbers_keep_order(date, own);
    if date != own {
        let t = CivilTime { date, ..e.dtstart.local };
        assert(date_on(day_number(own) + (day_number(date) - day_number(own))) == date);
        if e.dtstart.zone != ZoneModel::Utc {
            lemma_later_second(t, o.dtstart.local);
        }
    }
}

proof fn lemma_appearances_not_before(
    e: EventModel,
    dates: Seq<CivilDate>,
    start: CivilDate,
    out: Seq<EventModel>,
    i: int,
)
    requires
        valid_moment(e.dtstart),
        all_exist(dates),
        forall|k: int| 0 <= k < dates.len() ==> !before(#[trigger] dates[k], start),
        appears_on(e, dates, out),
        0 <= i < out.len(),
    ensures
        !before(out[i].dtstart.local.date, start),
    decreases dates.len(),
{
    let d = dates.last();
    let earlier = dates.drop_last();
    assert(dates.len() > 0);
    assert(valid_date(dates[dates.len() - 1]) && !before(dates[dates.len() - 1], start));
    assert forall|k: int| 0 <= k < earlier.len() implies valid_date(#[trigger] earlier[k])
        && !before(earlier[k], start) by {
        assert(earlier[k] == dates[k]);
    }
    if appears_as(e, d, None) && appears_on(e, earlier, out) {
        lemma_appearances_not_before(e, earlier, start, out, i);
    } else if i < out.len() - 1 {
        lemma_appearances_not_before(e, earlier, start, out.drop_last(), i);
    } else {
        lemma_appears_not_before(e, d, out[i]);
    }
}

/// Whether an event recurs by a rule that can be read, on dates that exist.
pub open spec fn recurs_on_dates(e: EventModel) -> bool {
    &&& recurs(e)
    &&& valid_moment(e.dtstart)
    &&& all_exist(e.rdates)
}

/// Recurring events, in whatever zone, expand into events that are never before the start of
/// the range: a zone that skips a time only moves it forward.
pub proof fn lemma_never_before_range(
    events: Seq<EventModel>,
    start: CivilDate,
    end: CivilDate,
    out: Seq<EventModel>,
    i: int,
)
    requires
        expands_to(events, start, end, out),
        forall|k: int| 0 <= k < events.len() ==> recurs_on_dates(#[trigger] events[k]),
        0 <= i < out.len(),
    ensures
        !before(out[i].dtstart.local.date, start),
    decreases events.len(),
{
    let e = events.last();
    let front = events.drop_last();
    assert(events.len() > 0);
    assert(recurs_on_dates(events[events.len() - 1]));
    let k = choose|k: int|
        #![trigger out.take(k)]
        0 <= k <= out.len() && expands_to(front, start, end, out.take(k)) && appears_on(
            e,
            shown_dates(e, start, end),
            out.skip(k),
        );
    if i < k {
        assert forall|j: int| 0 <= j < front.len() implies recurs_on_dates(#[trigger] front[j]) by {
            assert(front[j] == events[j]);
        }
        lemma_never_before_range(front, start, end, out.take(k), i);
        assert(out.take(k)[i] == out[i]);
    } else {
        let first = e.dtstart.local.date;
        let sel = selection_for(e, start, end);
        let rule = rule_of(e.rrule->0)->0;
        let ruled = recurrence_dates(first, rule, sel);
        let extra = extra_dates(first, e.rdates, sel);
        let dates = shown_dates(e, start, end);
        lemma_dates_exist(e, start, end);
        assert forall|j: int| 0 <= j < dates.len() implies !before(#[trigger] dates[j], start) by {
            if j < ruled.len() {
                assert(dates[j] == ruled[j]);
                lemma_recurrence_in_range(first, rule, sel, j);
            } else {
                assert(dates[j] == extra[j - ruled.len()]);
                lemma_extra_in_range(first, e.rdates, sel, j - ruled.len());
            }
        }
        lemma_appearances_not_before(e, dates, start, out.skip(k), i - k);
        assert(out.skip(k)[i - k] == out[i]);
    }
}

/// Whether `b` is `a` without some of its items.
pub open spec fn is_part(b: Seq<EventModel>, a: Seq<EventModel>) -> bool
    decreases a.len(),
{
    if a.len() == 0 {
        b.len() == 0
    } else {
        ||| is_part(b, a.drop_last())
        ||| b.len() > 0 && b.last() == a.last() && is_part(b.drop_last(), a.drop_last())
    }
}

proof fn lemma_part_concat(
    b1: Seq<EventModel>,
    b2: Seq<EventModel>,
    a1: Seq<EventModel>,
    a2: Seq<EventModel>,
)
    requires
        is_part(b1, a1),
        is_part(b2, a2),
    ensures
        is_part(b1 + b2, a1 + a2),
    decreases a2.len(),
{
    if a2.len() == 0 {
        assert(b1 + b2 =~= b1);
        assert(a1 + a2 =~= a1);
    } else {
        assert((a1 + a2).drop_last() =~= a1 + a2.drop_last());
        if is_part(b2, a2.drop_last()) {
            lemma_part_concat(b1, b2, a1, a2.drop_last());
        } else {
            lemma_part_concat(b1, b2.drop_last(), a1, a2.drop_last());
            assert((b1 + b2).drop_last() =~= b1 + b2.drop_last());
        }
    }
}

proof fn lemma_later_part(
    e: EventModel,
    dates: Seq<CivilDate>,
    start: CivilDate,
    a: Seq<EventModel>,
) -> (b: Seq<EventModel>)
    requires
        appears_on(e, dates, a),
    ensures
        appears_on(e, dates.filter(is_from(start)), b),
        is_part(b, a),
    decreases dates.len(),
{
    reveal(Seq::filter);
    let from = is_from(start);
    if dates.len() == 0 {
        a
    } else {
        let d = dates.last();
        let earlier = dates.drop_last();
        let kept = earlier.filter(from);
        if from(d) {
            assert(dates.filter(from) == kept.push(d));
            assert(kept.push(d).drop_last() =~= kept);
        }
        if appears_as(e, d, None) && appears_on(e, earlier, a) {
            lemma_later_part(e, earlier, start, a)
        } else {
            let b = lemma_later_part(e, earlier, start, a.drop_last());
            if from(d) {
                assert(b.push(a.last()).drop_last() =~= b);
                b.push(a.last())
            } else {
                b
            }
        }
    }
}

/// In whatever zone events recur: what they expand into from a later start of the range on can
/// be had from what they expand into from an earlier one, by dropping occurrences alone.
pub proof fn lemma_later_expansion_is_part(
    events: Seq<EventModel>,
    start: CivilDate,
    later: CivilDate,
    end: CivilDate,
    a: Seq<EventModel>,
) -> (b: Seq<EventModel>)
    requires
        !before(later, start),
        forall|i: int| 0 <= i < events.len() ==> recurs(#[trigger] events[i]),
        expands_to(events, start, end, a),
    ensures
        expands_to(events, later, end, b),
        is_part(b, a),
    decreases events.len(),
{
    if events.len() == 0 {
        a
    } else {
        let e = events.last();
        let front = events.drop_last();
        assert(recurs(events[events.len() - 1]));
        let j = choose|k: int|
            #![trigger a.take(k)]
            0 <= k <= a.len() && expands_to(front, start, end, a.take(k)) && appears_on(
                e,
                shown_dates(e, start, end),
                a.skip(k),
            );
        assert forall|i: int| 0 <= i < front.len() implies recurs(#[trigger] front[i]) by {
            assert(front[i] == events[i]);
        }
        let b1 = lemma_later_expansion_is_part(front, start, later, end, a.take(j));
        lemma_later_start_of_dates(e, start, later, end);
        let b2 = lemma_later_part(e, shown_dates(e, start, end), later, a.skip(j));
        lemma_part_concat(b1, b2, a.take(j), a.skip(j));
        assert(a =~= a.take(j) + a.skip(j));
        let b = b1 + b2;
        assert(b.take(b1.len() as int) =~= b1);
        assert(b.skip(b1.len() as int) =~= b2);
        b
    }
}

} // verus!
