//! What an occurrence keeps of its event.

use crate::event::EventModel;
use crate::expand::{appears_as, appears_on, expands_to, shown_dates};
use crate::recurrence::{extra_dates, is_extra, recurrence_dates, Selection};
use crate::rule::rule_of;
use crate::text::decimal_padded;
use crate::time::{
    before, civil_second, day_number, instant, is_moment_anywhere, lemma_date_on,
    lemma_day_numbers_keep_order, lemma_valid_is_day, valid_date, valid_moment, CivilDate,
    CivilTime, MAX_INSTANT, MIN_INSTANT, ZoneModel,
};
use vstd::prelude::*;

verus! {

// ── One occurrence ─────────────────────────────────────────────────

/// Whether two events are the same but for when they are, how they are called and how they
/// recur.
pub open spec fn same_but_times(a: EventModel, b: EventModel) -> bool {
    &&& a.source_id == b.source_id
    &&& a.summary == b.summary
    &&& a.description == b.description
    &&& a.location == b.location
    &&& a.all_day == b.all_day
    &&& a.url == b.url
    &&& a.color == b.color
    &&& a.etag == b.etag
    &&& a.href == b.href
}

/// A date in digits: four for a year from 0 on, two for the month and two for the day, with
/// hyphens between.
pub open spec fn hyphened(d: CivilDate) -> Seq<char> {
    decimal_padded(d.year, 4) + "-"@ + decimal_padded(d.month, 2) + "-"@ + decimal_padded(d.day, 2)
}

/// An occurrence in universal time is on its date at the time of day of the event, and lasts
/// as long: its end is as far from its start, to the second, as the end of the event is from
/// its start. It says what the event says, is called after the event and its date, and recurs
/// no more.
pub proof fn lemma_utc_occurrence(e: EventModel, date: CivilDate, o: EventModel)
    requires
        valid_moment(e.dtstart),
        e.dtstart.zone == ZoneModel::Utc,
        e.dtend is Some ==> valid_moment(e.dtend->0) && e.dtend->0.zone == ZoneModel::Utc,
        valid_date(date),
        date.year >= 0,
        date != e.dtstart.local.date,
        appears_as(e, date, Some(o)),
    ensures
        o.dtstart == (crate::time::Moment {
            local: CivilTime { date, ..e.dtstart.local },
            ..e.dtstart
        }),
        instant(o.dtstart) - instant(e.dtstart) == 86400 * (day_number(date) - day_number(
            e.dtstart.local.date,
        )),
        e.dtend is None ==> o.dtend is None,
        o.dtend is Some ==> {
            &&& instant(o.dtend->0) - instant(o.dtstart) == instant(e.dtend->0) - instant(e.dtstart)
            &&& o.dtend->0.local.nanosecond == e.dtend->0.local.nanosecond
        },
        same_but_times(o, e),
        o.uid == e.uid + "_"@ + hyphened(date),
        o.rrule is None,
        o.exdates.len() == 0,
        o.rdates.len() == 0,
{
    let own = e.dtstart.local.date;
    let days = day_number(date) - day_number(own);
    lemma_date_on(date);
    lemma_valid_is_day(date);
    lemma_day_numbers_keep_order(date, own);
    lemma_day_numbers_keep_order(own, date);
    assert(days != 0);
    if o.dtend is Some {
        let end = e.dtend->0;
        let n = day_number(end.local.date) + days;
        crate::time::lemma_day_exists(n);
        assert(day_number(crate::time::date_on(n)) == n);
    }
    reveal_strlit("_");
    reveal_strlit("-");
    assert("_"@ =~= seq!['_']);
    assert("-"@ =~= seq!['-']);
}

/// Whether a date can be reached from another: the moment there is in range.
pub open spec fn is_reached(e: EventModel, date: CivilDate) -> bool {
    MIN_INSTANT <= instant(e.dtstart) + 86400 * (day_number(date) - day_number(
        e.dtstart.local.date,
    )) <= MAX_INSTANT
}

/// On every date in range an event in universal time has an occurrence. Its end is there too,
/// where the event has one and it is still in range.
pub proof fn lemma_utc_occurrence_exists(e: EventModel, date: CivilDate, o: Option<EventModel>)
    requires
        valid_moment(e.dtstart),
        e.dtstart.zone == ZoneModel::Utc,
        valid_date(date),
        is_reached(e, date),
        appears_as(e, date, o),
    ensures
        o is Some,
{
    let own = e.dtstart.local.date;
    lemma_date_on(date);
    lemma_valid_is_day(date);
    lemma_day_numbers_keep_order(date, own);
    lemma_day_numbers_keep_order(own, date);
    let t = CivilTime { date, ..e.dtstart.local };
    assert(civil_second(t) == instant(e.dtstart) + 86400 * (day_number(date) - day_number(own)));
}

/// In whatever zone, an occurrence shows the time of day of its event on its date, in the same
/// zone, or a later time where the zone skips that one.
pub proof fn lemma_occurrence_in_zone(e: EventModel, date: CivilDate, o: Option<EventModel>)
    requires
        valid_moment(e.dtstart),
        valid_date(date),
        date != e.dtstart.local.date,
        appears_as(e, date, o),
    ensures
        is_moment_anywhere(CivilTime { date, ..e.dtstart.local }) && e.dtstart.zone
            != ZoneModel::Utc ==> o is Some,
        o is Some ==> {
            let t = CivilTime { date, ..e.dtstart.local };
            &&& o->0.dtstart.zone == e.dtstart.zone
            &&& o->0.dtstart.local.nanosecond == t.nanosecond
            &&& civil_second(o->0.dtstart.local) >= civil_second(t)
            &&& same_but_times(o->0, e)
            &&& e.dtend is None ==> o->0.dtend is None
            &&& o->0.dtend is Some ==> o->0.dtend->0.zone == e.dtend->0.zone
        },
{
    let own = e.dtstart.local.date;
    lemma_date_on(date);
    lemma_valid_is_day(date);
    lemma_day_numbers_keep_order(date, own);
    lemma_day_numbers_keep_order(own, date);
}

// ── All of them ────────────────────────────────────────────────────

/// An event in universal time has one occurrence on each of its dates that is in range, in
/// the order of the dates.
pub proof fn lemma_utc_occurrences(e: EventModel, dates: Seq<CivilDate>, out: Seq<EventModel>)
    requires
        valid_moment(e.dtstart),
        e.dtstart.zone == ZoneModel::Utc,
        forall|i: int|
            0 <= i < dates.len() ==> valid_date(#[trigger] dates[i]) && is_reached(e, dates[i]),
        appears_on(e, dates, out),
    ensures
        out.len() == dates.len(),
        forall|i: int|
            0 <= i < dates.len() ==> (#[trigger] out[i]).dtstart.local == (CivilTime {
                date: dates[i],
                ..e.dtstart.local
            }) && same_but_times(out[i], e),
    decreases dates.len(),
{
    if dates.len() > 0 {
        let n = dates.len() - 1;
        let d = dates[n];
        let earlier = dates.drop_last();
        assert(valid_date(d) && is_reached(e, d));
        if appears_as(e, d, None) {
            lemma_utc_occurrence_exists(e, d, None);
        }
        let before = out.drop_last();
        assert forall|i: int| 0 <= i < earlier.len() implies valid_date(#[trigger] earlier[i])
            && is_reached(e, earlier[i]) by {
            assert(earlier[i] == dates[i]);
        }
        lemma_utc_occurrences(e, earlier, before);
        let own = e.dtstart.local.date;
        lemma_date_on(d);
        lemma_valid_is_day(d);
        lemma_day_numbers_keep_order(d, own);
        lemma_day_numbers_keep_order(own, d);
        assert(appears_as(e, d, Some(out[n])));
        assert forall|i: int| 0 <= i < dates.len() implies (#[trigger] out[i]).dtstart.local == (
        CivilTime { date: dates[i], ..e.dtstart.local }) && same_but_times(out[i], e) by {
            if i < n {
                assert(out[i] == before[i]);
                assert(dates[i] == earlier[i]);
            }
        }
    }
}

/// An extra date counts if and only if it is listed, in range, not excluded and not the date
/// of the event itself.
pub proof fn lemma_extra_dates(
    first: CivilDate,
    extra: Seq<CivilDate>,
    sel: Selection,
    d: CivilDate,
)
    ensures
        extra_dates(first, extra, sel).contains(d) <==> {
            &&& extra.contains(d)
            &&& !before(d, sel.start)
            &&& !before(sel.end, d)
            &&& !sel.excluded.contains(d)
            &&& d != first
        },
{
    let keep = |d: CivilDate| is_extra(d, first, sel);
    crate::recurrence::lemma_filter(extra, keep);
}

/// An event with a rule that can be read is shown on the dates of the rule and on the extra
/// dates; one without a rule on its own date, in range or not, and on the extra dates; one
/// with a rule that cannot be read on its own date alone.
pub proof fn lemma_shown_dates(e: EventModel, start: CivilDate, end: CivilDate, d: CivilDate)
    ensures
        ({
            let first = e.dtstart.local.date;
            let shown = shown_dates(e, start, end).contains(d);
            let sel = Selection { start, end, excluded: e.exdates };
            let extra = extra_dates(first, e.rdates, sel).contains(d);
            &&& e.rrule is None ==> (shown <==> d == first || extra)
            &&& e.rrule is Some && rule_of(e.rrule->0) is None ==> (shown <==> d == first)
            &&& e.rrule is Some && rule_of(e.rrule->0) is Some ==> (shown
                <==> recurrence_dates(first, rule_of(e.rrule->0)->0, sel).contains(d) || extra)
        }),
{
    let first = e.dtstart.local.date;
    let sel = Selection { start, end, excluded: e.exdates };
    let extra = extra_dates(first, e.rdates, sel);
    let own = seq![first];
    assert(own.contains(d) <==> d == first) by {
        assert(own[0] == first);
    }
    lemma_in_either(own, extra, d);
    if e.rrule is Some && rule_of(e.rrule->0) is Some {
        lemma_in_either(recurrence_dates(first, rule_of(e.rrule->0)->0, sel), extra, d);
    }
}

proof fn lemma_in_either(a: Seq<CivilDate>, b: Seq<CivilDate>, d: CivilDate)
    ensures
        (a + b).contains(d) <==> a.contains(d) || b.contains(d),
{
    let s = a + b;
    if s.contains(d) {
        let i = choose|i: int| 0 <= i < s.len() && s[i] == d;
        if i < a.len() {
            assert(a[i] == d);
        } else {
            assert(b[i - a.len()] == d);
        }
    }
    if a.contains(d) {
        let i = choose|i: int| 0 <= i < a.len() && a[i] == d;
        assert(s[i] == d);
    }
    if b.contains(d) {
        let i = choose|i: int| 0 <= i < b.len() && b[i] == d;
        assert(s[a.len() + i] == d);
    }
}

/// Events that are listed one after the other expand one after the other.
pub proof fn lemma_expansion_concat(
    a: Seq<EventModel>,
    b: Seq<EventModel>,
    start: CivilDate,
    end: CivilDate,
    x: Seq<EventModel>,
    y: Seq<EventModel>,
)
    requires
        expands_to(a, start, end, x),
        expands_to(b, start, end, y),
    ensures
        expands_to(a + b, start, end, x + y),
    decreases b.len(),
{
    if b.len() == 0 {
        assert(a + b =~= a);
        assert(x + y =~= x);
    } else {
        let e = b.last();
        let front = b.drop_last();
        let k = choose|k: int|
            #![trigger y.take(k)]
            0 <= k <= y.len() && expands_to(front, start, end, y.take(k)) && appears_on(
                e,
                shown_dates(e, start, end),
                y.skip(k),
            );
        lemma_expansion_concat(a, front, start, end, x, y.take(k));
        assert((a + b).drop_last() =~= a + front);
        let n = x.len() + k;
        assert((x + y).take(n) =~= x + y.take(k));
        assert((x + y).skip(n) =~= y.skip(k));
    }
}

/// What an event in universal time expands into: one event on each date on which it is shown.
pub proof fn lemma_utc_event_expansion(
    e: EventModel,
    start: CivilDate,
    end: CivilDate,
    out: Seq<EventModel>,
)
    requires
        expands_to(seq![e], start, end, out),
        valid_moment(e.dtstart),
        e.dtstart.zone == ZoneModel::Utc,
        forall|i: int|
            0 <= i < shown_dates(e, start, end).len() ==> valid_date(
                #[trigger] shown_dates(e, start, end)[i],
            ) && is_reached(e, shown_dates(e, start, end)[i]),
    ensures
        out.len() == shown_dates(e, start, end).len(),
        forall|i: int|
            0 <= i < out.len() ==> (#[trigger] out[i]).dtstart.local == (CivilTime {
                date: shown_dates(e, start, end)[i],
                ..e.dtstart.local
            }) && same_but_times(out[i], e),
{
    let dates = shown_dates(e, start, end);
    let one = seq![e];
    let k = choose|k: int|
        #![trigger out.take(k)]
        0 <= k <= out.len() && expands_to(one.drop_last(), start, end, out.take(k)) && appears_on(
            one.last(),
            shown_dates(one.last(), start, end),
            out.skip(k),
        );
    assert(one.drop_last() =~= Seq::<EventModel>::empty());
    assert(out.take(k).len() == 0);
    assert(out.skip(k) =~= out);
    lemma_utc_occurrences(e, dates, out);
}

} // verus!
