//! Events in the order in which they are shown.

use crate::event::{events_view, CalendarEvent, EventModel};
use crate::sorting::{stable_sorted, Keyed};
use crate::time::{
    before, day_number, instant, lemma_day_numbers_keep_order, valid_date, CivilDate, Date, Moment,
};
use vstd::prelude::*;

verus! {

// ── The model ──────────────────────────────────────────────────────

/// The nanoseconds from the start of 1970 to a moment.
pub open spec fn nanoseconds(m: Moment) -> int {
    instant(m) * 1_000_000_000 + m.local.nanosecond
}

pub open spec fn start_key() -> spec_fn(EventModel) -> int {
    |e: EventModel| nanoseconds(e.dtstart)
}

/// The local date on which an event starts.
pub open spec fn date_of(e: EventModel) -> CivilDate {
    e.dtstart.local.date
}

/// The events that start on a date, in the order in which they stand.
pub open spec fn events_on(events: Seq<EventModel>, d: CivilDate) -> Seq<EventModel> {
    events.filter(|e: EventModel| date_of(e) == d)
}

/// The events that start on or after a date, in the order in which they stand.
pub open spec fn events_from(events: Seq<EventModel>, from: CivilDate) -> Seq<EventModel> {
    events.filter(|e: EventModel| !before(date_of(e), from))
}

pub open spec fn at_most<T>(s: Seq<T>, count: int) -> Seq<T> {
    if s.len() <= count {
        s
    } else {
        s.take(count)
    }
}

impl Keyed for CalendarEvent {
    open spec fn key(&self) -> int {
        nanoseconds(self@.dtstart)
    }

    fn is_after(&self, other: &CalendarEvent) -> (r: bool) {
        let a: i64 = self.dtstart.unix_second();
        let b: i64 = other.dtstart.unix_second();
        let x: i32 = self.dtstart.subsec_nanosecond();
        let y: i32 = other.dtstart.subsec_nanosecond();
        a > b || (a == b && x > y)
    }
}

/// Sorts events by their start.
pub fn sort_events(events: &mut Vec<CalendarEvent>)
    ensures
        events_view(final(events)@) == stable_sorted(events_view(old(events)@), start_key()),
{
    proof {
        crate::sorting::lemma_sorted_map(
            events@,
            crate::sorting::key_of::<CalendarEvent>(),
            |e: CalendarEvent| e@,
            start_key(),
        );
    }
    crate::sorting::sort(events);
}

// ── Upcoming events ────────────────────────────────────────────────

/// Return the first `count` events that start on or after `from`.
pub fn upcoming_events(events: &[CalendarEvent], from: Date, count: usize) -> (r: Vec<
    CalendarEvent,
>)
    ensures
        events_view(r@) == at_most(events_from(events_view(events@), from@), count as int),
{
    let ghost all = events_view(events@);
    let ghost wanted = |e: EventModel| !before(date_of(e), from@);
    let mut r: Vec<CalendarEvent> = Vec::new();
    let mut i: usize = 0;
    proof {
        reveal(Seq::filter);
        assert(all.take(0) =~= Seq::<EventModel>::empty());
        assert(events_view(r@) =~= all.take(0).filter(wanted));
    }
    while i < events.len() && r.len() < count
        invariant
            i <= events@.len(),
            all == events_view(events@),
            wanted == |e: EventModel| !before(date_of(e), from@),
            events_view(r@) == all.take(i as int).filter(wanted),
            r@.len() <= count,
        decreases events@.len() - i,
    {
        let ghost before_push = events_view(r@);
        let e = &events[i];
        proof {
            reveal(Seq::filter);
            assert(all.take(i + 1).drop_last() =~= all.take(i as int));
            assert(all.take(i + 1).last() == e@);
        }
        if !e.date().is_before(from) {
            r.push(e.clone());
            proof {
                assert(events_view(r@) =~= before_push.push(e@));
            }
        }
        i = i + 1;
    }
    proof {
        let rest = all.skip(i as int);
        assert(all =~= all.take(i as int) + rest);
        Seq::filter_distributes_over_add(all.take(i as int), rest, wanted);
        let whole = all.filter(wanted);
        assert(whole == events_view(r@) + rest.filter(wanted));
        if i == events@.len() {
            reveal(Seq::filter);
            assert(rest =~= Seq::<EventModel>::empty());
            assert(rest.filter(wanted) =~= Seq::<EventModel>::empty());
            assert(whole =~= events_view(r@));
        } else {
            assert(whole.take(count as int) =~= events_view(r@));
        }
        if whole.len() <= count {
            assert(whole =~= events_view(r@));
        }
    }
    r
}

// ── Events by date ─────────────────────────────────────────────────

/// The dates of some events, in order, each with its events.
#[derive(Debug)]
pub struct EventsByDate {
    days: Vec<(Date, Vec<CalendarEvent>)>,
}

impl View for EventsByDate {
    type V = Seq<(CivilDate, Seq<EventModel>)>;

    closed spec fn view(&self) -> Seq<(CivilDate, Seq<EventModel>)> {
        self.days@.map_values(|p: (Date, Vec<CalendarEvent>)| (p.0@, events_view(p.1@)))
    }
}

/// Whether the days are in order, without one that occurs twice.
pub open spec fn days_in_order(days: Seq<(CivilDate, Seq<EventModel>)>) -> bool {
    forall|i: int, j: int|
        0 <= i < j < days.len() ==> day_number((#[trigger] days[i]).0) < day_number(
            (#[trigger] days[j]).0,
        )
}

/// Whether the days are those of the events, in order, each with the events that start on
/// it.
pub open spec fn groups(
    events: Seq<EventModel>,
    days: Seq<(CivilDate, Seq<EventModel>)>,
) -> bool {
    &&& days_in_order(days)
    &&& forall|i: int|
        0 <= i < days.len() ==> (#[trigger] days[i]).1 == events_on(events, days[i].0)
            && days[i].1.len() > 0
    &&& forall|k: int| 0 <= k < events.len() ==> has_day(days, date_of(#[trigger] events[k]))
}

/// Whether a date is among the days.
pub open spec fn has_day(days: Seq<(CivilDate, Seq<EventModel>)>, d: CivilDate) -> bool {
    exists|i: int| 0 <= i < days.len() && (#[trigger] days[i]).0 == d
}

impl EventsByDate {
    /// The number of dates.
    pub fn len(&self) -> (r: usize)
        ensures
            r == self@.len(),
    {
        self.days.len()
    }

    /// Whether there is no date.
    pub fn is_empty(&self) -> (r: bool)
        ensures
            r == (self@.len() == 0),
    {
        self.days.len() == 0
    }

    /// The events on a date.
    pub fn get(&self, d: &Date) -> (r: Option<&Vec<CalendarEvent>>)
        ensures
            match r {
                Some(events) => exists|i: int|
                    0 <= i < self@.len() && #[trigger] self@[i] == (d@, events_view(events@)),
                None => forall|i: int| 0 <= i < self@.len() ==> (#[trigger] self@[i]).0 != d@,
            },
    {
        let mut i: usize = 0;
        while i < self.days.len()
            invariant
                i <= self.days@.len(),
                self@.len() == self.days@.len(),
                forall|j: int| 0 <= j < i ==> (#[trigger] self@[j]).0 != d@,
            decreases self.days@.len() - i,
        {
            proof {
                assert(self@[i as int] == (
                    self.days@[i as int].0@,
                    events_view(self.days@[i as int].1@),
                ));
            }
            if self.days[i].0.is_same(*d) {
                return Some(&self.days[i].1);
            }
            i = i + 1;
        }
        None
    }

    /// Whether there is an event on a date.
    pub fn contains_key(&self, d: &Date) -> (r: bool)
        ensures
            r == has_day(self@, d@),
    {
        self.get(d).is_some()
    }

    /// The `i`-th date and its events.
    pub fn day(&self, i: usize) -> (r: (Date, &Vec<CalendarEvent>))
        requires
            i < self@.len(),
        ensures
            self@[i as int] == (r.0@, events_view(r.1@)),
    {
        (self.days[i].0, &self.days[i].1)
    }

    /// Puts an event behind those of its date.
    fn push(&mut self, event: &CalendarEvent, Ghost(seen): Ghost<Seq<EventModel>>)
        requires
            groups(seen, old(self)@),
        ensures
            groups(seen.push(event@), final(self)@),
    {
        let d = event.date();
        let ghost days = self@;
        let ghost e = event@;
        let ghost all = seen.push(e);
        proof {
            use_type_invariant(&d);
            lemma_on_push(seen, e);
        }
        let mut i: usize = 0;
        while i < self.days.len() && self.days[i].0.is_before(d)
            invariant
                i <= self.days@.len(),
                self@ == days,
                days.len() == self.days@.len(),
                valid_date(d@),
                forall|j: int|
                    0 <= j < i ==> day_number((#[trigger] days[j]).0) < day_number(d@),
            decreases self.days@.len() - i,
        {
            let there = self.days[i].0;
            proof {
                use_type_invariant(&there);
                lemma_day_numbers_keep_order(there@, d@);
                assert(days[i as int].0 == self.days@[i as int].0@);
            }
            i = i + 1;
        }
        if i < self.days.len() && self.days[i].0.is_same(d) {
            proof {
                assert(days[i as int] == (
                    self.days@[i as int].0@,
                    events_view(self.days@[i as int].1@),
                ));
            }
            let ghost old_days = self.days@;
            let ghost old_list = self.days@[i as int].1@;
            push_at(&mut self.days, i, event.clone());
            proof {
                let now = self@;
                assert(events_view(self.days@[i as int].1@) =~= events_view(old_list).push(e));
                assert(now.len() == days.len());
                assert forall|j: int| 0 <= j < now.len() implies (#[trigger] now[j]).0
                    == days[j].0 by {}
                assert forall|j: int| 0 <= j < now.len() && j != i implies #[trigger] now[j]
                    == days[j] by {}
                assert(now[i as int].1 == days[i as int].1.push(e));
                lemma_groups_same(seen, e, days, now, i as int);
            }
        } else {
            if i < self.days.len() {
                let there = self.days[i].0;
                proof {
                    use_type_invariant(&there);
                    lemma_day_numbers_keep_order(there@, d@);
                    assert(days[i as int].0 == there@);
                }
            }
            let ghost old_days = self.days@;
            let mut list: Vec<CalendarEvent> = Vec::new();
            list.push(event.clone());
            let ghost l = list@;
            self.days.insert(i, (d, list));
            proof {
                assert(events_view(l) =~= seq![e]);
                assert(self@ =~= days.insert(i as int, (d@, seq![e])));
                lemma_groups_new(seen, e, days, i as int);
            }
        }
    }
}

fn push_at(days: &mut Vec<(Date, Vec<CalendarEvent>)>, i: usize, event: CalendarEvent)
    requires
        i < old(days)@.len(),
    ensures
        final(days)@.len() == old(days)@.len(),
        forall|j: int|
            0 <= j < final(days)@.len() && j != i ==> #[trigger] final(days)@[j] == old(days)@[j],
        final(days)@[i as int].0 == old(days)@[i as int].0,
        final(days)@[i as int].1@ == old(days)@[i as int].1@.push(event),
{
    let day = &mut days[i];
    day.1.push(event);
}

proof fn lemma_on_push(seen: Seq<EventModel>, e: EventModel)
    ensures
        forall|d: CivilDate|
            #[trigger] events_on(seen.push(e), d) == (if date_of(e) == d {
                events_on(seen, d).push(e)
            } else {
                events_on(seen, d)
            }),
{
    reveal(Seq::filter);
    assert(seen.push(e).drop_last() =~= seen);
}

/// A date without an event among those seen has no events on it.
proof fn lemma_none_on(seen: Seq<EventModel>, d: CivilDate)
    requires
        forall|k: int| 0 <= k < seen.len() ==> date_of(#[trigger] seen[k]) != d,
    ensures
        events_on(seen, d).len() == 0,
    decreases seen.len(),
{
    reveal(Seq::filter);
    if seen.len() > 0 {
        let front = seen.drop_last();
        assert forall|k: int| 0 <= k < front.len() implies date_of(#[trigger] front[k]) != d by {
            assert(front[k] == seen[k]);
        }
        lemma_none_on(front, d);
        assert(date_of(seen[seen.len() - 1]) != d);
    }
}

proof fn lemma_groups_same(
    seen: Seq<EventModel>,
    e: EventModel,
    days: Seq<(CivilDate, Seq<EventModel>)>,
    now: Seq<(CivilDate, Seq<EventModel>)>,
    at: int,
)
    requires
        groups(seen, days),
        0 <= at < days.len(),
        now.len() == days.len(),
        days[at].0 == date_of(e),
        forall|j: int| 0 <= j < now.len() ==> (#[trigger] now[j]).0 == days[j].0,
        forall|j: int| 0 <= j < now.len() && j != at ==> #[trigger] now[j] == days[j],
        now[at].1 == days[at].1.push(e),
    ensures
        groups(seen.push(e), now),
{
    let all = seen.push(e);
    lemma_on_push(seen, e);
    assert(days_in_order(now)) by {
        assert forall|i: int, j: int| 0 <= i < j < now.len() implies day_number(
            (#[trigger] now[i]).0,
        ) < day_number((#[trigger] now[j]).0) by {
            assert(day_number(days[i].0) < day_number(days[j].0));
        }
    }
    assert forall|i: int| 0 <= i < now.len() implies (#[trigger] now[i]).1 == events_on(
        all,
        now[i].0,
    ) && now[i].1.len() > 0 by {
        assert(days[i].1 == events_on(seen, days[i].0));
        if i < at {
            assert(day_number(days[i].0) < day_number(days[at].0));
        } else if i > at {
            assert(day_number(days[at].0) < day_number(days[i].0));
        }
    }
    assert forall|k: int| 0 <= k < all.len() implies has_day(now, date_of(#[trigger] all[k])) by {
        if k < seen.len() {
            assert(all[k] == seen[k]);
            assert(has_day(days, date_of(seen[k])));
            let i = choose|i: int|
                0 <= i < days.len() && (#[trigger] days[i]).0 == date_of(seen[k]);
            assert(now[i].0 == date_of(all[k]));
        } else {
            assert(now[at].0 == date_of(all[k]));
        }
    }
}

proof fn lemma_groups_new(
    seen: Seq<EventModel>,
    e: EventModel,
    days: Seq<(CivilDate, Seq<EventModel>)>,
    at: int,
)
    requires
        groups(seen, days),
        0 <= at <= days.len(),
        forall|j: int| 0 <= j < at ==> day_number((#[trigger] days[j]).0) < day_number(date_of(e)),
        at < days.len() ==> day_number(days[at].0) > day_number(date_of(e)),
    ensures
        groups(seen.push(e), days.insert(at, (date_of(e), seq![e]))),
{
    let all = seen.push(e);
    let now = days.insert(at, (date_of(e), seq![e]));
    lemma_on_push(seen, e);
    assert forall|j: int| at <= j < days.len() implies day_number((#[trigger] days[j]).0)
        > day_number(date_of(e)) by {
        if j > at {
            assert(day_number(days[at].0) < day_number(days[j].0));
        }
    }
    assert forall|k: int| 0 <= k < seen.len() implies date_of(#[trigger] seen[k]) != date_of(
        e,
    ) by {
        assert(has_day(days, date_of(seen[k])));
        let i = choose|i: int| 0 <= i < days.len() && (#[trigger] days[i]).0 == date_of(seen[k]);
        assert(day_number(days[i].0) != day_number(date_of(e)));
    }
    lemma_none_on(seen, date_of(e));
    assert(events_on(all, date_of(e)) =~= seq![e]);
    assert(days_in_order(now)) by {
        assert forall|i: int, j: int| 0 <= i < j < now.len() implies day_number(
            (#[trigger] now[i]).0,
        ) < day_number((#[trigger] now[j]).0) by {
            let a = if i < at { i } else { i - 1 };
            let b = if j < at { j } else { j - 1 };
            if i != at {
                assert(now[i] == days[a]);
            }
            if j != at {
                assert(now[j] == days[b]);
            }
            if i != at && j != at {
                assert(day_number(days[a].0) < day_number(days[b].0));
            }
        }
    }
    assert forall|i: int| 0 <= i < now.len() implies (#[trigger] now[i]).1 == events_on(
        all,
        now[i].0,
    ) && now[i].1.len() > 0 by {
        if i != at {
            let a = if i < at { i } else { i - 1 };
            assert(now[i] == days[a]);
            assert(day_number(days[a].0) != day_number(date_of(e)));
            assert(days[a].1 == events_on(seen, days[a].0));
        }
    }
    assert forall|k: int| 0 <= k < all.len() implies has_day(now, date_of(#[trigger] all[k])) by {
        if k < seen.len() {
            assert(all[k] == seen[k]);
            assert(has_day(days, date_of(seen[k])));
            let i = choose|i: int|
                0 <= i < days.len() && (#[trigger] days[i]).0 == date_of(seen[k]);
            let b = if i < at { i } else { i + 1 };
            assert(now[b] == days[i]);
            assert(now[b].0 == date_of(all[k]));
        } else {
            assert(now[at].0 == date_of(all[k]));
        }
    }
}

/// Group events by date for calendar grid display.
pub fn events_by_date(events: &[CalendarEvent]) -> (r: EventsByDate)
    ensures
        groups(events_view(events@), r@),
{
    let ghost all = events_view(events@);
    let mut r = EventsByDate { days: Vec::new() };
    let mut i: usize = 0;
    proof {
        assert(r@.len() == 0);
        assert(all.take(0) =~= Seq::<EventModel>::empty());
    }
    while i < events.len()
        invariant
            i <= events@.len(),
            all == events_view(events@),
            groups(all.take(i as int), r@),
        decreases events@.len() - i,
    {
        r.push(&events[i], Ghost(all.take(i as int)));
        proof {
            assert(all.take(i + 1) =~= all.take(i as int).push(events@[i as int]@));
        }
        i = i + 1;
    }
    proof {
        assert(all.take(i as int) =~= all);
    }
    r
}

} // verus!
