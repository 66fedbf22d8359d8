//! What is shown of the events, and where.

use crate::agenda::{at_most, date_of, events_from, events_on, groups, has_day};
use crate::clock::weekday_setting;
use crate::event::{shown_time, EventModel};
use crate::forms::color_parts;
use crate::text::strip_start;
use crate::time::{
    before, day_number, is_day, lemma_date_on, lemma_day_exists, valid_date, CivilDate,
};
use crate::view::{cell_day, events_of_day, grid_fits, is_cell, lemma_grid_weeks, DayCell};
use crate::window::WindowModel;
use vstd::prelude::*;
use vstd::utf8::{encode_utf8, is_ascii_chars_encode_utf8};

verus! {

// ── Events of a day ────────────────────────────────────────────────

proof fn lemma_filtered(events: Seq<EventModel>, keep: spec_fn(EventModel) -> bool, e: EventModel)
    ensures
        events.filter(keep).contains(e) <==> events.contains(e) && keep(e),
    decreases events.len(),
{
    reveal(Seq::filter);
    let r = events.filter(keep);
    if events.len() > 0 {
        let n = events.len() - 1;
        let front = events.drop_last();
        let b = front.filter(keep);
        lemma_filtered(front, keep, e);
        if r.contains(e) {
            let k = choose|k: int| 0 <= k < r.len() && r[k] == e;
            if k < b.len() {
                assert(b[k] == e);
                assert(b.contains(e));
                let i = choose|i: int| 0 <= i < front.len() && front[i] == e;
                assert(events[i] == e);
            } else {
                assert(events[n] == e);
            }
        }
        if events.contains(e) && keep(e) {
            let i = choose|i: int| 0 <= i < events.len() && events[i] == e;
            if i < n {
                assert(front[i] == e);
                assert(b.contains(e));
                let k = choose|k: int| 0 <= k < b.len() && b[k] == e;
                assert(r[k] == e);
            } else {
                assert(r[b.len() as int] == e);
            }
        }
    }
}

/// Events by date: a date is there if and only if an event starts on it; its events are
/// exactly those of the list that start on it.
pub proof fn lemma_by_date(
    events: Seq<EventModel>,
    days: Seq<(CivilDate, Seq<EventModel>)>,
    d: CivilDate,
    shown: Seq<EventModel>,
    e: EventModel,
)
    requires
        groups(events, days),
        events_of_day(days, d, shown),
    ensures
        has_day(days, d) <==> exists|i: int|
            0 <= i < events.len() && (#[trigger] events[i]).dtstart.local.date == d,
        shown.contains(e) <==> events.contains(e) && e.dtstart.local.date == d,
{
    let keep = |e: EventModel| date_of(e) == d;
    lemma_filtered(events, keep, e);
    if has_day(days, d) {
        let i = choose|i: int| 0 <= i < days.len() && #[trigger] days[i] == (d, shown);
        assert(days[i].1 == events_on(events, d));
        assert(shown.len() > 0);
        lemma_filtered(events, keep, shown[0]);
        assert(shown.contains(shown[0]));
        let k = choose|k: int| 0 <= k < events.len() && events[k] == shown[0];
        assert(events[k].dtstart.local.date == d);
    } else {
        if events.contains(e) && e.dtstart.local.date == d {
            let k = choose|k: int| 0 <= k < events.len() && events[k] == e;
            assert(has_day(days, date_of(events[k])));
        }
        assert(!shown.contains(e));
        if exists|i: int| 0 <= i < events.len() && (#[trigger] events[i]).dtstart.local.date == d {
            let i = choose|i: int|
                0 <= i < events.len() && (#[trigger] events[i]).dtstart.local.date == d;
            assert(has_day(days, date_of(events[i])));
        }
    }
}

/// Whether events are upcoming: they are events of the list that do not start before a date.
pub open spec fn is_upcoming(
    events: Seq<EventModel>,
    from: CivilDate,
    upcoming: Seq<EventModel>,
) -> bool {
    forall|i: int|
        0 <= i < upcoming.len() ==> events.contains(#[trigger] upcoming[i]) && !before(
            upcoming[i].dtstart.local.date,
            from,
        )
}

/// Whether every event of the list that does not start before a date is upcoming.
pub open spec fn has_all_upcoming(
    events: Seq<EventModel>,
    from: CivilDate,
    upcoming: Seq<EventModel>,
) -> bool {
    forall|i: int|
        0 <= i < events.len() && !before((#[trigger] events[i]).dtstart.local.date, from)
            ==> upcoming.contains(events[i])
}

/// What is upcoming are events from a date on, at most as many as are wanted, and all of them
/// where there are fewer.
pub proof fn lemma_upcoming(events: Seq<EventModel>, from: CivilDate, count: int)
    requires
        count >= 0,
    ensures
        at_most(events_from(events, from), count).len() <= count,
        is_upcoming(events, from, at_most(events_from(events, from), count)),
        at_most(events_from(events, from), count).len() < count ==> has_all_upcoming(
            events,
            from,
            at_most(events_from(events, from), count),
        ),
        at_most(events_from(events, from), count).is_prefix_of(events_from(events, from)),
{
    let keep = |e: EventModel| !before(date_of(e), from);
    let all = events_from(events, from);
    let r = at_most(all, count);
    assert forall|i: int| 0 <= i < r.len() implies events.contains(#[trigger] r[i]) && !before(
        r[i].dtstart.local.date,
        from,
    ) by {
        assert(r[i] == all[i]);
        lemma_filtered(events, keep, r[i]);
        assert(all.contains(r[i]));
    }
    if r.len() < count {
        assert(r == all);
        assert forall|i: int|
            0 <= i < events.len() && !before(
                (#[trigger] events[i]).dtstart.local.date,
                from,
            ) implies r.contains(events[i]) by {
            lemma_filtered(events, keep, events[i]);
        }
    }
}

// ── The grid ───────────────────────────────────────────────────────

/// The cells of the grid are days one after the other; every day of the selected month is in
/// one of them; and in each, what is marked holds: whether the day is of the selected month,
/// whether it is the selected one, whether it is today, and whether an event starts on it.
pub proof fn lemma_grid(w: WindowModel, cells: Seq<DayCell>, i: int)
    requires
        valid_date(w.date_selected),
        groups(w.all_events, w.calendar_events),
        grid_fits(w.date_selected, weekday_setting(w.config.first_day_of_week)),
        cells.len() == 42,
        forall|k: int| 0 <= k < 42 ==> is_cell(w, #[trigger] cells[k], k),
        0 <= i < 42,
    ensures
        ({
            let d = cells[i].date@;
            &&& valid_date(d)
            &&& day_number(d) == day_number(cells[0].date@) + i
            &&& cells[i].is_month <==> d.year == w.date_selected.year && d.month
                == w.date_selected.month
            &&& cells[i].is_day <==> d == w.date_selected
            &&& cells[i].is_today <==> d == w.date_today
            &&& cells[i].has_events <==> exists|k: int|
                0 <= k < w.all_events.len() && (#[trigger] w.all_events[k]).dtstart.local.date == d
        }),
{
    let first = weekday_setting(w.config.first_day_of_week);
    let n = cell_day(w.date_selected, first, 0);
    assert(is_cell(w, cells[0], 0));
    assert(is_cell(w, cells[i], i));
    assert(is_day(n) && is_day(n + i));
    lemma_day_exists(n);
    lemma_day_exists(n + i);
    let d = cells[i].date@;
    lemma_marked(w.all_events, w.calendar_events, d);
}

proof fn lemma_marked(
    events: Seq<EventModel>,
    days: Seq<(CivilDate, Seq<EventModel>)>,
    d: CivilDate,
)
    requires
        groups(events, days),
    ensures
        has_day(days, d) <==> exists|i: int|
            0 <= i < events.len() && (#[trigger] events[i]).dtstart.local.date == d,
{
    let keep = |e: EventModel| date_of(e) == d;
    if has_day(days, d) {
        let i = choose|i: int| 0 <= i < days.len() && (#[trigger] days[i]).0 == d;
        let e = days[i].1[0];
        lemma_filtered(events, keep, e);
        assert(days[i].1 == events_on(events, d));
        assert(events_on(events, d).contains(e));
        let k = choose|k: int| 0 <= k < events.len() && events[k] == e;
        assert(events[k].dtstart.local.date == d);
    }
    if exists|i: int| 0 <= i < events.len() && (#[trigger] events[i]).dtstart.local.date == d {
        let i = choose|i: int|
            0 <= i < events.len() && (#[trigger] events[i]).dtstart.local.date == d;
        assert(has_day(days, date_of(events[i])));
    }
}

/// Every day of the selected month is in the grid, and the rows begin on the chosen weekday.
pub proof fn lemma_month_is_in_grid(w: WindowModel, cells: Seq<DayCell>, d: CivilDate)
    requires
        valid_date(w.date_selected),
        grid_fits(w.date_selected, weekday_setting(w.config.first_day_of_week)),
        cells.len() == 42,
        forall|k: int| 0 <= k < 42 ==> is_cell(w, #[trigger] cells[k], k),
        valid_date(d),
        d.year == w.date_selected.year,
        d.month == w.date_selected.month,
    ensures
        exists|i: int| 0 <= i < 42 && (#[trigger] cells[i]).date@ == d,
        w.config.first_day_of_week <= 6 ==> (day_number(cells[0].date@) - 1) % 7
            == w.config.first_day_of_week,
{
    let first = weekday_setting(w.config.first_day_of_week);
    let n = cell_day(w.date_selected, first, 0);
    lemma_grid_weeks(w.date_selected, first, 0);
    let i = day_number(d) - n;
    let start = CivilDate { day: 1, ..w.date_selected };
    assert(day_number(d) == day_number(start) + d.day - 1);
    assert(0 <= i < 42);
    lemma_date_on(d);
    assert(is_cell(w, cells[i], i));
    assert(cells[i].date@ == d);
    assert(is_cell(w, cells[0], 0));
    lemma_day_exists(n);
}

// ── Texts and colors ───────────────────────────────────────────────

/// An event that lasts all day says so; another shows its start and, where it has one, its
/// end, each with two digits for the hour and two for the minute.
pub proof fn lemma_shown_time(e: EventModel)
    ensures
        e.all_day ==> shown_time(e) == "All day"@,
        !e.all_day && e.dtend is None ==> shown_time(e) == two_digits(e.dtstart.local.hour) + ":"@
            + two_digits(e.dtstart.local.minute),
        !e.all_day && e.dtend is Some ==> shown_time(e) == two_digits(e.dtstart.local.hour) + ":"@
            + two_digits(e.dtstart.local.minute) + " – "@ + (two_digits(e.dtend->0.local.hour)
            + ":"@ + two_digits(e.dtend->0.local.minute)),
{
    reveal_strlit(":");
    assert(":"@ =~= seq![':']);
}

pub open spec fn two_digits(n: int) -> Seq<char> {
    crate::text::decimal_padded(n, 2)
}

/// A hexadecimal digit, small or capital.
pub open spec fn hex_char(n: int, capital: bool) -> char {
    if n < 10 {
        (48 + n) as char
    } else if capital {
        (55 + n) as char
    } else {
        (87 + n) as char
    }
}

/// A color in six hexadecimal digits, with or without a mark before them, is read as its red,
/// its green and its blue.
pub proof fn lemma_color_is_read(parts: Seq<int>, capital: Seq<bool>, marked: bool)
    requires
        parts.len() == 6,
        capital.len() == 6,
        forall|i: int| 0 <= i < 6 ==> 0 <= #[trigger] parts[i] < 16,
    ensures
        ({
            let digits = Seq::new(6, |i: int| hex_char(parts[i], capital[i]));
            let text = if marked {
                "#"@ + digits
            } else {
                digits
            };
            color_parts(text) == (
                16 * parts[0] + parts[1],
                16 * parts[2] + parts[3],
                16 * parts[4] + parts[5],
            )
        }),
{
    let digits = Seq::new(6, |i: int| hex_char(parts[i], capital[i]));
    let text = if marked {
        "#"@ + digits
    } else {
        digits
    };
    reveal_strlit("#");
    assert(0 <= parts[0] < 16 && 0 <= parts[1] < 16 && 0 <= parts[2] < 16 && 0 <= parts[3] < 16
        && 0 <= parts[4] < 16 && 0 <= parts[5] < 16);
    assert(digits[0] == hex_char(parts[0], capital[0]));
    assert(digits[0] != '#');
    assert(strip_start(digits, '#') == digits);
    if marked {
        assert(text[0] == '#');
        assert(text.skip(1) =~= digits);
    }
    assert forall|i: int| 0 <= i < digits.len() implies '\0' <= #[trigger] digits[i] <= '\u{7f}' by {
        assert(0 <= parts[i] < 16);
    }
    is_ascii_chars_encode_utf8(digits);
    let bytes = encode_utf8(digits);
    assert(bytes.len() == 6);
    assert forall|i: int| 0 <= i < 6 implies crate::forms::hex_digit(#[trigger] bytes[i]) == Some(
        parts[i],
    ) by {
        assert(0 <= parts[i] < 16);
        assert(bytes[i] == digits[i] as u8);
    }
    assert(crate::forms::hex_digit(bytes[0]) == Some(parts[0]));
    assert(crate::forms::hex_digit(bytes[1]) == Some(parts[1]));
    assert(crate::forms::hex_digit(bytes[2]) == Some(parts[2]));
    assert(crate::forms::hex_digit(bytes[3]) == Some(parts[3]));
    assert(crate::forms::hex_digit(bytes[4]) == Some(parts[4]));
    assert(crate::forms::hex_digit(bytes[5]) == Some(parts[5]));
}

// ── The popup ──────────────────────────────────────────────────────

/// The popup shows a row for every event that starts on the selected day and for no other, with
/// its identifier, its summary and its time; a row for every to-do, ticked off if and only if
/// it is completed; and a way back to today if and only if another day is selected.
pub proof fn lemma_popup_shows(w: WindowModel, r: crate::view::MainView, e: EventModel)
    requires
        groups(w.all_events, w.calendar_events),
        crate::view::is_main(w, r),
        w.all_events.contains(e),
        e.dtstart.local.date == w.date_selected,
    ensures
        exists|i: int|
            0 <= i < r.day_events@.len() && (#[trigger] r.day_events@[i]).uid@ == e.uid
                && r.day_events@[i].summary@ == e.summary && r.day_events@[i].time@ == shown_time(
                e,
            ),
        r.shows_today <==> w.date_selected != w.date_today,
        r.todos@.len() == w.calendar_todos.len(),
        forall|i: int|
            0 <= i < r.todos@.len() ==> {
                let row = #[trigger] r.todos@[i];
                &&& row.summary@ == w.calendar_todos[i].summary
                &&& row.check@ == "☑"@ <==> w.calendar_todos[i].completed
            },
{
    let shown = choose|shown: Seq<EventModel>| #[trigger]
        events_of_day(w.calendar_events, w.date_selected, shown) && crate::view::are_rows(
            shown,
            r.day_events@,
        );
    lemma_by_date(w.all_events, w.calendar_events, w.date_selected, shown, e);
    let i = choose|i: int| 0 <= i < shown.len() && shown[i] == e;
    assert(crate::view::is_row(shown[i], r.day_events@[i]));
    reveal_strlit("☑");
    reveal_strlit("☐");
    assert("☑"@[0] != "☐"@[0]);
}

/// Every row of the selected day is that of an event which starts on that day.
pub proof fn lemma_popup_shows_no_other(w: WindowModel, r: crate::view::MainView, i: int)
    requires
        groups(w.all_events, w.calendar_events),
        crate::view::is_main(w, r),
        0 <= i < r.day_events@.len(),
    ensures
        exists|k: int|
            0 <= k < w.all_events.len() && (#[trigger] w.all_events[k]).dtstart.local.date
                == w.date_selected && w.all_events[k].uid == r.day_events@[i].uid@
                && w.all_events[k].summary == r.day_events@[i].summary@,
{
    let shown = choose|shown: Seq<EventModel>| #[trigger]
        events_of_day(w.calendar_events, w.date_selected, shown) && crate::view::are_rows(
            shown,
            r.day_events@,
        );
    let e = shown[i];
    lemma_by_date(w.all_events, w.calendar_events, w.date_selected, shown, e);
    assert(shown.contains(e));
    assert(crate::view::is_row(shown[i], r.day_events@[i]));
    let k = choose|k: int| 0 <= k < w.all_events.len() && w.all_events[k] == e;
    assert(w.all_events[k].dtstart.local.date == w.date_selected);
}

} // verus!
