//! What reading gives back of an event that was written.

use crate::component::{
    all_plain, first_named, is_capital_word, is_plain_document, is_plain_line, is_plain_value,
    param_of, written_calendar, written_properties, written_property, CalendarModel, Line,
    PropertyModel,
};
use crate::datetime::{
    is_date_value, is_plain_date, is_plain_utc, lemma_plain_bytes, plain_date, plain_datetime,
    stands_for, written_time,
};
use crate::escape::{escaped, lemma_unescape_inverts_escape, unescaped};
use crate::event::{
    end_lines, event_document_at, event_lines, head_lines, ics_day, ics_stamp, optional_line,
    plain_line, time_line, utc_of, EventModel,
};
use crate::ics::{all_events, are_events_of, date_items, is_event_of, is_moment_of};
use crate::text::{
    decimal, decimal_padded, is_digit, lemma_digits_of, lemma_four_digits, lemma_padded_characters,
    lemma_two_digits, unsigned_value,
};
use crate::todo::{
    all_todos, are_todos_of, completed_lines, due_lines, is_todo_of, priority_lines, status_text,
    todo_document, todo_lines, TodoModel,
};
use crate::time::{
    civil_second, instant, valid_date, valid_moment, valid_time, CivilDate, CivilTime, MAX_INSTANT,
    Moment, ZoneModel,
};
use vstd::prelude::*;

verus! {

// ── Dates and times ────────────────────────────────────────────────

/// The start of a day.
pub open spec fn midnight(d: CivilDate) -> CivilTime {
    CivilTime { date: d, hour: 0, minute: 0, second: 0, nanosecond: 0 }
}

pub(crate) proof fn lemma_day_is_plain(d: CivilDate)
    requires
        valid_date(d),
        0 <= d.year,
    ensures
        is_plain_date(ics_day(d)),
        plain_date(ics_day(d)) == midnight(d),
{
    let v = ics_day(d);
    let y = decimal_padded(d.year, 4);
    let m = decimal_padded(d.month, 2);
    let a = decimal_padded(d.day, 2);
    lemma_four_digits(d.year);
    lemma_two_digits(d.month);
    lemma_two_digits(d.day);
    assert(v.subrange(0, 4) =~= y);
    assert(v.subrange(4, 6) =~= m);
    assert(v.subrange(6, 8) =~= a);
    assert forall|i: int| 0 <= i < v.len() implies is_digit(#[trigger] v[i]) by {
        if i < 4 {
            assert(v[i] == y[i]);
        } else if i < 6 {
            assert(v[i] == m[i - 4]);
        } else {
            assert(v[i] == a[i - 6]);
        }
    }
}

pub(crate) proof fn lemma_stamp_is_plain(t: CivilTime)
    requires
        valid_time(t),
        0 <= t.date.year,
    ensures
        is_plain_utc(ics_stamp(t)),
        plain_datetime(ics_stamp(t)) == (CivilTime { nanosecond: 0, ..t }),
{
    let v = ics_stamp(t);
    let day = ics_day(t.date);
    lemma_day_is_plain(t.date);
    let h = decimal_padded(t.hour, 2);
    let m = decimal_padded(t.minute, 2);
    let s = decimal_padded(t.second, 2);
    lemma_two_digits(t.hour);
    lemma_two_digits(t.minute);
    lemma_two_digits(t.second);
    let w = v.take(15);
    assert(w.subrange(0, 8) =~= day);
    assert(v.subrange(0, 4) =~= day.subrange(0, 4));
    assert(v.subrange(4, 6) =~= day.subrange(4, 6));
    assert(v.subrange(6, 8) =~= day.subrange(6, 8));
    assert(v.subrange(9, 11) =~= h);
    assert(v.subrange(11, 13) =~= m);
    assert(v.subrange(13, 15) =~= s);
    assert(w.subrange(13, 15) =~= s);
    let clock = w.subrange(9, 15);
    assert forall|i: int| 0 <= i < clock.len() implies is_digit(#[trigger] clock[i]) by {
        if i < 2 {
            assert(clock[i] == h[i]);
        } else if i < 4 {
            assert(clock[i] == m[i - 2]);
        } else {
            assert(clock[i] == s[i - 4]);
        }
    }
}

/// Whether a start or an end is written in a form that reads back: its year has four
/// digits, and the start of an all-day event is a moment of universal time.
pub open spec fn is_writable_time(m: Moment, all_day: bool) -> bool {
    &&& valid_moment(m)
    &&& if all_day {
        0 <= m.local.date.year && civil_second(midnight(m.local.date)) <= MAX_INSTANT
    } else {
        0 <= utc_of(m).date.year
    }
}

/// What a start or an end reads back as: the start of its day in universal time for an
/// all-day event, otherwise the same moment in universal time, to the second.
pub open spec fn time_read_back(m: Moment, all_day: bool) -> Moment {
    Moment {
        local: if all_day {
            midnight(m.local.date)
        } else {
            CivilTime { nanosecond: 0, ..utc_of(m) }
        },
        offset: 0,
        zone: ZoneModel::Utc,
    }
}

proof fn lemma_time_reads_back(m: Moment, all_day: bool, tzid: Option<Seq<char>>, r: Option<Moment>)
    requires
        is_writable_time(m, all_day),
    ensures
        ({
            let v = time_line("DTSTART"@, m, all_day).value;
            &&& stands_for(written_time(v), v, tzid, r) ==> r == Some(time_read_back(m, all_day))
            &&& is_date_value(v) == all_day
            &&& is_plain_value(v)
            &&& v.len() > 0
        }),
{
    let v = time_line("DTSTART"@, m, all_day).value;
    lemma_plain_bytes(v);
    if all_day {
        let d = m.local.date;
        lemma_day_is_plain(d);
        lemma_day_in_range(d);
        assert forall|i: int| 0 <= i < v.len() implies v[i] != '\n' by {
            assert(is_digit(v[i]));
        }
        assert(is_digit(v[0]) && is_digit(v[7]));
    } else {
        let t = utc_of(m);
        crate::time::lemma_utc_shows(instant(m), m.local.nanosecond);
        lemma_stamp_is_plain(t);
        let u = CivilTime { nanosecond: 0, ..t };
        assert(civil_second(u) == instant(m));
        let w = v.take(15);
        assert forall|i: int| 0 <= i < v.len() implies v[i] != '\n' by {
            if i < 8 {
                assert(is_digit(w.subrange(0, 8)[i]));
            } else if 9 <= i < 15 {
                assert(is_digit(w.subrange(9, 15)[i - 9]));
            } else if i == 8 {
                assert(w[8] == 'T');
            }
        }
        assert(is_digit(w.subrange(0, 8)[0]));
    }
}

pub(crate) proof fn lemma_day_in_range(d: CivilDate)
    requires
        valid_date(d),
        0 <= d.year,
    ensures
        civil_second(midnight(d)) >= crate::time::MIN_INSTANT,
{
    let first = CivilDate { year: 0, month: 1, day: 1 };
    crate::time::lemma_day_numbers_keep_order(d, first);
    reveal_with_fuel(crate::time::days_before_month, 2);
}

// ── Lines ──────────────────────────────────────────────────────────

/// Whether an event is written in a form that reads back.
pub open spec fn is_writable(e: EventModel) -> bool {
    &&& e.uid.len() > 0
    &&& is_plain_value(e.uid)
    &&& is_plain_value(escaped(e.summary))
    &&& e.description is Some ==> is_plain_value(escaped(e.description->0))
    &&& e.location is Some ==> is_plain_value(escaped(e.location->0))
    &&& is_writable_time(e.dtstart, e.all_day)
    &&& e.dtend is Some ==> is_writable_time(e.dtend->0, e.all_day)
}

/// A text that is not empty.
pub open spec fn filled(v: Option<Seq<char>>) -> Option<Seq<char>> {
    match v {
        Some(v) => if v.len() > 0 {
            Some(v)
        } else {
            None
        },
        None => None,
    }
}

/// What an event reads back as. The document carries the identifier, the texts that are
/// not empty, the start and the end.
pub open spec fn event_read_back(e: EventModel, source_id: Seq<char>, color: Seq<char>)
    -> EventModel {
    EventModel {
        uid: e.uid,
        source_id,
        summary: e.summary,
        description: filled(e.description),
        location: filled(e.location),
        dtstart: time_read_back(e.dtstart, e.all_day),
        dtend: match e.dtend {
            Some(end) => Some(time_read_back(end, e.all_day)),
            None => None,
        },
        all_day: e.all_day,
        url: None,
        color,
        etag: None,
        href: None,
        rrule: None,
        exdates: Seq::empty(),
        rdates: Seq::empty(),
    }
}

/// The first line with a name.
pub open spec fn line_named(lines: Seq<Line>, name: Seq<char>) -> Option<Line>
    decreases lines.len(),
{
    if lines.len() == 0 {
        None
    } else if lines[0].name == name {
        Some(lines[0])
    } else {
        line_named(lines.skip(1), name)
    }
}

proof fn lemma_line_named(lines: Seq<Line>, name: Seq<char>)
    ensures
        first_named(written_properties(lines), name) == (match line_named(lines, name) {
            Some(line) => Some(written_property(line)),
            None => None,
        }),
    decreases lines.len(),
{
    if lines.len() > 0 {
        assert(written_properties(lines).skip(1) =~= written_properties(lines.skip(1)));
        lemma_line_named(lines.skip(1), name);
    }
}

proof fn lemma_line_named_concat(a: Seq<Line>, b: Seq<Line>, name: Seq<char>)
    ensures
        line_named(a + b, name) == (match line_named(a, name) {
            Some(line) => Some(line),
            None => line_named(b, name),
        }),
    decreases a.len(),
{
    if a.len() == 0 {
        assert(a + b =~= b);
    } else if a[0].name != name {
        assert((a + b).skip(1) =~= a.skip(1) + b);
        lemma_line_named_concat(a.skip(1), b, name);
    }
}

proof fn lemma_line_named_one(line: Line, name: Seq<char>)
    ensures
        line_named(seq![line], name) == (if line.name == name {
            Some(line)
        } else {
            None
        }),
        line_named(Seq::<Line>::empty(), name) is None,
{
    assert(seq![line].skip(1) =~= Seq::<Line>::empty());
    reveal_with_fuel(line_named, 2);
}

/// The lengths of the names, and the names of one length that differ.
pub(crate) proof fn lemma_names()
    ensures
        "UID"@.len() == 3,
        "DTSTAMP"@.len() == 7,
        "DTSTART"@.len() == 7,
        "DTEND"@.len() == 5,
        "SUMMARY"@.len() == 7,
        "DESCRIPTION"@.len() == 11,
        "LOCATION"@.len() == 8,
        "URL"@.len() == 3,
        "RRULE"@.len() == 5,
        "EXDATE"@.len() == 6,
        "RDATE"@.len() == 5,
        "BEGIN"@.len() == 5,
        "END"@.len() == 3,
        "VERSION"@.len() == 7,
        "PRODID"@.len() == 6,
        "DUE"@.len() == 3,
        "STATUS"@.len() == 6,
        "COMPLETED"@.len() == 9,
        "PRIORITY"@.len() == 8,
        "VALUE"@.len() == 5,
        "DATE"@.len() == 4,
        "UID"@ != "URL"@,
        "UID"@ != "END"@,
        "UID"@ != "DUE"@,
        "DTSTAMP"@ != "DTSTART"@,
        "DTSTAMP"@ != "SUMMARY"@,
        "DTSTAMP"@ != "VERSION"@,
        "DTSTART"@ != "SUMMARY"@,
        "DTSTART"@ != "VERSION"@,
        "DTEND"@ != "RRULE"@,
        "DTEND"@ != "RDATE"@,
        "DTEND"@ != "BEGIN"@,
        "DTEND"@ != "VALUE"@,
        "SUMMARY"@ != "VERSION"@,
        "LOCATION"@ != "PRIORITY"@,
        "URL"@ != "END"@,
        "URL"@ != "DUE"@,
        "RRULE"@ != "RDATE"@,
        "RRULE"@ != "BEGIN"@,
        "RRULE"@ != "VALUE"@,
        "EXDATE"@ != "PRODID"@,
        "EXDATE"@ != "STATUS"@,
        "RDATE"@ != "BEGIN"@,
        "RDATE"@ != "VALUE"@,
        "BEGIN"@ != "VALUE"@,
        "END"@ != "DUE"@,
        "PRODID"@ != "STATUS"@,
{
    reveal_strlit("UID");
    reveal_strlit("DTSTAMP");
    reveal_strlit("DTSTART");
    reveal_strlit("DTEND");
    reveal_strlit("SUMMARY");
    reveal_strlit("DESCRIPTION");
    reveal_strlit("LOCATION");
    reveal_strlit("URL");
    reveal_strlit("RRULE");
    reveal_strlit("EXDATE");
    reveal_strlit("RDATE");
    reveal_strlit("BEGIN");
    reveal_strlit("END");
    reveal_strlit("VERSION");
    reveal_strlit("PRODID");
    reveal_strlit("DUE");
    reveal_strlit("STATUS");
    reveal_strlit("COMPLETED");
    reveal_strlit("PRIORITY");
    reveal_strlit("VALUE");
    reveal_strlit("DATE");
    assert("UID"@[1] != "URL"@[1]);
    assert("UID"@[0] != "END"@[0]);
    assert("UID"@[0] != "DUE"@[0]);
    assert("DTSTAMP"@[5] != "DTSTART"@[5]);
    assert("DTSTAMP"@[0] != "SUMMARY"@[0]);
    assert("DTSTAMP"@[0] != "VERSION"@[0]);
    assert("DTSTART"@[0] != "SUMMARY"@[0]);
    assert("DTSTART"@[0] != "VERSION"@[0]);
    assert("DTEND"@[0] != "RRULE"@[0]);
    assert("DTEND"@[0] != "RDATE"@[0]);
    assert("DTEND"@[0] != "BEGIN"@[0]);
    assert("DTEND"@[0] != "VALUE"@[0]);
    assert("SUMMARY"@[0] != "VERSION"@[0]);
    assert("LOCATION"@[0] != "PRIORITY"@[0]);
    assert("URL"@[0] != "END"@[0]);
    assert("URL"@[0] != "DUE"@[0]);
    assert("RRULE"@[1] != "RDATE"@[1]);
    assert("RRULE"@[0] != "BEGIN"@[0]);
    assert("RRULE"@[0] != "VALUE"@[0]);
    assert("EXDATE"@[0] != "PRODID"@[0]);
    assert("EXDATE"@[0] != "STATUS"@[0]);
    assert("RDATE"@[0] != "BEGIN"@[0]);
    assert("RDATE"@[0] != "VALUE"@[0]);
    assert("BEGIN"@[0] != "VALUE"@[0]);
    assert("END"@[0] != "DUE"@[0]);
    assert("PRODID"@[0] != "STATUS"@[0]);
}

/// The names are words of capital letters.
proof fn lemma_names_are_capital()
    ensures
        is_capital_word("UID"@),
        is_capital_word("DTSTAMP"@),
        is_capital_word("DTSTART"@),
        is_capital_word("DTEND"@),
        is_capital_word("SUMMARY"@),
        is_capital_word("DESCRIPTION"@),
        is_capital_word("LOCATION"@),
        is_capital_word("VERSION"@),
        is_capital_word("PRODID"@),
        is_capital_word("DUE"@),
        is_capital_word("STATUS"@),
        is_capital_word("COMPLETED"@),
        is_capital_word("PRIORITY"@),
        is_capital_word("VALUE"@),
        is_capital_word("DATE"@),
{
    reveal_strlit("UID");
    assert("UID"@ =~= seq!['U', 'I', 'D']);
    reveal_strlit("DTSTAMP");
    assert("DTSTAMP"@ =~= seq!['D', 'T', 'S', 'T', 'A', 'M', 'P']);
    reveal_strlit("DTSTART");
    assert("DTSTART"@ =~= seq!['D', 'T', 'S', 'T', 'A', 'R', 'T']);
    reveal_strlit("DTEND");
    assert("DTEND"@ =~= seq!['D', 'T', 'E', 'N', 'D']);
    reveal_strlit("SUMMARY");
    assert("SUMMARY"@ =~= seq!['S', 'U', 'M', 'M', 'A', 'R', 'Y']);
    reveal_strlit("DESCRIPTION");
    assert("DESCRIPTION"@ =~= seq!['D', 'E', 'S', 'C', 'R', 'I', 'P', 'T', 'I', 'O', 'N']);
    reveal_strlit("LOCATION");
    assert("LOCATION"@ =~= seq!['L', 'O', 'C', 'A', 'T', 'I', 'O', 'N']);
    reveal_strlit("VERSION");
    assert("VERSION"@ =~= seq!['V', 'E', 'R', 'S', 'I', 'O', 'N']);
    reveal_strlit("PRODID");
    assert("PRODID"@ =~= seq!['P', 'R', 'O', 'D', 'I', 'D']);
    reveal_strlit("DUE");
    assert("DUE"@ =~= seq!['D', 'U', 'E']);
    reveal_strlit("STATUS");
    assert("STATUS"@ =~= seq!['S', 'T', 'A', 'T', 'U', 'S']);
    reveal_strlit("COMPLETED");
    assert("COMPLETED"@ =~= seq!['C', 'O', 'M', 'P', 'L', 'E', 'T', 'E', 'D']);
    reveal_strlit("PRIORITY");
    assert("PRIORITY"@ =~= seq!['P', 'R', 'I', 'O', 'R', 'I', 'T', 'Y']);
    reveal_strlit("VALUE");
    assert("VALUE"@ =~= seq!['V', 'A', 'L', 'U', 'E']);
    reveal_strlit("DATE");
    assert("DATE"@ =~= seq!['D', 'A', 'T', 'E']);
}

// ── The event that is read back ────────────────────────────────────

/// The line of an event with a name.
pub open spec fn event_line(e: EventModel, now: Moment, name: Seq<char>) -> Option<Line> {
    if name == "UID"@ {
        Some(plain_line("UID"@, e.uid))
    } else if name == "DTSTAMP"@ {
        Some(plain_line("DTSTAMP"@, ics_stamp(utc_of(now))))
    } else if name == "DTSTART"@ {
        Some(time_line("DTSTART"@, e.dtstart, e.all_day))
    } else if name == "DTEND"@ {
        match e.dtend {
            Some(end) => Some(time_line("DTEND"@, end, e.all_day)),
            None => None,
        }
    } else if name == "SUMMARY"@ {
        Some(plain_line("SUMMARY"@, escaped(e.summary)))
    } else if name == "DESCRIPTION"@ {
        match filled(e.description) {
            Some(v) => Some(plain_line("DESCRIPTION"@, escaped(v))),
            None => None,
        }
    } else if name == "LOCATION"@ {
        match filled(e.location) {
            Some(v) => Some(plain_line("LOCATION"@, escaped(v))),
            None => None,
        }
    } else {
        None
    }
}

proof fn lemma_optional_line(name: Seq<char>, value: Option<Seq<char>>, wanted: Seq<char>)
    ensures
        line_named(optional_line(name, value), wanted) == (if name == wanted && filled(
            value,
        ) is Some {
            Some(plain_line(name, escaped(value->0)))
        } else {
            None
        }),
{
    if filled(value) is Some {
        lemma_line_named_one(plain_line(name, escaped(value->0)), wanted);
    }
}

proof fn lemma_event_line(e: EventModel, now: Moment, name: Seq<char>)
    ensures
        line_named(event_lines(e, now), name) == event_line(e, now, name),
{
    lemma_names();
    let uid = plain_line("UID"@, e.uid);
    let stamp = plain_line("DTSTAMP"@, ics_stamp(utc_of(now)));
    let start = time_line("DTSTART"@, e.dtstart, e.all_day);
    let summary = plain_line("SUMMARY"@, escaped(e.summary));
    let description = optional_line("DESCRIPTION"@, e.description);
    let location = optional_line("LOCATION"@, e.location);
    let first = seq![uid, stamp, start];
    assert(first =~= seq![uid] + seq![stamp] + seq![start]);
    lemma_line_named_one(uid, name);
    lemma_line_named_one(stamp, name);
    lemma_line_named_one(start, name);
    lemma_line_named_concat(seq![uid], seq![stamp], name);
    lemma_line_named_concat(seq![uid] + seq![stamp], seq![start], name);
    if e.dtend is Some {
        lemma_line_named_one(time_line("DTEND"@, e.dtend->0, e.all_day), name);
    }
    lemma_line_named_concat(first, end_lines(e), name);
    lemma_line_named_one(summary, name);
    lemma_line_named_concat(first + end_lines(e), seq![summary], name);
    lemma_optional_line("DESCRIPTION"@, e.description, name);
    lemma_line_named_concat(first + end_lines(e) + seq![summary], description, name);
    lemma_optional_line("LOCATION"@, e.location, name);
    lemma_line_named_concat(first + end_lines(e) + seq![summary] + description, location, name);
}

pub proof fn lemma_plain_concat(a: Seq<Line>, b: Seq<Line>)
    requires
        all_plain(a),
        all_plain(b),
    ensures
        all_plain(a + b),
{
    assert forall|i: int| 0 <= i < (a + b).len() implies is_plain_line(
        #[trigger] (a + b)[i],
    ) by {
        if i < a.len() {
            assert((a + b)[i] == a[i]);
        } else {
            assert((a + b)[i] == b[i - a.len()]);
        }
    }
}

pub proof fn lemma_head_is_plain()
    ensures
        all_plain(head_lines()),
{
    lemma_names();
    lemma_names_are_capital();
    reveal_strlit("2.0");
    reveal_strlit("-//COSMIC//cosmic-applet-time//EN");
    let product = "-//COSMIC//cosmic-applet-time//EN"@;
    assert("2.0"@ =~= seq!['2', '.', '0']);
    assert(product =~= seq![
        '-', '/', '/', 'C', 'O', 'S', 'M', 'I', 'C', '/', '/', 'c', 'o', 's', 'm', 'i', 'c', '-',
        'a', 'p', 'p', 'l', 'e', 't', '-', 't', 'i', 'm', 'e', '/', '/', 'E', 'N',
    ]);
    assert(!"2.0"@.contains('\n'));
    assert(!product.contains('\n'));
    let head = head_lines();
    assert forall|i: int| 0 <= i < head.len() implies is_plain_line(#[trigger] head[i]) by {
        assert(i == 0 || i == 1);
    }
}

pub proof fn lemma_one_is_plain(line: Line)
    requires
        is_plain_line(line),
    ensures
        all_plain(seq![line]),
{
}

proof fn lemma_time_line_is_plain(name: Seq<char>, m: Moment, all_day: bool)
    requires
        is_capital_word(name),
        name != "BEGIN"@,
        name != "END"@,
        is_writable_time(m, all_day),
    ensures
        all_plain(seq![time_line(name, m, all_day)]),
{
    lemma_names_are_capital();
    lemma_time_reads_back(m, all_day, None, None);
    lemma_one_is_plain(time_line(name, m, all_day));
}

proof fn lemma_optional_is_plain(name: Seq<char>, value: Option<Seq<char>>)
    requires
        is_capital_word(name),
        name != "BEGIN"@,
        name != "END"@,
        value is Some ==> is_plain_value(escaped(value->0)),
    ensures
        all_plain(optional_line(name, value)),
{
    if filled(value) is Some {
        lemma_one_is_plain(plain_line(name, escaped(value->0)));
    }
}

/// The time at which a document is written stays on its line, whatever its year.
proof fn lemma_written_at_is_plain(now: Moment)
    requires
        valid_moment(now),
    ensures
        all_plain(seq![plain_line("DTSTAMP"@, ics_stamp(utc_of(now)))]),
{
    let t = utc_of(now);
    crate::time::lemma_utc_shows(instant(now), now.local.nanosecond);
    let v = ics_stamp(t);
    let y = decimal_padded(t.date.year, 4);
    let m = decimal_padded(t.date.month, 2);
    let d = decimal_padded(t.date.day, 2);
    let h = decimal_padded(t.hour, 2);
    let n = decimal_padded(t.minute, 2);
    let s = decimal_padded(t.second, 2);
    lemma_padded_characters(t.date.year, 4);
    lemma_two_digits(t.date.month);
    lemma_two_digits(t.date.day);
    lemma_two_digits(t.hour);
    lemma_two_digits(t.minute);
    lemma_two_digits(t.second);
    let k = y.len();
    assert forall|i: int| 0 <= i < v.len() implies v[i] != '\n' by {
        if i < k {
            assert(v[i] == y[i]);
        } else if i < k + 2 {
            assert(v[i] == m[i - k]);
        } else if i < k + 4 {
            assert(v[i] == d[i - k - 2]);
        } else if k + 5 <= i < k + 7 {
            assert(v[i] == h[i - k - 5]);
        } else if k + 7 <= i < k + 9 {
            assert(v[i] == n[i - k - 7]);
        } else if k + 9 <= i < k + 11 {
            assert(v[i] == s[i - k - 9]);
        }
    }
    assert(v[0] == y[0]);
    lemma_names();
    lemma_names_are_capital();
    lemma_one_is_plain(plain_line("DTSTAMP"@, v));
}

/// A document of such an event is made of plain lines, whenever it is written.
pub proof fn lemma_event_is_plain(e: EventModel, now: Moment)
    requires
        is_writable(e),
        valid_moment(now),
    ensures
        is_plain_document(event_document_at(e, now)),
{
    let a0 = seq![plain_line("UID"@, e.uid)];
    let a1 = seq![plain_line("DTSTAMP"@, ics_stamp(utc_of(now)))];
    let a = a0 + a1;
    let b = seq![time_line("DTSTART"@, e.dtstart, e.all_day)];
    let c = end_lines(e);
    let d = seq![plain_line("SUMMARY"@, escaped(e.summary))];
    let f = optional_line("DESCRIPTION"@, e.description);
    let g = optional_line("LOCATION"@, e.location);
    assert(all_plain(a) && all_plain(b) && all_plain(c) && all_plain(d) && all_plain(f)
        && all_plain(g)) by {
        lemma_names();
        lemma_names_are_capital();
        lemma_one_is_plain(plain_line("UID"@, e.uid));
        lemma_written_at_is_plain(now);
        lemma_plain_concat(a0, a1);
        lemma_time_line_is_plain("DTSTART"@, e.dtstart, e.all_day);
        if e.dtend is Some {
            lemma_time_line_is_plain("DTEND"@, e.dtend->0, e.all_day);
        }
        lemma_one_is_plain(plain_line("SUMMARY"@, escaped(e.summary)));
        lemma_optional_is_plain("DESCRIPTION"@, e.description);
        lemma_optional_is_plain("LOCATION"@, e.location);
    }
    lemma_head_is_plain();
    lemma_plain_concat(a, b);
    lemma_plain_concat(a + b, c);
    lemma_plain_concat(a + b + c, d);
    lemma_plain_concat(a + b + c + d, f);
    lemma_plain_concat(a + b + c + d + f, g);
    assert(a + b =~= seq![
        plain_line("UID"@, e.uid),
        plain_line("DTSTAMP"@, ics_stamp(utc_of(now))),
        time_line("DTSTART"@, e.dtstart, e.all_day),
    ]);
}

/// How many lines have a name.
pub open spec fn count_named(lines: Seq<Line>, name: Seq<char>) -> nat
    decreases lines.len(),
{
    if lines.len() == 0 {
        0
    } else {
        count_named(lines.drop_last(), name) + (if lines.last().name == name {
            1nat
        } else {
            0
        })
    }
}

proof fn lemma_count_concat(a: Seq<Line>, b: Seq<Line>, name: Seq<char>)
    ensures
        count_named(a + b, name) == count_named(a, name) + count_named(b, name),
    decreases b.len(),
{
    if b.len() == 0 {
        assert(a + b =~= a);
    } else {
        lemma_count_concat(a, b.drop_last(), name);
        assert((a + b).drop_last() =~= a + b.drop_last());
        assert((a + b).last() == b.last());
    }
}

proof fn lemma_count_one(line: Line, name: Seq<char>)
    ensures
        count_named(seq![line], name) == (if line.name == name {
            1nat
        } else {
            0
        }),
        count_named(Seq::<Line>::empty(), name) == 0,
{
    assert(seq![line].drop_last() =~= Seq::<Line>::empty());
    assert(seq![line].last() == line);
    reveal_with_fuel(count_named, 2);
}

proof fn lemma_count_event(e: EventModel, now: Moment, name: Seq<char>)
    ensures
        count_named(event_lines(e, now), name) == (if event_line(e, now, name) is Some {
            1nat
        } else {
            0
        }),
{
    lemma_names();
    let uid = plain_line("UID"@, e.uid);
    let stamp = plain_line("DTSTAMP"@, ics_stamp(utc_of(now)));
    let start = time_line("DTSTART"@, e.dtstart, e.all_day);
    let summary = plain_line("SUMMARY"@, escaped(e.summary));
    let description = optional_line("DESCRIPTION"@, e.description);
    let location = optional_line("LOCATION"@, e.location);
    let first = seq![uid, stamp, start];
    assert(first =~= seq![uid] + seq![stamp] + seq![start]);
    lemma_count_one(uid, name);
    lemma_count_one(stamp, name);
    lemma_count_one(start, name);
    lemma_count_one(summary, name);
    lemma_count_concat(seq![uid], seq![stamp], name);
    lemma_count_concat(seq![uid] + seq![stamp], seq![start], name);
    if e.dtend is Some {
        lemma_count_one(time_line("DTEND"@, e.dtend->0, e.all_day), name);
    }
    if filled(e.description) is Some {
        lemma_count_one(plain_line("DESCRIPTION"@, escaped(e.description->0)), name);
    }
    if filled(e.location) is Some {
        lemma_count_one(plain_line("LOCATION"@, escaped(e.location->0)), name);
    }
    lemma_count_concat(first, end_lines(e), name);
    lemma_count_concat(first + end_lines(e), seq![summary], name);
    lemma_count_concat(first + end_lines(e) + seq![summary], description, name);
    lemma_count_concat(first + end_lines(e) + seq![summary] + description, location, name);
}

/// The document of an event holds what a valid one has to hold, and each once: the
/// identifier, the time of writing, the start and the summary; the end, the description and
/// the location where the event has them.
pub proof fn lemma_event_document(e: EventModel, now: Moment)
    ensures
        ({
            let body = event_document_at(e, now).body;
            &&& count_named(body, "UID"@) == 1
            &&& count_named(body, "DTSTAMP"@) == 1
            &&& count_named(body, "DTSTART"@) == 1
            &&& count_named(body, "SUMMARY"@) == 1
            &&& count_named(body, "DTEND"@) == (if e.dtend is Some {
                1nat
            } else {
                0
            })
            &&& count_named(body, "DESCRIPTION"@) == (if filled(e.description) is Some {
                1nat
            } else {
                0
            })
            &&& count_named(body, "LOCATION"@) == (if filled(e.location) is Some {
                1nat
            } else {
                0
            })
        }),
{
    lemma_names();
    lemma_count_event(e, now, "UID"@);
    lemma_count_event(e, now, "DTSTAMP"@);
    lemma_count_event(e, now, "DTSTART"@);
    lemma_count_event(e, now, "SUMMARY"@);
    lemma_count_event(e, now, "DTEND"@);
    lemma_count_event(e, now, "DESCRIPTION"@);
    lemma_count_event(e, now, "LOCATION"@);
}

proof fn lemma_no_items(lines: Seq<Line>, name: Seq<char>)
    requires
        line_named(lines, name) is None,
    ensures
        date_items(written_properties(lines), name).len() == 0,
    decreases lines.len(),
{
    if lines.len() > 0 {
        let front = lines.drop_last();
        assert(lines =~= front + seq![lines.last()]);
        lemma_line_named_concat(front, seq![lines.last()], name);
        lemma_line_named_one(lines.last(), name);
        lemma_no_items(front, name);
        assert(written_properties(lines).drop_last() =~= written_properties(front));
        assert(written_properties(lines).last() == written_property(lines.last()));
    }
}

proof fn lemma_escaped_empty(s: Seq<char>)
    ensures
        escaped(s).len() == 0 <==> s.len() == 0,
{
}

/// What an event that was written can be read as is fixed.
proof fn lemma_event_read_back(
    e: EventModel,
    now: Moment,
    source_id: Seq<char>,
    color: Seq<char>,
    r: Option<EventModel>,
)
    requires
        is_writable(e),
        is_event_of(written_properties(event_lines(e, now)), source_id, color, r),
    ensures
        r == Some(event_read_back(e, source_id, color)),
{
    let lines = event_lines(e, now);
    let props = written_properties(lines);
    lemma_names();
    let names = seq![
        "UID"@, "DTSTART"@, "DTEND"@, "SUMMARY"@, "DESCRIPTION"@, "LOCATION"@, "URL"@, "RRULE"@,
        "EXDATE"@, "RDATE"@,
    ];
    assert forall|i: int| 0 <= i < names.len() implies first_named(props, #[trigger] names[i]) == (
    match event_line(e, now, names[i]) {
        Some(line) => Some(written_property(line)),
        None => None,
    }) by {
        lemma_event_line(e, now, names[i]);
        lemma_line_named(lines, names[i]);
    }
    assert(names[0] == "UID"@ && names[1] == "DTSTART"@ && names[2] == "DTEND"@);
    assert(names[3] == "SUMMARY"@ && names[4] == "DESCRIPTION"@ && names[5] == "LOCATION"@);
    assert(names[6] == "URL"@ && names[7] == "RRULE"@);
    lemma_event_line(e, now, "EXDATE"@);
    lemma_event_line(e, now, "RDATE"@);
    lemma_no_items(lines, "EXDATE"@);
    lemma_no_items(lines, "RDATE"@);
    let start = time_line("DTSTART"@, e.dtstart, e.all_day);
    let p = written_property(start);
    lemma_time_reads_back(e.dtstart, e.all_day, param_of(p, "TZID"@), None);
    lemma_unescape_inverts_escape(e.summary);
    lemma_escaped_empty(e.summary);
    if filled(e.description) is Some {
        lemma_unescape_inverts_escape(e.description->0);
        lemma_escaped_empty(e.description->0);
    }
    if filled(e.location) is Some {
        lemma_unescape_inverts_escape(e.location->0);
        lemma_escaped_empty(e.location->0);
    }
    assert(is_moment_of(props, "DTSTART"@, None) ==> false);
    assert(r is Some);
    let x = r->0;
    lemma_time_reads_back(e.dtstart, e.all_day, param_of(p, "TZID"@), Some(x.dtstart));
    if e.dtend is Some {
        let end = time_line("DTEND"@, e.dtend->0, e.all_day);
        let q = written_property(end);
        lemma_time_reads_back(e.dtend->0, e.all_day, param_of(q, "TZID"@), x.dtend);
    }
    assert(x.exdates =~= Seq::<CivilDate>::empty());
    assert(x.rdates =~= Seq::<CivilDate>::empty());
    assert(unescaped(Seq::<char>::empty()) == Seq::<char>::empty());
    assert(e.summary.len() == 0 ==> e.summary =~= Seq::<char>::empty());
    assert(x == event_read_back(e, source_id, color));
}

/// Reading a document that was written gives back the event, whenever it was written.
pub proof fn lemma_event_round_trip(
    e: EventModel,
    now: Moment,
    source_id: Seq<char>,
    color: Seq<char>,
    out: Seq<EventModel>,
)
    requires
        is_writable(e),
        valid_moment(now),
        are_events_of(
            all_events(seq![Some(written_calendar(event_document_at(e, now)))]),
            source_id,
            color,
            out,
        ),
    ensures
        is_plain_document(event_document_at(e, now)),
        out == seq![event_read_back(e, source_id, color)],
{
    lemma_event_is_plain(e, now);
    let calendar = written_calendar(event_document_at(e, now));
    let calendars = seq![Some(calendar)];
    let props = written_properties(event_lines(e, now));
    reveal_with_fuel(all_events, 2);
    assert(calendars.drop_last() =~= Seq::<Option<CalendarModel>>::empty());
    let components = all_events(calendars);
    assert(components =~= seq![props]);
    assert(components.drop_last() =~= Seq::<Seq<PropertyModel>>::empty());
    assert(components.last() == props);
    reveal_with_fuel(are_events_of, 2);
    if is_event_of(props, source_id, color, None) {
        lemma_event_read_back(e, now, source_id, color, None);
    } else {
        lemma_event_read_back(e, now, source_id, color, Some(out.last()));
        assert(out =~= seq![out.last()]);
    }
}

// ── To-dos ─────────────────────────────────────────────────────────

/// Whether a to-do that is written at a moment has a form that reads back.
pub open spec fn is_writable_todo(t: TodoModel, now: Moment) -> bool {
    &&& t.uid.len() > 0
    &&& is_plain_value(t.uid)
    &&& is_plain_value(escaped(t.summary))
    &&& t.due is Some ==> is_writable_time(t.due->0, false)
    &&& t.completed ==> is_writable_time(now, false)
}

/// What a to-do reads back as. The document carries the identifier, the summary, when it
/// is due, whether it is completed, and the priority.
pub open spec fn todo_read_back(t: TodoModel, source_id: Seq<char>, color: Seq<char>) -> TodoModel {
    TodoModel {
        uid: t.uid,
        source_id,
        summary: t.summary,
        description: None,
        due: match t.due {
            Some(due) => Some(time_read_back(due, false)),
            None => None,
        },
        completed: t.completed,
        priority: t.priority,
        color,
        etag: None,
        href: None,
    }
}

/// The line of a to-do with a name.
pub open spec fn todo_line(t: TodoModel, now: Moment, name: Seq<char>) -> Option<Line> {
    if name == "UID"@ {
        Some(plain_line("UID"@, t.uid))
    } else if name == "SUMMARY"@ {
        Some(plain_line("SUMMARY"@, escaped(t.summary)))
    } else if name == "DUE"@ {
        match t.due {
            Some(due) => Some(plain_line("DUE"@, ics_stamp(utc_of(due)))),
            None => None,
        }
    } else if name == "STATUS"@ {
        Some(plain_line("STATUS"@, status_text(t.completed)))
    } else if name == "COMPLETED"@ && t.completed {
        Some(plain_line("COMPLETED"@, ics_stamp(utc_of(now))))
    } else if name == "PRIORITY"@ {
        match t.priority {
            Some(n) => Some(plain_line("PRIORITY"@, decimal(n as int))),
            None => None,
        }
    } else {
        None
    }
}

proof fn lemma_todo_line(t: TodoModel, now: Moment, name: Seq<char>)
    ensures
        line_named(todo_lines(t, now), name) == todo_line(t, now, name),
{
    lemma_names();
    let uid = plain_line("UID"@, t.uid);
    let summary = plain_line("SUMMARY"@, escaped(t.summary));
    let status = plain_line("STATUS"@, status_text(t.completed));
    let first = seq![uid, summary];
    assert(first =~= seq![uid] + seq![summary]);
    lemma_line_named_one(uid, name);
    lemma_line_named_one(summary, name);
    lemma_line_named_concat(seq![uid], seq![summary], name);
    if t.due is Some {
        lemma_line_named_one(plain_line("DUE"@, ics_stamp(utc_of(t.due->0))), name);
    }
    lemma_line_named_concat(first, due_lines(t), name);
    lemma_line_named_one(status, name);
    let second = first + due_lines(t);
    lemma_line_named_concat(second, seq![status], name);
    let third = second + seq![status];
    if t.completed {
        lemma_line_named_one(plain_line("COMPLETED"@, ics_stamp(utc_of(now))), name);
    }
    lemma_line_named_concat(third, completed_lines(t, now), name);
    if t.priority is Some {
        lemma_line_named_one(plain_line("PRIORITY"@, decimal(t.priority->0 as int)), name);
    }
    lemma_line_named_concat(third + completed_lines(t, now), priority_lines(t), name);
}

proof fn lemma_stamp_line_is_plain(name: Seq<char>, m: Moment)
    requires
        is_capital_word(name),
        name != "BEGIN"@,
        name != "END"@,
        is_writable_time(m, false),
    ensures
        all_plain(seq![plain_line(name, ics_stamp(utc_of(m)))]),
{
    lemma_time_line_is_plain(name, m, false);
}

proof fn lemma_number_is_plain(n: u32)
    ensures
        is_plain_value(decimal(n as int)),
        decimal(n as int).len() > 0,
        unsigned_value(decimal(n as int)) == Some(n as int),
{
    let s = decimal(n as int);
    lemma_digits_of(n as nat);
    assert forall|i: int| 0 <= i < s.len() implies s[i] != '\n' by {
        assert(is_digit(s[i]));
    }
    assert(s.len() > 0);
    assert(is_digit(s[0]) && is_digit(s[s.len() - 1]));
}

proof fn lemma_status_is_plain(completed: bool)
    ensures
        is_plain_value(status_text(completed)),
        status_text(completed).len() > 0,
        (status_text(completed) == "COMPLETED"@) == completed,
{
    let s = status_text(completed);
    reveal_strlit("COMPLETED");
    reveal_strlit("NEEDS-ACTION");
    assert("COMPLETED"@ =~= seq!['C', 'O', 'M', 'P', 'L', 'E', 'T', 'E', 'D']);
    assert("NEEDS-ACTION"@ =~= seq!['N', 'E', 'E', 'D', 'S', '-', 'A', 'C', 'T', 'I', 'O', 'N']);
    assert(!s.contains('\n'));
}

/// A document of such a to-do is made of plain lines.
pub proof fn lemma_todo_is_plain(t: TodoModel, now: Moment)
    requires
        is_writable_todo(t, now),
    ensures
        is_plain_document(todo_document(t, now)),
{
    let a = seq![plain_line("UID"@, t.uid)];
    let b = seq![plain_line("SUMMARY"@, escaped(t.summary))];
    let c = due_lines(t);
    let d = seq![plain_line("STATUS"@, status_text(t.completed))];
    let f = completed_lines(t, now);
    let g = priority_lines(t);
    assert(all_plain(a) && all_plain(b) && all_plain(c) && all_plain(d) && all_plain(f)
        && all_plain(g)) by {
        lemma_names();
        lemma_names_are_capital();
        lemma_one_is_plain(plain_line("UID"@, t.uid));
        lemma_one_is_plain(plain_line("SUMMARY"@, escaped(t.summary)));
        if t.due is Some {
            lemma_stamp_line_is_plain("DUE"@, t.due->0);
        }
        lemma_status_is_plain(t.completed);
        lemma_one_is_plain(plain_line("STATUS"@, status_text(t.completed)));
        if t.completed {
            lemma_stamp_line_is_plain("COMPLETED"@, now);
        }
        if t.priority is Some {
            lemma_number_is_plain(t.priority->0);
            lemma_one_is_plain(plain_line("PRIORITY"@, decimal(t.priority->0 as int)));
        }
    }
    lemma_head_is_plain();
    lemma_plain_concat(a, b);
    lemma_plain_concat(a + b, c);
    lemma_plain_concat(a + b + c, d);
    lemma_plain_concat(a + b + c + d, f);
    lemma_plain_concat(a + b + c + d + f, g);
    assert(a + b =~= seq![
        plain_line("UID"@, t.uid),
        plain_line("SUMMARY"@, escaped(t.summary)),
    ]);
}

proof fn lemma_todo_read_back(
    t: TodoModel,
    now: Moment,
    source_id: Seq<char>,
    color: Seq<char>,
    r: Option<TodoModel>,
)
    requires
        is_writable_todo(t, now),
        is_todo_of(written_properties(todo_lines(t, now)), source_id, color, r),
    ensures
        r == Some(todo_read_back(t, source_id, color)),
{
    let lines = todo_lines(t, now);
    let props = written_properties(lines);
    lemma_names();
    let names = seq!["UID"@, "SUMMARY"@, "DESCRIPTION"@, "DUE"@, "STATUS"@, "PRIORITY"@];
    assert forall|i: int| 0 <= i < names.len() implies first_named(props, #[trigger] names[i]) == (
    match todo_line(t, now, names[i]) {
        Some(line) => Some(written_property(line)),
        None => None,
    }) by {
        lemma_todo_line(t, now, names[i]);
        lemma_line_named(lines, names[i]);
    }
    assert(names[0] == "UID"@ && names[1] == "SUMMARY"@ && names[2] == "DESCRIPTION"@);
    assert(names[3] == "DUE"@ && names[4] == "STATUS"@ && names[5] == "PRIORITY"@);
    lemma_unescape_inverts_escape(t.summary);
    lemma_escaped_empty(t.summary);
    lemma_status_is_plain(t.completed);
    if t.priority is Some {
        lemma_number_is_plain(t.priority->0);
    }
    assert(r is Some);
    let x = r->0;
    if t.due is Some {
        let line = plain_line("DUE"@, ics_stamp(utc_of(t.due->0)));
        let p = written_property(line);
        lemma_time_reads_back(t.due->0, false, param_of(p, "TZID"@), x.due);
    }
    assert(unescaped(Seq::<char>::empty()) == Seq::<char>::empty());
    assert(t.summary.len() == 0 ==> t.summary =~= Seq::<char>::empty());
    assert(x == todo_read_back(t, source_id, color));
}

/// Reading a document that was written gives back the to-do.
pub proof fn lemma_todo_round_trip(
    t: TodoModel,
    now: Moment,
    source_id: Seq<char>,
    color: Seq<char>,
    out: Seq<TodoModel>,
)
    requires
        is_writable_todo(t, now),
        are_todos_of(
            all_todos(seq![Some(written_calendar(todo_document(t, now)))]),
            source_id,
            color,
            out,
        ),
    ensures
        is_plain_document(todo_document(t, now)),
        out == seq![todo_read_back(t, source_id, color)],
{
    lemma_todo_is_plain(t, now);
    reveal_strlit("VEVENT");
    reveal_strlit("VTODO");
    assert("VEVENT"@.len() == 6 && "VTODO"@.len() == 5);
    let calendars = seq![Some(written_calendar(todo_document(t, now)))];
    let props = written_properties(todo_lines(t, now));
    reveal_with_fuel(all_todos, 2);
    assert(calendars.drop_last() =~= Seq::<Option<CalendarModel>>::empty());
    let components = all_todos(calendars);
    assert(components =~= seq![props]);
    assert(components.drop_last() =~= Seq::<Seq<PropertyModel>>::empty());
    assert(components.last() == props);
    reveal_with_fuel(are_todos_of, 2);
    if is_todo_of(props, source_id, color, None) {
        lemma_todo_read_back(t, now, source_id, color, None);
    } else {
        lemma_todo_read_back(t, now, source_id, color, Some(out.last()));
        assert(out =~= seq![out.last()]);
    }
}

} // verus!
