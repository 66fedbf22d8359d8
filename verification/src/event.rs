//! Calendar events: their text, their parsing and their recurrence.

use crate::component::{
    copy_text, document_text, line_break, line_text, lines_text, opt_text, Document, Line,
};
use crate::escape::{escaped, ics_escape};
use crate::recurrence::dates_view;
use crate::text::{decimal_padded, push_padded};
use crate::time::{
    instant, moment_view, utc_time, valid_moment, CivilDate, CivilTime, Date, Moment, Zoned,
};
use vstd::prelude::*;

verus! {

// ── The model ──────────────────────────────────────────────────────

#[verifier::ext_equal]
pub struct EventModel {
    pub uid: Seq<char>,
    pub source_id: Seq<char>,
    pub summary: Seq<char>,
    pub description: Option<Seq<char>>,
    pub location: Option<Seq<char>>,
    pub dtstart: Moment,
    pub dtend: Option<Moment>,
    pub all_day: bool,
    pub url: Option<Seq<char>>,
    pub color: Seq<char>,
    pub etag: Option<Seq<char>>,
    pub href: Option<Seq<char>>,
    pub rrule: Option<Seq<char>>,
    pub exdates: Seq<CivilDate>,
    pub rdates: Seq<CivilDate>,
}

/// An event of a calendar.
#[derive(Debug)]
pub struct CalendarEvent {
    pub uid: String,
    pub source_id: String,
    pub summary: String,
    pub description: Option<String>,
    pub location: Option<String>,
    pub dtstart: Zoned,
    pub dtend: Option<Zoned>,
    pub all_day: bool,
    pub url: Option<String>,
    pub color: String,
    /// ETag from the CalDAV server (needed for update/delete).
    pub etag: Option<String>,
    /// Resource href on the CalDAV server (needed for update/delete).
    pub href: Option<String>,
    /// Raw RRULE string, if this event recurs.
    pub rrule: Option<String>,
    /// Exception dates excluded from recurrence.
    pub exdates: Vec<Date>,
    /// Additional recurrence dates from RDATE.
    pub rdates: Vec<Date>,
}

impl View for CalendarEvent {
    type V = EventModel;

    open spec fn view(&self) -> EventModel {
        EventModel {
            uid: self.uid@,
            source_id: self.source_id@,
            summary: self.summary@,
            description: opt_text(self.description),
            location: opt_text(self.location),
            dtstart: self.dtstart@,
            dtend: moment_view(self.dtend),
            all_day: self.all_day,
            url: opt_text(self.url),
            color: self.color@,
            etag: opt_text(self.etag),
            href: opt_text(self.href),
            rrule: opt_text(self.rrule),
            exdates: dates_view(self.exdates@),
            rdates: dates_view(self.rdates@),
        }
    }
}

pub open spec fn events_view(v: Seq<CalendarEvent>) -> Seq<EventModel> {
    v.map_values(|e: CalendarEvent| e@)
}

pub open spec fn event_view(e: Option<CalendarEvent>) -> Option<EventModel> {
    match e {
        Some(e) => Some(e@),
        None => None,
    }
}

fn copy_moment(z: &Option<Zoned>) -> (r: Option<Zoned>)
    ensures
        moment_view(r) == moment_view(*z),
{
    match z {
        Some(z) => Some(z.clone()),
        None => None,
    }
}

pub fn copy_dates(dates: &Vec<Date>) -> (r: Vec<Date>)
    ensures
        r@ == dates@,
{
    let mut r: Vec<Date> = Vec::new();
    let mut i: usize = 0;
    while i < dates.len()
        invariant
            i <= dates@.len(),
            r@ == dates@.take(i as int),
        decreases dates@.len() - i,
    {
        r.push(dates[i]);
        i = i + 1;
        proof {
            assert(dates@.take(i as int) =~= dates@.take(i - 1).push(dates@[i - 1]));
        }
    }
    proof {
        assert(dates@.take(i as int) =~= dates@);
    }
    r
}

impl Clone for CalendarEvent {
    fn clone(&self) -> (r: CalendarEvent)
        ensures
            r@ == self@,
    {
        CalendarEvent {
            uid: self.uid.clone(),
            source_id: self.source_id.clone(),
            summary: self.summary.clone(),
            description: copy_text(&self.description),
            location: copy_text(&self.location),
            dtstart: self.dtstart.clone(),
            dtend: copy_moment(&self.dtend),
            all_day: self.all_day,
            url: copy_text(&self.url),
            color: self.color.clone(),
            etag: copy_text(&self.etag),
            href: copy_text(&self.href),
            rrule: copy_text(&self.rrule),
            exdates: copy_dates(&self.exdates),
            rdates: copy_dates(&self.rdates),
        }
    }
}

// ── The text of an event ───────────────────────────────────────────

/// A date as iCalendar writes it, with a year of four digits.
pub open spec fn ics_day(d: CivilDate) -> Seq<char> {
    decimal_padded(d.year, 4) + decimal_padded(d.month, 2) + decimal_padded(d.day, 2)
}

/// A time of universal time as iCalendar writes it.
pub open spec fn ics_stamp(t: CivilTime) -> Seq<char> {
    ics_day(t.date) + seq!['T'] + decimal_padded(t.hour, 2) + decimal_padded(t.minute, 2)
        + decimal_padded(t.second, 2) + seq!['Z']
}

/// The time of day that universal time shows at a moment.
pub open spec fn utc_of(m: Moment) -> CivilTime {
    utc_time(instant(m), m.local.nanosecond)
}

pub open spec fn plain_line(name: Seq<char>, value: Seq<char>) -> Line {
    Line { name, param: None, value }
}

/// The line of a start or an end: the local date of an all-day event, the time in
/// universal time otherwise.
pub open spec fn time_line(name: Seq<char>, m: Moment, all_day: bool) -> Line {
    if all_day {
        Line { name, param: Some(("VALUE"@, "DATE"@)), value: ics_day(m.local.date) }
    } else {
        plain_line(name, ics_stamp(utc_of(m)))
    }
}

/// The line of an optional text, left out where the text is empty.
pub open spec fn optional_line(name: Seq<char>, value: Option<Seq<char>>) -> Seq<Line> {
    match value {
        Some(v) => if v.len() > 0 {
            seq![plain_line(name, escaped(v))]
        } else {
            Seq::empty()
        },
        None => Seq::empty(),
    }
}

/// The lines that stand at the head of every document.
pub open spec fn head_lines() -> Seq<Line> {
    seq![
        plain_line("VERSION"@, "2.0"@),
        plain_line("PRODID"@, "-//COSMIC//cosmic-applet-time//EN"@),
    ]
}

pub open spec fn end_lines(e: EventModel) -> Seq<Line> {
    match e.dtend {
        Some(end) => seq![time_line("DTEND"@, end, e.all_day)],
        None => Seq::empty(),
    }
}

/// The lines of an event that is written at a moment.
pub open spec fn event_lines(e: EventModel, now: Moment) -> Seq<Line> {
    seq![
        plain_line("UID"@, e.uid),
        plain_line("DTSTAMP"@, ics_stamp(utc_of(now))),
        time_line("DTSTART"@, e.dtstart, e.all_day),
    ] + end_lines(e) + seq![plain_line("SUMMARY"@, escaped(e.summary))] + optional_line(
        "DESCRIPTION"@,
        e.description,
    ) + optional_line("LOCATION"@, e.location)
}

/// The document of an event that is written at a moment.
pub open spec fn event_document_at(e: EventModel, now: Moment) -> Document {
    Document { head: head_lines(), kind: "VEVENT"@, body: event_lines(e, now) }
}

pub proof fn lemma_lines_concat(a: Seq<Line>, b: Seq<Line>)
    ensures
        lines_text(a + b) == lines_text(a) + lines_text(b),
    decreases b.len(),
{
    if b.len() == 0 {
        assert(a + b =~= a);
        assert(lines_text(a) + Seq::<char>::empty() =~= lines_text(a));
    } else {
        lemma_lines_concat(a, b.drop_last());
        assert((a + b).drop_last() =~= a + b.drop_last());
        assert((a + b).last() == b.last());
        assert(lines_text(a) + (lines_text(b.drop_last()) + line_text(b.last())) =~= lines_text(a)
            + lines_text(b.drop_last()) + line_text(b.last()));
    }
}

/// Lines that are appended to a text that ends in lines.
pub proof fn lemma_more_lines(head: Seq<char>, a: Seq<Line>, b: Seq<Line>)
    ensures
        head + lines_text(a) + lines_text(b) == head + lines_text(a + b),
{
    lemma_lines_concat(a, b);
    assert(head + lines_text(a) + lines_text(b) =~= head + (lines_text(a) + lines_text(b)));
}

pub proof fn lemma_one_line(line: Line)
    ensures
        lines_text(seq![line]) == line_text(line),
{
    assert(seq![line].drop_last() =~= Seq::<Line>::empty());
    assert(lines_text(Seq::<Line>::empty()) == Seq::<char>::empty());
    assert(Seq::<char>::empty() + line_text(line) =~= line_text(line));
}

/// Appends a line.
pub fn push_line(out: &mut String, name: &str, value: &str)
    ensures
        final(out)@ == old(out)@ + lines_text(seq![plain_line(name@, value@)]),
{
    out.append(name);
    out.push(':');
    out.append(value);
    out.push('\r');
    out.push('\n');
    proof {
        lemma_one_line(plain_line(name@, value@));
        assert(out@ =~= old(out)@ + line_text(plain_line(name@, value@)));
    }
}

fn push_day(out: &mut String, d: Date)
    ensures
        final(out)@ == old(out)@ + ics_day(d@),
{
    push_padded(out, d.year() as i64, 4);
    push_padded(out, d.month() as i64, 2);
    push_padded(out, d.day() as i64, 2);
    proof {
        assert(out@ =~= old(out)@ + ics_day(d@));
    }
}

/// Appends the moment as a time of universal time.
pub fn push_stamp(out: &mut String, z: &Zoned)
    ensures
        final(out)@ == old(out)@ + ics_stamp(utc_of(z@)),
{
    let utc = z.to_utc();
    push_day(out, utc.date());
    out.push('T');
    push_padded(out, utc.hour() as i64, 2);
    push_padded(out, utc.minute() as i64, 2);
    push_padded(out, utc.second() as i64, 2);
    out.push('Z');
    proof {
        assert(out@ =~= old(out)@ + ics_stamp(utc_of(z@)));
    }
}

fn push_time_line(out: &mut String, name: &str, z: &Zoned, all_day: bool)
    ensures
        final(out)@ == old(out)@ + lines_text(seq![time_line(name@, z@, all_day)]),
{
    out.append(name);
    if all_day {
        out.push(';');
        out.append("VALUE");
        out.push('=');
        out.append("DATE");
        out.push(':');
        push_day(out, z.date());
    } else {
        out.push(':');
        push_stamp(out, z);
    }
    out.push('\r');
    out.push('\n');
    proof {
        lemma_one_line(time_line(name@, z@, all_day));
        assert(out@ =~= old(out)@ + line_text(time_line(name@, z@, all_day)));
    }
}

fn push_optional_line(out: &mut String, name: &str, value: &Option<String>)
    ensures
        final(out)@ == old(out)@ + lines_text(optional_line(name@, opt_text(*value))),
{
    proof {
        assert(out@ =~= out@ + Seq::<char>::empty());
    }
    if let Some(v) = value {
        if !v.as_str().is_empty() {
            let written = ics_escape(v.as_str());
            push_line(out, name, written.as_str());
        }
    }
}

fn push_end(out: &mut String, end: &Option<Zoned>, all_day: bool)
    ensures
        final(out)@ == old(out)@ + lines_text(
            match *end {
                Some(end) => seq![time_line("DTEND"@, end@, all_day)],
                None => Seq::empty(),
            },
        ),
{
    proof {
        assert(out@ =~= out@ + Seq::<char>::empty());
    }
    if let Some(end) = end {
        push_time_line(out, "DTEND", end, all_day);
    }
}

/// The text of a document up to the first line of its component.
pub open spec fn document_start(kind: Seq<char>) -> Seq<char> {
    "BEGIN:VCALENDAR\r\n"@ + lines_text(head_lines()) + "BEGIN:"@ + kind + line_break()
}

/// The text of a document behind the last line of its component.
pub open spec fn document_end(kind: Seq<char>) -> Seq<char> {
    "END:"@ + kind + "\r\nEND:VCALENDAR\r\n"@
}

pub proof fn lemma_document(d: Document, head: Seq<char>)
    requires
        d.head == head_lines(),
        head == document_start(d.kind),
    ensures
        head + lines_text(d.body) + document_end(d.kind) == document_text(d),
{
    assert(head + lines_text(d.body) + document_end(d.kind) =~= document_text(d));
}

/// Appends the beginning of a document with one component.
pub fn push_document_start(out: &mut String, kind: &str)
    ensures
        final(out)@ == old(out)@ + document_start(kind@),
{
    out.append("BEGIN:VCALENDAR\r\n");
    push_line(out, "VERSION", "2.0");
    push_line(out, "PRODID", "-//COSMIC//cosmic-applet-time//EN");
    out.append("BEGIN:");
    out.append(kind);
    out.push('\r');
    out.push('\n');
    proof {
        let version = seq![plain_line("VERSION"@, "2.0"@)];
        let prodid = seq![plain_line("PRODID"@, "-//COSMIC//cosmic-applet-time//EN"@)];
        lemma_lines_concat(version, prodid);
        assert(version + prodid =~= head_lines());
        assert(out@ =~= old(out)@ + document_start(kind@));
    }
}

/// Appends the end of a document with one component.
pub fn push_document_end(out: &mut String, kind: &str)
    ensures
        final(out)@ == old(out)@ + document_end(kind@),
{
    out.append("END:");
    out.append(kind);
    out.append("\r\nEND:VCALENDAR\r\n");
    proof {
        assert(out@ =~= old(out)@ + document_end(kind@));
    }
}

/// The hour and minute of a moment on its own clock.
pub open spec fn clock_text(m: Moment) -> Seq<char> {
    decimal_padded(m.local.hour, 2) + seq![':'] + decimal_padded(m.local.minute, 2)
}

/// How the time of an event is shown.
pub open spec fn shown_time(e: EventModel) -> Seq<char> {
    if e.all_day {
        "All day"@
    } else {
        match e.dtend {
            Some(end) => clock_text(e.dtstart) + " – "@ + clock_text(end),
            None => clock_text(e.dtstart),
        }
    }
}

fn push_clock(out: &mut String, z: &Zoned)
    ensures
        final(out)@ == old(out)@ + clock_text(z@),
{
    push_padded(out, z.hour() as i64, 2);
    out.push(':');
    push_padded(out, z.minute() as i64, 2);
    proof {
        assert(out@ =~= old(out)@ + clock_text(z@));
    }
}

impl CalendarEvent {
    /// The local date on which the event starts.
    pub fn date(&self) -> (r: Date)
        ensures
            r@ == self@.dtstart.local.date,
    {
        self.dtstart.date()
    }

    pub fn time_display(&self) -> (r: String)
        ensures
            r@ == shown_time(self@),
    {
        if self.all_day {
            return "All day".to_owned();
        }
        let mut r = String::new();
        push_clock(&mut r, &self.dtstart);
        if let Some(end) = &self.dtend {
            r.append(" – ");
            push_clock(&mut r, end);
        }
        proof {
            assert(r@ =~= shown_time(self@));
        }
        r
    }

    /// Serialize this event as a minimal valid iCalendar (RFC 5545) document that is written
    /// at the moment `now`.
    pub fn to_ics_at(&self, now: &Zoned) -> (r: String)
        ensures
            r@ == document_text(event_document_at(self@, now@)),
    {
        let ghost e = self@;
        let mut ics = String::new();
        push_document_start(&mut ics, "VEVENT");
        let ghost head = document_start("VEVENT"@);
        proof {
            assert(ics@ =~= head);
        }
        push_line(&mut ics, "UID", self.uid.as_str());
        let mut stamp = String::new();
        push_stamp(&mut stamp, now);
        proof {
            assert(stamp@ =~= ics_stamp(utc_of(now@)));
        }
        push_line(&mut ics, "DTSTAMP", stamp.as_str());
        push_time_line(&mut ics, "DTSTART", &self.dtstart, self.all_day);
        let ghost first = seq![
            plain_line("UID"@, e.uid),
            plain_line("DTSTAMP"@, ics_stamp(utc_of(now@))),
            time_line("DTSTART"@, e.dtstart, e.all_day),
        ];
        proof {
            let uid = seq![plain_line("UID"@, e.uid)];
            let written = seq![plain_line("DTSTAMP"@, ics_stamp(utc_of(now@)))];
            let start = seq![time_line("DTSTART"@, e.dtstart, e.all_day)];
            lemma_more_lines(head, uid, written);
            lemma_more_lines(head, uid + written, start);
            assert(uid + written + start =~= first);
        }
        push_end(&mut ics, &self.dtend, self.all_day);
        let ghost second = first + end_lines(e);
        proof {
            lemma_more_lines(head, first, end_lines(e));
        }
        let summary = ics_escape(self.summary.as_str());
        push_line(&mut ics, "SUMMARY", summary.as_str());
        let ghost third = second + seq![plain_line("SUMMARY"@, escaped(e.summary))];
        proof {
            lemma_more_lines(head, second, seq![plain_line("SUMMARY"@, escaped(e.summary))]);
        }
        push_optional_line(&mut ics, "DESCRIPTION", &self.description);
        let ghost fourth = third + optional_line("DESCRIPTION"@, e.description);
        proof {
            lemma_more_lines(head, third, optional_line("DESCRIPTION"@, e.description));
        }
        push_optional_line(&mut ics, "LOCATION", &self.location);
        proof {
            lemma_more_lines(head, fourth, optional_line("LOCATION"@, e.location));
            assert(ics@ == head + lines_text(event_lines(e, now@)));
        }
        push_document_end(&mut ics, "VEVENT");
        proof {
            lemma_document(event_document_at(e, now@), head);
        }
        ics
    }

    /// Serialize this event as a minimal valid iCalendar (RFC 5545) document. It carries the
    /// time at which it is written.
    pub fn to_ics(&self) -> (r: String)
        ensures
            exists|now: Moment|
                valid_moment(now) && r@ == #[trigger] document_text(event_document_at(self@, now)),
    {
        let now = Zoned::now();
        self.to_ics_at(&now)
    }
}

} // verus!
