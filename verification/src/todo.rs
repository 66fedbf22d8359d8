//! To-dos: their text and their parsing.

use crate::component::{
    calendars_view, components_view, copy_text, document_text, get_prop, ical_calendars, lines_text,
    opt_text, props_view, read_calendars, value_of, Calendar, CalendarModel, Document, Line,
    Property, PropertyModel,
};
use crate::escape::{escaped, ics_escape, ics_unescape, unescaped};
use crate::event::{
    document_start, head_lines, ics_stamp, lemma_document, lemma_more_lines, plain_line,
    push_document_end, push_document_start, push_line, push_stamp, utc_of,
};
use crate::ics::{is_moment_of, or_default, or_empty, parse_moment, plain_text, unescape_option};
use crate::roundtrip::{
    is_writable_todo, lemma_todo_is_plain, lemma_todo_round_trip, todo_read_back,
};
use crate::text::{
    chars_of, decimal, decimal_padded, parse_unsigned, push_decimal, push_padded, same_text,
    unsigned_value, within,
};
use crate::time::{moment_view, valid_moment, CivilDate, Moment, Zoned};
use vstd::prelude::*;

verus! {

// ── The model ──────────────────────────────────────────────────────

#[verifier::ext_equal]
pub struct TodoModel {
    pub uid: Seq<char>,
    pub source_id: Seq<char>,
    pub summary: Seq<char>,
    pub description: Option<Seq<char>>,
    pub due: Option<Moment>,
    pub completed: bool,
    pub priority: Option<u32>,
    pub color: Seq<char>,
    pub etag: Option<Seq<char>>,
    pub href: Option<Seq<char>>,
}

/// A to-do of a calendar.
#[derive(Debug)]
pub struct CalendarTodo {
    pub uid: String,
    pub source_id: String,
    pub summary: String,
    pub description: Option<String>,
    pub due: Option<Zoned>,
    pub completed: bool,
    pub priority: Option<u32>,
    pub color: String,
    pub etag: Option<String>,
    pub href: Option<String>,
}

impl View for CalendarTodo {
    type V = TodoModel;

    open spec fn view(&self) -> TodoModel {
        TodoModel {
            uid: self.uid@,
            source_id: self.source_id@,
            summary: self.summary@,
            description: opt_text(self.description),
            due: moment_view(self.due),
            completed: self.completed,
            priority: self.priority,
            color: self.color@,
            etag: opt_text(self.etag),
            href: opt_text(self.href),
        }
    }
}

pub open spec fn todos_view(v: Seq<CalendarTodo>) -> Seq<TodoModel> {
    v.map_values(|t: CalendarTodo| t@)
}

pub open spec fn todo_view(t: Option<CalendarTodo>) -> Option<TodoModel> {
    match t {
        Some(t) => Some(t@),
        None => None,
    }
}

impl Clone for CalendarTodo {
    fn clone(&self) -> (r: CalendarTodo)
        ensures
            r@ == self@,
    {
        CalendarTodo {
            uid: self.uid.clone(),
            source_id: self.source_id.clone(),
            summary: self.summary.clone(),
            description: copy_text(&self.description),
            due: match &self.due {
                Some(due) => Some(due.clone()),
                None => None,
            },
            completed: self.completed,
            priority: self.priority,
            color: self.color.clone(),
            etag: copy_text(&self.etag),
            href: copy_text(&self.href),
        }
    }
}

// ── The text of a to-do ────────────────────────────────────────────

pub open spec fn due_lines(t: TodoModel) -> Seq<Line> {
    match t.due {
        Some(due) => seq![plain_line("DUE"@, ics_stamp(utc_of(due)))],
        None => Seq::empty(),
    }
}

pub open spec fn status_text(completed: bool) -> Seq<char> {
    if completed {
        "COMPLETED"@
    } else {
        "NEEDS-ACTION"@
    }
}

/// The line that says when a to-do was completed.
pub open spec fn completed_lines(t: TodoModel, now: Moment) -> Seq<Line> {
    if t.completed {
        seq![plain_line("COMPLETED"@, ics_stamp(utc_of(now)))]
    } else {
        Seq::empty()
    }
}

pub open spec fn priority_lines(t: TodoModel) -> Seq<Line> {
    match t.priority {
        Some(n) => seq![plain_line("PRIORITY"@, decimal(n as int))],
        None => Seq::empty(),
    }
}

pub open spec fn todo_lines(t: TodoModel, now: Moment) -> Seq<Line> {
    seq![plain_line("UID"@, t.uid), plain_line("SUMMARY"@, escaped(t.summary))] + due_lines(t)
        + seq![plain_line("STATUS"@, status_text(t.completed))] + completed_lines(t, now)
        + priority_lines(t)
}

/// The document of a to-do that is written at a moment.
pub open spec fn todo_document(t: TodoModel, now: Moment) -> Document {
    Document { head: head_lines(), kind: "VTODO"@, body: todo_lines(t, now) }
}

fn push_due(out: &mut String, t: &CalendarTodo)
    ensures
        final(out)@ == old(out)@ + lines_text(due_lines(t@)),
{
    proof {
        assert(out@ =~= out@ + Seq::<char>::empty());
    }
    if let Some(due) = &t.due {
        let mut stamp = String::new();
        push_stamp(&mut stamp, due);
        proof {
            assert(stamp@ =~= ics_stamp(utc_of(due@)));
        }
        push_line(out, "DUE", stamp.as_str());
    }
}

fn push_completed(out: &mut String, t: &CalendarTodo, now: &Zoned)
    ensures
        final(out)@ == old(out)@ + lines_text(completed_lines(t@, now@)),
{
    proof {
        assert(out@ =~= out@ + Seq::<char>::empty());
    }
    if t.completed {
        let mut stamp = String::new();
        push_stamp(&mut stamp, now);
        proof {
            assert(stamp@ =~= ics_stamp(utc_of(now@)));
        }
        push_line(out, "COMPLETED", stamp.as_str());
    }
}

fn push_priority(out: &mut String, t: &CalendarTodo)
    ensures
        final(out)@ == old(out)@ + lines_text(priority_lines(t@)),
{
    proof {
        assert(out@ =~= out@ + Seq::<char>::empty());
    }
    if let Some(n) = t.priority {
        let mut digits = String::new();
        push_decimal(&mut digits, n as i64);
        proof {
            assert(digits@ =~= decimal(n as int));
        }
        push_line(out, "PRIORITY", digits.as_str());
    }
}

/// A date as it is shown: year, month and day without marks between them.
pub open spec fn shown_day(d: CivilDate) -> Seq<char> {
    decimal(d.year) + decimal_padded(d.month, 2) + decimal_padded(d.day, 2)
}

impl CalendarTodo {
    /// Serialize this to-do as an iCalendar document that is written at the moment `now`.
    pub fn to_ics_at(&self, now: &Zoned) -> (r: String)
        ensures
            r@ == document_text(todo_document(self@, now@)),
    {
        let ghost t = self@;
        let mut ics = String::new();
        push_document_start(&mut ics, "VTODO");
        let ghost head = document_start("VTODO"@);
        proof {
            assert(ics@ =~= head);
        }
        push_line(&mut ics, "UID", self.uid.as_str());
        let summary = ics_escape(self.summary.as_str());
        push_line(&mut ics, "SUMMARY", summary.as_str());
        let ghost first = seq![
            plain_line("UID"@, t.uid),
            plain_line("SUMMARY"@, escaped(t.summary)),
        ];
        proof {
            let a = seq![plain_line("UID"@, t.uid)];
            let b = seq![plain_line("SUMMARY"@, escaped(t.summary))];
            lemma_more_lines(head, a, b);
            assert(a + b =~= first);
        }
        push_due(&mut ics, self);
        let ghost second = first + due_lines(t);
        proof {
            lemma_more_lines(head, first, due_lines(t));
        }
        let status = if self.completed {
            "COMPLETED"
        } else {
            "NEEDS-ACTION"
        };
        push_line(&mut ics, "STATUS", status);
        let ghost third = second + seq![plain_line("STATUS"@, status_text(t.completed))];
        proof {
            lemma_more_lines(
                head,
                second,
                seq![plain_line("STATUS"@, status_text(t.completed))],
            );
        }
        push_completed(&mut ics, self, now);
        let ghost fourth = third + completed_lines(t, now@);
        proof {
            lemma_more_lines(head, third, completed_lines(t, now@));
        }
        push_priority(&mut ics, self);
        proof {
            lemma_more_lines(head, fourth, priority_lines(t));
            assert(ics@ == head + lines_text(todo_lines(t, now@)));
        }
        push_document_end(&mut ics, "VTODO");
        proof {
            lemma_document(todo_document(t, now@), head);
        }
        ics
    }

    /// Serialize this to-do as an iCalendar document. A completed one carries the time at
    /// which it is written.
    pub fn to_ics(&self) -> (r: String)
        ensures
            exists|now: Moment|
                valid_moment(now) && r@ == #[trigger] document_text(todo_document(self@, now)),
    {
        let now = Zoned::now();
        self.to_ics_at(&now)
    }

    /// The date on which the to-do is due.
    pub fn due_display(&self) -> (r: String)
        ensures
            r@ == (match self@.due {
                Some(due) => shown_day(due.local.date),
                None => Seq::empty(),
            }),
    {
        let mut r = String::new();
        if let Some(due) = &self.due {
            let d = due.date();
            push_decimal(&mut r, d.year() as i64);
            push_padded(&mut r, d.month() as i64, 2);
            push_padded(&mut r, d.day() as i64, 2);
            proof {
                assert(r@ =~= shown_day(due@.local.date));
            }
        } else {
            proof {
                assert(r@ =~= Seq::<char>::empty());
            }
        }
        r
    }
}

// ── Parsing ────────────────────────────────────────────────────────

/// A priority: a number that fits in 32 bits.
pub open spec fn priority_of(v: Option<Seq<char>>) -> Option<u32> {
    match v {
        Some(v) => match within(unsigned_value(v), 0, u32::MAX as int) {
            Some(n) => Some(n as u32),
            None => None,
        },
        None => None,
    }
}

/// Whether `r` is the to-do that properties describe. There is none without an identifier.
pub open spec fn is_todo_of(
    props: Seq<PropertyModel>,
    source_id: Seq<char>,
    color: Seq<char>,
    r: Option<TodoModel>,
) -> bool {
    match r {
        None => value_of(props, "UID"@) is None,
        Some(t) => {
            &&& value_of(props, "UID"@) is Some
            &&& is_moment_of(props, "DUE"@, t.due)
            &&& t == TodoModel {
                uid: value_of(props, "UID"@)->0,
                source_id,
                summary: unescaped(or_empty(value_of(props, "SUMMARY"@))),
                description: plain_text(value_of(props, "DESCRIPTION"@)),
                due: t.due,
                completed: or_empty(value_of(props, "STATUS"@)) == "COMPLETED"@,
                priority: priority_of(value_of(props, "PRIORITY"@)),
                color,
                etag: None,
                href: None,
            }
        },
    }
}

/// The to-do that properties describe, given the moment at which it is due. There is none
/// without an identifier.
pub open spec fn todo_of(
    props: Seq<PropertyModel>,
    source_id: Seq<char>,
    color: Seq<char>,
    due: Option<Moment>,
) -> Option<TodoModel> {
    match value_of(props, "UID"@) {
        Some(uid) => Some(
            TodoModel {
                uid,
                source_id,
                summary: unescaped(or_empty(value_of(props, "SUMMARY"@))),
                description: plain_text(value_of(props, "DESCRIPTION"@)),
                due,
                completed: or_empty(value_of(props, "STATUS"@)) == "COMPLETED"@,
                priority: priority_of(value_of(props, "PRIORITY"@)),
                color,
                etag: None,
                href: None,
            },
        ),
        None => None,
    }
}

/// The to-dos of the calendars that can be read, one after the other.
pub open spec fn all_todos(calendars: Seq<Option<CalendarModel>>) -> Seq<Seq<PropertyModel>>
    decreases calendars.len(),
{
    if calendars.len() == 0 {
        Seq::empty()
    } else {
        let before = all_todos(calendars.drop_last());
        match calendars.last() {
            Some(c) => before + c.todos,
            None => before,
        }
    }
}

/// Whether `out` are the to-dos that components describe, without those that describe
/// none.
pub open spec fn are_todos_of(
    components: Seq<Seq<PropertyModel>>,
    source_id: Seq<char>,
    color: Seq<char>,
    out: Seq<TodoModel>,
) -> bool
    decreases components.len(),
{
    if components.len() == 0 {
        out.len() == 0
    } else {
        let earlier = components.drop_last();
        ||| is_todo_of(components.last(), source_id, color, None) && are_todos_of(
            earlier,
            source_id,
            color,
            out,
        )
        ||| out.len() > 0 && is_todo_of(components.last(), source_id, color, Some(out.last()))
            && are_todos_of(earlier, source_id, color, out.drop_last())
    }
}

fn read_priority(v: &Option<String>) -> (r: Option<u32>)
    ensures
        r == priority_of(opt_text(*v)),
{
    match v {
        Some(v) => {
            let cs = chars_of(v.as_str());
            match parse_unsigned(&cs, u32::MAX as u64) {
                Some(n) => Some(n as u32),
                None => None,
            }
        },
        None => None,
    }
}

/// The to-do that properties describe, given the moment at which it is due.
pub fn todo_with(props: &[Property], source_id: &str, color: &str, due: Option<Zoned>) -> (r: Option<
    CalendarTodo,
>)
    ensures
        todo_view(r) == todo_of(props_view(props@), source_id@, color@, moment_view(due)),
{
    let uid = match get_prop(props, "UID") {
        Some(uid) => uid,
        None => return None,
    };
    let summary = or_default(get_prop(props, "SUMMARY"));
    let status = or_default(get_prop(props, "STATUS"));
    Some(
        CalendarTodo {
            uid,
            source_id: source_id.to_owned(),
            summary: ics_unescape(summary.as_str()),
            description: unescape_option(get_prop(props, "DESCRIPTION")),
            due,
            completed: same_text(status.as_str(), "COMPLETED"),
            priority: read_priority(&get_prop(props, "PRIORITY")),
            color: color.to_owned(),
            etag: None,
            href: None,
        },
    )
}

/// The to-do that properties describe.
pub fn parse_todo(props: &[Property], source_id: &str, color: &str) -> (r: Option<CalendarTodo>)
    ensures
        is_todo_of(props_view(props@), source_id@, color@, todo_view(r)),
{
    todo_with(props, source_id, color, parse_moment(props, "DUE"))
}

fn push_todos(
    components: &Vec<Vec<Property>>,
    source_id: &str,
    color: &str,
    out: &mut Vec<CalendarTodo>,
    Ghost(done): Ghost<Seq<Seq<PropertyModel>>>,
)
    requires
        are_todos_of(done, source_id@, color@, todos_view(old(out)@)),
    ensures
        are_todos_of(
            done + components_view(components@),
            source_id@,
            color@,
            todos_view(final(out)@),
        ),
{
    let ghost more = components_view(components@);
    let mut i: usize = 0;
    proof {
        assert(done + more.take(0) =~= done);
    }
    while i < components.len()
        invariant
            i <= components@.len(),
            more == components_view(components@),
            are_todos_of(done + more.take(i as int), source_id@, color@, todos_view(out@)),
        decreases components@.len() - i,
    {
        let ghost before = todos_view(out@);
        let ghost next = done + more.take(i + 1);
        proof {
            assert(next.drop_last() =~= done + more.take(i as int));
            assert(next.last() == props_view(components@[i as int]@));
        }
        if let Some(t) = parse_todo(components[i].as_slice(), source_id, color) {
            let ghost m = t@;
            out.push(t);
            proof {
                assert(todos_view(out@) =~= before.push(m));
                assert(todos_view(out@).drop_last() =~= before);
            }
        }
        i = i + 1;
    }
    proof {
        assert(more.take(i as int) =~= more);
    }
}

/// The to-dos of the calendars that could be read.
pub fn todos_of_calendars(calendars: &Vec<Option<Calendar>>, source_id: &str, color: &str) -> (r:
    Vec<CalendarTodo>)
    ensures
        are_todos_of(all_todos(calendars_view(calendars@)), source_id@, color@, todos_view(r@)),
{
    let ghost all = calendars_view(calendars@);
    let mut out: Vec<CalendarTodo> = Vec::new();
    let mut i: usize = 0;
    proof {
        assert(all.take(0) =~= Seq::<Option<CalendarModel>>::empty());
    }
    while i < calendars.len()
        invariant
            i <= calendars@.len(),
            all == calendars_view(calendars@),
            are_todos_of(all_todos(all.take(i as int)), source_id@, color@, todos_view(out@)),
        decreases calendars@.len() - i,
    {
        proof {
            assert(all.take(i + 1).drop_last() =~= all.take(i as int));
            assert(all.take(i + 1).last() == all[i as int]);
        }
        if let Some(c) = &calendars[i] {
            proof {
                assert(all[i as int] == Some(c@));
            }
            push_todos(&c.todos, source_id, color, &mut out, Ghost(all_todos(all.take(i as int))));
        }
        i = i + 1;
    }
    proof {
        assert(all.take(i as int) =~= all);
    }
    out
}

/// Parse iCalendar data for VTODO components.
///
/// The document that a to-do is written as gives back that to-do.
pub fn parse_ics_todos(ics_data: &str, source_id: &str, color: &str) -> (r: Vec<CalendarTodo>)
    ensures
        are_todos_of(
            all_todos(ical_calendars(ics_data@)),
            source_id@,
            color@,
            todos_view(r@),
        ),
        forall|t: TodoModel, now: Moment|
            is_writable_todo(t, now) && ics_data@ == #[trigger] document_text(
                todo_document(t, now),
            ) ==> todos_view(r@) == seq![todo_read_back(t, source_id@, color@)],
{
    let calendars = read_calendars(ics_data);
    let r = todos_of_calendars(&calendars, source_id, color);
    proof {
        assert forall|t: TodoModel, now: Moment|
            is_writable_todo(t, now) && ics_data@ == #[trigger] document_text(
                todo_document(t, now),
            ) implies todos_view(r@) == seq![todo_read_back(t, source_id@, color@)] by {
            lemma_todo_is_plain(t, now);
            lemma_todo_round_trip(t, now, source_id@, color@, todos_view(r@));
        }
    }
    r
}

} // verus!
