//! The properties of iCalendar components.

use crate::text::{is_space, same_text};
use vstd::prelude::*;

verus! {

// ── The model ──────────────────────────────────────────────────────

pub struct PropertyModel {
    pub name: Seq<char>,
    pub params: Option<Seq<(Seq<char>, Seq<Seq<char>>)>>,
    pub value: Option<Seq<char>>,
}

/// The events and to-dos of a calendar, each as its properties.
pub struct CalendarModel {
    pub events: Seq<Seq<PropertyModel>>,
    pub todos: Seq<Seq<PropertyModel>>,
}

/// A property of a component: a name, parameters with their values, and a value.
#[derive(Debug)]
pub struct Property {
    pub name: String,
    pub params: Option<Vec<(String, Vec<String>)>>,
    pub value: Option<String>,
}

/// The events and to-dos of a calendar, each as its properties.
#[derive(Debug)]
pub struct Calendar {
    pub events: Vec<Vec<Property>>,
    pub todos: Vec<Vec<Property>>,
}

pub open spec fn opt_text(s: Option<String>) -> Option<Seq<char>> {
    match s {
        Some(s) => Some(s@),
        None => None,
    }
}

pub open spec fn texts_view(v: Seq<String>) -> Seq<Seq<char>> {
    v.map_values(|s: String| s@)
}

pub open spec fn params_view(v: Seq<(String, Vec<String>)>) -> Seq<(Seq<char>, Seq<Seq<char>>)> {
    v.map_values(|p: (String, Vec<String>)| (p.0@, texts_view(p.1@)))
}

impl View for Property {
    type V = PropertyModel;

    open spec fn view(&self) -> PropertyModel {
        PropertyModel {
            name: self.name@,
            params: match self.params {
                Some(p) => Some(params_view(p@)),
                None => None,
            },
            value: opt_text(self.value),
        }
    }
}

pub open spec fn props_view(v: Seq<Property>) -> Seq<PropertyModel> {
    v.map_values(|p: Property| p@)
}

pub open spec fn components_view(v: Seq<Vec<Property>>) -> Seq<Seq<PropertyModel>> {
    v.map_values(|p: Vec<Property>| props_view(p@))
}

impl View for Calendar {
    type V = CalendarModel;

    open spec fn view(&self) -> CalendarModel {
        CalendarModel {
            events: components_view(self.events@),
            todos: components_view(self.todos@),
        }
    }
}

pub open spec fn calendars_view(v: Seq<Option<Calendar>>) -> Seq<Option<CalendarModel>> {
    v.map_values(
        |c: Option<Calendar>|
            match c {
                Some(c) => Some(c@),
                None => None,
            },
    )
}

/// The first property with a name.
pub open spec fn first_named(props: Seq<PropertyModel>, name: Seq<char>) -> Option<PropertyModel>
    decreases props.len(),
{
    if props.len() == 0 {
        None
    } else if props[0].name == name {
        Some(props[0])
    } else {
        first_named(props.skip(1), name)
    }
}

/// The value of the first property with a name.
pub open spec fn value_of(props: Seq<PropertyModel>, name: Seq<char>) -> Option<Seq<char>> {
    match first_named(props, name) {
        Some(p) => p.value,
        None => None,
    }
}

/// The first of the values of the first parameter with a name.
pub open spec fn first_param(params: Seq<(Seq<char>, Seq<Seq<char>>)>, name: Seq<char>) -> Option<
    Seq<char>,
>
    decreases params.len(),
{
    if params.len() == 0 {
        None
    } else if params[0].0 == name {
        if params[0].1.len() > 0 {
            Some(params[0].1[0])
        } else {
            None
        }
    } else {
        first_param(params.skip(1), name)
    }
}

pub open spec fn param_of(p: PropertyModel, name: Seq<char>) -> Option<Seq<char>> {
    match p.params {
        Some(params) => first_param(params, name),
        None => None,
    }
}

// ── Plain documents ────────────────────────────────────────────────

/// A line of a document: a name, at most one parameter, and a value.
pub struct Line {
    pub name: Seq<char>,
    pub param: Option<(Seq<char>, Seq<char>)>,
    pub value: Seq<char>,
}

/// A calendar with one component.
pub struct Document {
    pub head: Seq<Line>,
    pub kind: Seq<char>,
    pub body: Seq<Line>,
}

pub open spec fn line_break() -> Seq<char> {
    seq!['\r', '\n']
}

pub open spec fn line_text(line: Line) -> Seq<char> {
    let param = match line.param {
        Some((key, value)) => seq![';'] + key + seq!['='] + value,
        None => Seq::empty(),
    };
    line.name + param + seq![':'] + line.value + line_break()
}

pub open spec fn lines_text(lines: Seq<Line>) -> Seq<char>
    decreases lines.len(),
{
    if lines.len() == 0 {
        Seq::empty()
    } else {
        lines_text(lines.drop_last()) + line_text(lines.last())
    }
}

pub open spec fn document_text(d: Document) -> Seq<char> {
    "BEGIN:VCALENDAR\r\n"@ + lines_text(d.head) + "BEGIN:"@ + d.kind + line_break() + lines_text(
        d.body,
    ) + "END:"@ + d.kind + "\r\nEND:VCALENDAR\r\n"@
}

/// Whether `s` is a word of capital letters.
pub open spec fn is_capital_word(s: Seq<char>) -> bool {
    s.len() > 0 && forall|i: int| 0 <= i < s.len() ==> 'A' <= #[trigger] s[i] <= 'Z'
}

/// Whether a text stays on its line and keeps its ends.
pub open spec fn is_plain_value(s: Seq<char>) -> bool {
    &&& !s.contains('\n')
    &&& s.len() > 0 ==> s[0] != ':' && !is_space(s.last())
}

pub open spec fn is_plain_line(line: Line) -> bool {
    &&& is_capital_word(line.name)
    &&& line.name != "BEGIN"@
    &&& line.name != "END"@
    &&& match line.param {
        Some((key, value)) => is_capital_word(key) && is_capital_word(value),
        None => true,
    }
    &&& is_plain_value(line.value)
}

pub open spec fn all_plain(lines: Seq<Line>) -> bool {
    forall|i: int| 0 <= i < lines.len() ==> is_plain_line(#[trigger] lines[i])
}

/// Whether a document holds one event or one to-do, in plain lines.
pub open spec fn is_plain_document(d: Document) -> bool {
    (d.kind == "VEVENT"@ || d.kind == "VTODO"@) && all_plain(d.head) && all_plain(d.body)
}

/// The property that a line writes. An empty value is none.
pub open spec fn written_property(line: Line) -> PropertyModel {
    PropertyModel {
        name: line.name,
        params: match line.param {
            Some((key, value)) => Some(seq![(key, seq![value])]),
            None => None,
        },
        value: if line.value.len() > 0 {
            Some(line.value)
        } else {
            None
        },
    }
}

pub open spec fn written_properties(lines: Seq<Line>) -> Seq<PropertyModel> {
    lines.map_values(|line: Line| written_property(line))
}

/// The calendar that a document writes.
pub open spec fn written_calendar(d: Document) -> CalendarModel {
    let body = seq![written_properties(d.body)];
    if d.kind == "VEVENT"@ {
        CalendarModel { events: body, todos: Seq::empty() }
    } else {
        CalendarModel { events: Seq::empty(), todos: body }
    }
}

// ── Reading ────────────────────────────────────────────────────────

/// The calendars of a document as `ical::IcalParser` reads them, one after the other;
/// `None` where one cannot be read.
pub uninterp spec fn ical_calendars(text: Seq<char>) -> Seq<Option<CalendarModel>>;

/// `ical::IcalParser::new` and its `next` up to the end. The result is a function of the
/// text. A document of plain lines around one event or to-do gives back the lines.
#[verifier::external_body]
pub(crate) fn read_calendars(text: &str) -> (r: Vec<Option<Calendar>>)
    ensures
        calendars_view(r@) == ical_calendars(text@),
        forall|d: Document|
            is_plain_document(d) && #[trigger] document_text(d) == text@ ==> calendars_view(r@)
                == seq![Some(written_calendar(d))],
{
    let own = |p: ical::property::Property| {
        Property { name: p.name, params: p.params, value: p.value }
    };
    let all = ical::IcalParser::new(text.as_bytes()).map(|c| c.ok());
    all.map(|c| c.map(|c| Calendar {
        events: c.events.into_iter().map(|e| e.properties.into_iter().map(own).collect()).collect(),
        todos: c.todos.into_iter().map(|t| t.properties.into_iter().map(own).collect()).collect(),
    })).collect()
}

/// A copy of a text.
pub fn copy_text(s: &Option<String>) -> (r: Option<String>)
    ensures
        opt_text(r) == opt_text(*s),
{
    match s {
        Some(s) => Some(s.clone()),
        None => None,
    }
}

/// The first property with a name.
pub fn find_prop<'a>(props: &'a [Property], name: &str) -> (r: Option<&'a Property>)
    ensures
        match r {
            Some(p) => first_named(props_view(props@), name@) == Some(p@),
            None => first_named(props_view(props@), name@) is None,
        },
{
    let ghost all = props_view(props@);
    let mut i: usize = 0;
    proof {
        assert(all.skip(0) =~= all);
    }
    while i < props.len()
        invariant
            i <= props@.len(),
            all == props_view(props@),
            first_named(all, name@) == first_named(all.skip(i as int), name@),
        decreases props@.len() - i,
    {
        proof {
            assert(all.skip(i as int)[0] == props@[i as int]@);
            assert(all.skip(i as int).skip(1) =~= all.skip(i + 1));
        }
        if same_text(props[i].name.as_str(), name) {
            return Some(&props[i]);
        }
        i = i + 1;
    }
    None
}

/// The value of the first property with a name.
pub fn get_prop(props: &[Property], name: &str) -> (r: Option<String>)
    ensures
        opt_text(r) == value_of(props_view(props@), name@),
{
    match find_prop(props, name) {
        Some(p) => copy_text(&p.value),
        None => None,
    }
}

/// The first value of a parameter of a property.
pub fn get_param(prop: &Property, param_name: &str) -> (r: Option<String>)
    ensures
        opt_text(r) == param_of(prop@, param_name@),
{
    match &prop.params {
        None => None,
        Some(params) => {
            let ghost all = params_view(params@);
            let mut i: usize = 0;
            proof {
                assert(all.skip(0) =~= all);
            }
            while i < params.len()
                invariant
                    i <= params@.len(),
                    all == params_view(params@),
                    prop@.params == Some(all),
                    first_param(all, param_name@) == first_param(all.skip(i as int), param_name@),
                decreases params@.len() - i,
            {
                proof {
                    assert(all.skip(i as int)[0] == (
                        params@[i as int].0@,
                        texts_view(params@[i as int].1@),
                    ));
                    assert(all.skip(i as int).skip(1) =~= all.skip(i + 1));
                }
                if same_text(params[i].0.as_str(), param_name) {
                    let values = &params[i].1;
                    proof {
                        if values@.len() > 0 {
                            assert(texts_view(values@)[0] == values@[0]@);
                        }
                    }
                    return if values.len() > 0 {
                        Some(values[0].clone())
                    } else {
                        None
                    };
                }
                i = i + 1;
            }
            None
        },
    }
}

} // verus!
