//! What the applet shows, as plain values.

use crate::agenda::has_day;
use crate::clock::{first_weekday, weekday_setting};
use crate::component::{opt_text, texts_view};
use crate::config::{sources_view, SourceConfig, SourceModel};
use crate::event::{events_view, shown_time, CalendarEvent, EventModel};
use crate::forms::{color_parts, parse_hex_color};
use crate::time::{
    date_on, date_view, day_number, is_day, offset_in_week, valid_date, weekday_offset, CivilDate,
    Date, Step, Weekday,
};
use crate::todo::{shown_day, CalendarTodo, TodoModel};
use crate::window::{
    all_writable, position_of_source, typed, viewed, writable_calendars, writables_view, Window,
    WindowModel, Writable,
};
use vstd::prelude::*;

verus! {

// ── The grid of a month ────────────────────────────────────────────

/// The first day of the month of a date.
pub open spec fn first_of_month(d: CivilDate) -> CivilDate {
    CivilDate { day: 1, ..d }
}

/// The day number of the `i`-th cell of the grid of a month, whose rows begin on a weekday:
/// the first cell is the last such weekday on or before the first of the month.
pub open spec fn cell_day(d: CivilDate, first: Weekday, i: int) -> int {
    let start = first_of_month(d);
    day_number(start) - (offset_in_week(start) - weekday_offset(first)) % 7 + i
}

/// Whether every cell of the grid is a date.
pub open spec fn grid_fits(d: CivilDate, first: Weekday) -> bool {
    is_day(cell_day(d, first, 0)) && is_day(cell_day(d, first, 41))
}

/// A cell of the grid.
#[derive(Clone, Copy, Debug)]
pub struct DayCell {
    pub date: Date,
    pub is_month: bool,
    pub is_day: bool,
    pub is_today: bool,
    pub has_events: bool,
}

/// How a cell is drawn.
#[derive(Clone, Copy, Debug, PartialEq, Eq, Structural)]
pub enum CellStyle {
    Suggested,
    Standard,
    Text,
}

impl DayCell {
    /// The selected day stands out most, then today.
    pub fn style(&self) -> (r: CellStyle)
        ensures
            r == (if self.is_day {
                CellStyle::Suggested
            } else if self.is_today {
                CellStyle::Standard
            } else {
                CellStyle::Text
            }),
    {
        if self.is_day {
            CellStyle::Suggested
        } else if self.is_today {
            CellStyle::Standard
        } else {
            CellStyle::Text
        }
    }

    /// Whether the cell can be pressed: days of other months cannot.
    pub fn is_pressable(&self) -> (r: bool)
        ensures
            r == (self.is_month || self.is_day || self.is_today),
    {
        self.is_month || self.is_day || self.is_today
    }
}

/// Whether a cell is the `i`-th of the grid.
pub open spec fn is_cell(w: WindowModel, cell: DayCell, i: int) -> bool {
    let d = date_on(cell_day(w.date_selected, weekday_setting(w.config.first_day_of_week), i));
    &&& cell.date@ == d
    &&& cell.is_month == (first_of_month(d) == first_of_month(w.date_selected))
    &&& cell.is_day == (d == w.date_selected)
    &&& cell.is_today == (d == w.date_today)
    &&& cell.has_events == has_day(w.calendar_events, d)
}

/// The first day of the grid of a month whose rows begin on a weekday.
pub fn calendar_first(date: Date, first: Weekday) -> (r: Option<Date>)
    ensures
        date_view(r) == (if is_day(cell_day(date@, first, 0)) {
            Some(date_on(cell_day(date@, first, 0)))
        } else {
            None
        }),
{
    match Date::new(date.year(), date.month(), 1) {
        Some(start) => {
            let back: i8 = start.weekday().to_monday_zero_offset() - first.to_monday_zero_offset();
            let days: i8 = if back < 0 {
                back + 7
            } else {
                back
            };
            proof {
                assert(start@ == first_of_month(date@));
                assert(days == (offset_in_week(start@) - weekday_offset(first)) % 7);
            }
            start.plus(Step::Days(-(days as i32)))
        },
        None => {
            proof {
                assert(valid_date(first_of_month(date@)));
            }
            None
        },
    }
}

impl Window {
    /// The cells of the grid of the selected month: six weeks.
    pub fn calendar_grid(&self) -> (r: Vec<DayCell>)
        requires
            grid_fits(self@.date_selected, weekday_setting(self@.config.first_day_of_week)),
        ensures
            r@.len() == 42,
            forall|i: int| 0 <= i < 42 ==> is_cell(self@, #[trigger] r@[i], i),
    {
        let first = first_weekday(self.config.first_day_of_week);
        let mut cells: Vec<DayCell> = Vec::new();
        let start = calendar_first(self.date_selected, first).unwrap();
        let ghost n = cell_day(self@.date_selected, first, 0);
        proof {
            crate::time::lemma_day_exists(n);
        }
        let mut i: i32 = 0;
        while i < 42
            invariant
                0 <= i <= 42,
                cells@.len() == i,
                first == weekday_setting(self@.config.first_day_of_week),
                n == cell_day(self@.date_selected, first, 0),
                is_day(n),
                is_day(n + 41),
                day_number(start@) == n,
                forall|k: int| 0 <= k < i ==> is_cell(self@, #[trigger] cells@[k], k),
            decreases 42 - i,
        {
            let date = start.plus(Step::Days(i)).unwrap();
            let selected = self.date_selected;
            cells.push(
                DayCell {
                    date,
                    is_month: date.year() == selected.year() && date.month() == selected.month(),
                    is_day: date.is_same(selected),
                    is_today: date.is_same(self.date_today),
                    has_events: self.calendar_events.contains_key(&date),
                },
            );
            proof {
                assert(cell_day(self@.date_selected, first, i as int) == n + i);
                assert(is_cell(self@, cells@[i as int], i as int));
            }
            i = i + 1;
        }
        cells
    }
}

/// Every week of the grid begins on the chosen weekday, and the first of the selected month
/// is in its first week.
pub proof fn lemma_grid_weeks(d: CivilDate, first: Weekday, week: int)
    requires
        valid_date(d),
        grid_fits(d, first),
        0 <= week < 6,
    ensures
        offset_in_week(date_on(cell_day(d, first, 7 * week))) == weekday_offset(first),
        cell_day(d, first, 0) <= day_number(first_of_month(d)) <= cell_day(d, first, 6),
{
    let n = cell_day(d, first, 7 * week);
    let start = first_of_month(d);
    let back = (offset_in_week(start) - weekday_offset(first)) % 7;
    assert(is_day(n));
    crate::time::lemma_day_exists(n);
    assert(n - 1 == (day_number(start) - 1) - back + 7 * week);
    assert((n - 1) % 7 == weekday_offset(first)) by {
        let a = day_number(start) - 1;
        let w = weekday_offset(first);
        assert(a % 7 == offset_in_week(start));
        assert((a - back) % 7 == w);
        assert((a - back + 7 * week) % 7 == (a - back) % 7);
    }
}

// ── Rows ───────────────────────────────────────────────────────────

/// A row of the list of events.
#[derive(Debug)]
pub struct EventRow {
    pub uid: String,
    pub time: String,
    pub summary: String,
    pub color: (u8, u8, u8),
}

pub open spec fn color_view(c: (u8, u8, u8)) -> (int, int, int) {
    (c.0 as int, c.1 as int, c.2 as int)
}

/// The row of an event.
pub fn event_row(e: &CalendarEvent) -> (r: EventRow)
    ensures
        r.uid@ == e@.uid,
        r.time@ == shown_time(e@),
        r.summary@ == e@.summary,
        color_view(r.color) == color_parts(e@.color),
{
    EventRow {
        uid: e.uid.clone(),
        time: e.time_display(),
        summary: e.summary.clone(),
        color: parse_hex_color(e.color.as_str()),
    }
}

/// A row of the list of to-dos.
#[derive(Debug)]
pub struct TodoRow {
    pub uid: String,
    pub check: String,
    pub summary: String,
    pub due: String,
    pub color: (u8, u8, u8),
}

/// The row of a to-do.
pub fn todo_row(t: &CalendarTodo) -> (r: TodoRow)
    ensures
        r.uid@ == t@.uid,
        r.check@ == (if t@.completed {
            "☑"@
        } else {
            "☐"@
        }),
        r.summary@ == t@.summary,
        r.due@ == (match t@.due {
            Some(due) => shown_day(due.local.date),
            None => Seq::empty(),
        }),
        color_view(r.color) == color_parts(t@.color),
{
    let check = if t.completed {
        "☑"
    } else {
        "☐"
    };
    TodoRow {
        uid: t.uid.clone(),
        check: check.to_owned(),
        summary: t.summary.clone(),
        due: t.due_display(),
        color: parse_hex_color(t.color.as_str()),
    }
}

// ── The form ───────────────────────────────────────────────────────

/// The form of a new event, besides what is typed into it.
#[derive(Debug)]
pub struct FormView {
    /// Whether start and end are asked for.
    pub shows_times: bool,
    /// The calendars to choose from.
    pub calendars: Vec<Writable>,
    /// Whether the event is being saved.
    pub saving: bool,
    /// Whether the form can be saved.
    pub can_save: bool,
}

/// Whether a form can be saved: nothing is being saved, there is a summary, and there is a
/// calendar.
pub open spec fn is_savable(w: WindowModel, saving: bool) -> bool {
    !saving && w.form.summary.len() > 0 && all_writable(w.calendar_config.sources).len() > 0
}

// ── One event ──────────────────────────────────────────────────────

/// What is shown of the event that is viewed.
#[derive(Debug)]
pub enum DetailView {
    /// Whether it is really to be deleted.
    ConfirmDelete { deleting: bool },
    /// The form of its change.
    Edit { form: FormView },
    /// The event itself.
    Read {
        summary: String,
        time: String,
        description: Option<String>,
        location: Option<String>,
        url: Option<String>,
        /// Whether it can be edited and deleted.
        can_change: bool,
    },
}

/// A text of an event, where it is not empty.
pub open spec fn shown_text(s: Option<Seq<char>>) -> Option<Seq<char>> {
    match s {
        Some(s) => typed(s),
        None => None,
    }
}

fn shown(s: &Option<String>) -> (r: Option<String>)
    ensures
        opt_text(r) == shown_text(opt_text(*s)),
{
    match s {
        Some(s) => if s.as_str().is_empty() {
            None
        } else {
            Some(s.clone())
        },
        None => None,
    }
}

/// Whether a view is that of an event: the question about its deletion, else the form of its
/// change, else the event. It can be changed where it has an address and an ETag on its
/// server.
pub open spec fn is_detail(w: WindowModel, e: EventModel, r: DetailView) -> bool {
    if w.confirming_delete {
        r matches DetailView::ConfirmDelete { deleting } && deleting == w.deleting_event
    } else if w.editing_event {
        r matches DetailView::Edit { form } && is_form(w, form, w.editing_event_saving)
    } else {
        r matches DetailView::Read { summary, time, description, location, url, can_change }
            && summary@ == e.summary && time@ == shown_time(e) && opt_text(description)
            == shown_text(e.description) && opt_text(location) == shown_text(e.location)
            && opt_text(url) == shown_text(e.url) && can_change == (e.etag is Some
            && e.href is Some)
    }
}

/// Whether a view is that of the form.
pub open spec fn is_form(w: WindowModel, r: FormView, saving: bool) -> bool {
    &&& r.shows_times == !w.form.all_day
    &&& writables_view(r.calendars@) == all_writable(w.calendar_config.sources)
    &&& r.saving == saving
    &&& r.can_save == is_savable(w, saving)
}

impl Window {
    /// The calendars that events can be put into.
    pub fn writable_calendars(&self) -> (r: Vec<Writable>)
        ensures
            writables_view(r@) == all_writable(self@.calendar_config.sources),
    {
        writable_calendars(&self.calendar_config.sources)
    }

    fn form_view(&self, saving: bool) -> (r: FormView)
        ensures
            is_form(self@, r, saving),
    {
        let calendars = self.writable_calendars();
        proof {
            assert(writables_view(calendars@).len() == calendars@.len());
        }
        let can_save = !saving && !self.form.summary.as_str().is_empty() && calendars.len() > 0;
        FormView { shows_times: !self.form.all_day, calendars, saving, can_save }
    }

    /// The form of a new event.
    pub fn create_event_form(&self) -> (r: FormView)
        ensures
            is_form(self@, r, self@.creating_event_saving),
    {
        self.form_view(self.creating_event_saving)
    }

    /// The event detail view (and inline edit / delete confirmation).
    pub fn event_detail_view(&self, event: &CalendarEvent) -> (r: DetailView)
        ensures
            is_detail(self@, event@, r),
    {
        if self.confirming_delete {
            return DetailView::ConfirmDelete { deleting: self.deleting_event };
        }
        if self.editing_event {
            return DetailView::Edit { form: self.form_view(self.editing_event_saving) };
        }
        DetailView::Read {
            summary: event.summary.clone(),
            time: event.time_display(),
            description: shown(&event.description),
            location: shown(&event.location),
            url: shown(&event.url),
            can_change: event.etag.is_some() && event.href.is_some(),
        }
    }
}

// ── The popup ──────────────────────────────────────────────────────

/// The names of the sources with identifiers, without those that are not known.
pub open spec fn names_of(sources: Seq<SourceModel>, ids: Seq<Seq<char>>) -> Seq<Seq<char>>
    decreases ids.len(),
{
    if ids.len() == 0 {
        Seq::empty()
    } else {
        let before = names_of(sources, ids.drop_last());
        let i = position_of_source(sources, ids.last());
        if 0 <= i < sources.len() {
            before.push(sources[i].name)
        } else {
            before
        }
    }
}

/// What the popup shows, besides the grid and what is typed.
#[derive(Debug)]
pub struct MainView {
    /// Whether there is a way back to today.
    pub shows_today: bool,
    /// Whether an event can be added.
    pub can_add: bool,
    pub syncing: bool,
    pub error: Option<String>,
    /// The sources that need the user to sign in again.
    pub sign_in_again: Vec<String>,
    /// The events of the selected day.
    pub day_events: Vec<EventRow>,
    /// Whether the form of a new event is open.
    pub creating: bool,
    pub upcoming: Vec<EventRow>,
    pub todos: Vec<TodoRow>,
}

/// What the popup shows.
#[derive(Debug)]
pub enum Page {
    /// The event that is viewed.
    Detail(DetailView),
    /// The calendar.
    Main(MainView),
}

/// Whether rows are those of events.
pub open spec fn are_rows(events: Seq<EventModel>, rows: Seq<EventRow>) -> bool {
    events.len() == rows.len() && forall|i: int|
        0 <= i < rows.len() ==> is_row(events[i], #[trigger] rows[i])
}

pub open spec fn is_row(e: EventModel, r: EventRow) -> bool {
    &&& r.uid@ == e.uid
    &&& r.time@ == shown_time(e)
    &&& r.summary@ == e.summary
    &&& color_view(r.color) == color_parts(e.color)
}

pub open spec fn is_todo_row(t: TodoModel, r: TodoRow) -> bool {
    &&& r.uid@ == t.uid
    &&& r.check@ == (if t.completed {
        "☑"@
    } else {
        "☐"@
    })
    &&& r.summary@ == t.summary
    &&& r.due@ == (match t.due {
        Some(due) => shown_day(due.local.date),
        None => Seq::empty(),
    })
    &&& color_view(r.color) == color_parts(t.color)
}

/// The events of a date among days.
pub open spec fn events_of_day(
    days: Seq<(CivilDate, Seq<EventModel>)>,
    d: CivilDate,
    events: Seq<EventModel>,
) -> bool {
    if has_day(days, d) {
        exists|i: int| 0 <= i < days.len() && #[trigger] days[i] == (d, events)
    } else {
        events.len() == 0
    }
}

/// Whether a view is that of the calendar.
pub open spec fn is_main(w: WindowModel, r: MainView) -> bool {
    &&& r.shows_today == (w.date_selected != w.date_today)
    &&& r.can_add == (all_writable(w.calendar_config.sources).len() > 0)
    &&& r.syncing == w.calendar_syncing
    &&& opt_text(r.error) == w.calendar_error
    &&& texts_view(r.sign_in_again@) == names_of(w.calendar_config.sources, w.auth_expired_sources)
    &&& exists|events: Seq<EventModel>| #[trigger]
        events_of_day(w.calendar_events, w.date_selected, events) && are_rows(events, r.day_events@)
    &&& r.creating == w.creating_event
    &&& are_rows(w.upcoming_events, r.upcoming@)
    &&& w.calendar_todos.len() == r.todos@.len()
    &&& forall|i: int|
        0 <= i < r.todos@.len() ==> is_todo_row(w.calendar_todos[i], #[trigger] r.todos@[i])
}

/// Whether a page is what the popup shows.
pub open spec fn is_page(w: WindowModel, r: Page) -> bool {
    match viewed(w) {
        Some(e) => r matches Page::Detail(d) && is_detail(w, e, d),
        None => r matches Page::Main(m) && is_main(w, m),
    }
}

fn rows_of(events: &Vec<CalendarEvent>) -> (r: Vec<EventRow>)
    ensures
        are_rows(events_view(events@), r@),
{
    let mut r: Vec<EventRow> = Vec::new();
    let mut i: usize = 0;
    while i < events.len()
        invariant
            i <= events@.len(),
            r@.len() == i,
            forall|j: int| 0 <= j < i ==> is_row(events@[j]@, #[trigger] r@[j]),
        decreases events@.len() - i,
    {
        r.push(event_row(&events[i]));
        i = i + 1;
    }
    proof {
        let view = events_view(events@);
        assert forall|j: int| 0 <= j < r@.len() implies is_row(view[j], #[trigger] r@[j]) by {
            assert(view[j] == events@[j]@);
        }
    }
    r
}

fn names(sources: &Vec<SourceConfig>, ids: &Vec<String>) -> (r: Vec<String>)
    ensures
        texts_view(r@) == names_of(sources_view(sources@), texts_view(ids@)),
{
    let ghost all = texts_view(ids@);
    let ghost known = sources_view(sources@);
    let mut r: Vec<String> = Vec::new();
    let mut i: usize = 0;
    proof {
        assert(all.take(0) =~= Seq::<Seq<char>>::empty());
        assert(texts_view(r@) =~= Seq::<Seq<char>>::empty());
    }
    while i < ids.len()
        invariant
            i <= ids@.len(),
            all == texts_view(ids@),
            known == sources_view(sources@),
            texts_view(r@) == names_of(known, all.take(i as int)),
        decreases ids@.len() - i,
    {
        let ghost before = texts_view(r@);
        proof {
            assert(all.take(i + 1).drop_last() =~= all.take(i as int));
            assert(all.take(i + 1).last() == ids@[i as int]@);
        }
        let at: usize = crate::window::find_source(sources, ids[i].as_str());
        if at < sources.len() {
            proof {
                assert(known[at as int] == sources@[at as int]@);
            }
            r.push(sources[at].name.clone());
            proof {
                assert(texts_view(r@) =~= before.push(known[at as int].name));
            }
        }
        i = i + 1;
    }
    proof {
        assert(all.take(i as int) =~= all);
    }
    r
}

impl Window {
    fn day_rows(&self) -> (r: Vec<EventRow>)
        ensures
            exists|events: Seq<EventModel>| #[trigger]
                events_of_day(self@.calendar_events, self@.date_selected, events) && are_rows(
                    events,
                    r@,
                ),
    {
        match self.calendar_events.get(&self.date_selected) {
            Some(events) => {
                proof {
                    let days = self@.calendar_events;
                    let d = self@.date_selected;
                    let i = choose|i: int|
                        0 <= i < days.len() && #[trigger] days[i] == (d, events_view(events@));
                    assert(days[i].0 == d);
                    assert(events_of_day(days, d, events_view(events@)));
                }
                rows_of(events)
            },
            None => {
                let r: Vec<EventRow> = Vec::new();
                proof {
                    assert(events_of_day(
                        self@.calendar_events,
                        self@.date_selected,
                        Seq::<EventModel>::empty(),
                    ));
                }
                r
            },
        }
    }

    fn todo_rows(&self) -> (r: Vec<TodoRow>)
        ensures
            r@.len() == self@.calendar_todos.len(),
            forall|i: int|
                0 <= i < r@.len() ==> is_todo_row(self@.calendar_todos[i], #[trigger] r@[i]),
    {
        let mut r: Vec<TodoRow> = Vec::new();
        let mut i: usize = 0;
        while i < self.calendar_todos.len()
            invariant
                i <= self.calendar_todos@.len(),
                r@.len() == i,
                forall|j: int|
                    0 <= j < i ==> is_todo_row(self.calendar_todos@[j]@, #[trigger] r@[j]),
            decreases self.calendar_todos@.len() - i,
        {
            r.push(todo_row(&self.calendar_todos[i]));
            i = i + 1;
        }
        proof {
            let view = self@.calendar_todos;
            assert forall|j: int| 0 <= j < r@.len() implies is_todo_row(
                view[j],
                #[trigger] r@[j],
            ) by {
                assert(view[j] == self.calendar_todos@[j]@);
            }
        }
        r
    }

    /// What the popup shows: the event that is viewed, or the calendar.
    pub fn view_window(&self) -> (r: Page)
        ensures
            is_page(self@, r),
    {
        if let Some(event) = self.viewed_event() {
            return Page::Detail(self.event_detail_view(event));
        }
        let calendars = self.writable_calendars();
        proof {
            assert(writables_view(calendars@).len() == calendars@.len());
        }
        Page::Main(
            MainView {
                shows_today: !self.date_selected.is_same(self.date_today),
                can_add: calendars.len() > 0,
                syncing: self.calendar_syncing,
                error: crate::component::copy_text(&self.calendar_error),
                sign_in_again: names(&self.calendar_config.sources, &self.auth_expired_sources),
                day_events: self.day_rows(),
                creating: self.creating_event,
                upcoming: rows_of(&self.upcoming_events),
                todos: self.todo_rows(),
            },
        )
    }
}

} // verus!
