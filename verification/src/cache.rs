//! Event cache for fast startup.
//!
//! Cached events are written after each successful sync and loaded on applet
//! startup so the user sees calendar data immediately before the first sync
//! completes.

use crate::component::{copy_text, opt_text, texts_view};
use crate::crypto::{decrypt, decrypted, encrypt, sealed, CryptoError, EncryptionKey, MAX_MESSAGE};
use crate::event::{event_view, events_view, CalendarEvent, EventModel};
use crate::recurrence::dates_view;
use crate::text::{
    chars_of, decimal_padded, find_in, find_text, has_text, is_digit, lemma_digits_read,
    lemma_find_is, lemma_padded, lemma_split_first, lemma_split_one, occurs_at, parse_signed,
    pieces_view, push_padded, signed_value, split, split_at_char, text_of, within,
};
use crate::time::{
    date_view, instant, moment_view, timestamp_read, timestamp_text, valid_date, valid_moment,
    CivilDate, Date, Moment, ZoneModel, Zoned,
};
use crate::todo::{todos_view, CalendarTodo, TodoModel};
use vstd::prelude::*;
use vstd::slice::slice_subrange;

verus! {

// ── Where the files are ────────────────────────────────────────────

/// A path with one more component.
pub open spec fn joined_path(base: Seq<char>, name: Seq<char>) -> Seq<char> {
    if base.len() == 0 || base.last() == '/' {
        base + name
    } else {
        base + seq!['/'] + name
    }
}

/// The directory of the user's configuration: the one that is set, unless it is empty;
/// else the usual one in the home directory.
pub open spec fn config_dir(xdg: Option<Seq<char>>, home: Option<Seq<char>>) -> Option<Seq<char>> {
    if xdg is Some && xdg->0.len() > 0 {
        xdg
    } else {
        match home {
            Some(home) => Some(joined_path(home, ".config"@)),
            None => None,
        }
    }
}

/// A file of the applet.
pub open spec fn applet_file(
    xdg: Option<Seq<char>>,
    home: Option<Seq<char>>,
    name: Seq<char>,
) -> Option<Seq<char>> {
    match config_dir(xdg, home) {
        Some(dir) => Some(
            joined_path(
                joined_path(
                    joined_path(
                        joined_path(dir, "cosmic"@),
                        "com.system76.CosmicAppletTime.Calendar"@,
                    ),
                    "v1"@,
                ),
                name,
            ),
        ),
        None => None,
    }
}

fn join_path(base: String, name: &str) -> (r: String)
    ensures
        r@ == joined_path(base@, name@),
{
    let cs = chars_of(base.as_str());
    let mut r = base;
    if cs.len() > 0 && cs[cs.len() - 1] != '/' {
        r.push('/');
    }
    r.append(name);
    proof {
        assert(r@ =~= joined_path(base@, name@));
    }
    r
}

fn file_named(xdg: Option<String>, home: Option<String>, name: &str) -> (r: Option<String>)
    ensures
        opt_text(r) == applet_file(opt_text(xdg), opt_text(home), name@),
{
    let set = match &xdg {
        Some(dir) => !dir.as_str().is_empty(),
        None => false,
    };
    let dir = if set {
        xdg.unwrap()
    } else {
        match home {
            Some(home) => join_path(home, ".config"),
            None => return None,
        }
    };
    let dir = join_path(dir, "cosmic");
    let dir = join_path(dir, "com.system76.CosmicAppletTime.Calendar");
    let dir = join_path(dir, "v1");
    Some(join_path(dir, name))
}

/// Path of the event cache, given `XDG_CONFIG_HOME` and `HOME`.
pub fn cache_path(xdg: Option<String>, home: Option<String>) -> (r: Option<String>)
    ensures
        opt_text(r) == applet_file(opt_text(xdg), opt_text(home), "event_cache.json"@),
{
    file_named(xdg, home, "event_cache.json")
}

/// Path of the ctag cache, given `XDG_CONFIG_HOME` and `HOME`.
pub fn ctag_cache_path(xdg: Option<String>, home: Option<String>) -> (r: Option<String>)
    ensures
        opt_text(r) == applet_file(opt_text(xdg), opt_text(home), "ctag_cache.json"@),
{
    file_named(xdg, home, "ctag_cache.json")
}

/// Path for the Manual-mode passphrase salt (not secret, stored alongside cache), given
/// `XDG_CONFIG_HOME` and `HOME`.
pub fn salt_path(xdg: Option<String>, home: Option<String>) -> (r: Option<String>)
    ensures
        opt_text(r) == applet_file(opt_text(xdg), opt_text(home), "encryption_salt.bin"@),
{
    file_named(xdg, home, "encryption_salt.bin")
}

// ── Dates ──────────────────────────────────────────────────────────

/// A date as the cache writes it.
pub open spec fn date_text(d: CivilDate) -> Seq<char> {
    decimal_padded(d.year, 4) + seq!['-'] + decimal_padded(d.month, 2) + seq!['-']
        + decimal_padded(d.day, 2)
}

/// The date that a text of the cache writes: three numbers with hyphens between.
pub open spec fn date_in_text(s: Seq<char>) -> Option<CivilDate> {
    let parts = split(s, '-');
    if parts.len() != 3 {
        None
    } else {
        match (
            within(signed_value(parts[0]), i16::MIN as int, i16::MAX as int),
            within(signed_value(parts[1]), i8::MIN as int, i8::MAX as int),
            within(signed_value(parts[2]), i8::MIN as int, i8::MAX as int),
        ) {
            (Some(year), Some(month), Some(day)) => {
                let d = CivilDate { year, month, day };
                if valid_date(d) {
                    Some(d)
                } else {
                    None
                }
            },
            _ => None,
        }
    }
}

/// The text of a date.
pub fn date_to_string(d: &Date) -> (r: String)
    ensures
        r@ == date_text(d@),
{
    let mut r = String::new();
    push_padded(&mut r, d.year() as i64, 4);
    r.push('-');
    push_padded(&mut r, d.month() as i64, 2);
    r.push('-');
    push_padded(&mut r, d.day() as i64, 2);
    proof {
        assert(r@ =~= date_text(d@));
    }
    r
}

/// The date that a text writes.
pub fn string_to_date(s: &str) -> (r: Option<Date>)
    ensures
        date_view(r) == date_in_text(s@),
{
    let cs = chars_of(s);
    let parts = split_at_char(&cs, '-');
    proof {
        assert(pieces_view(parts@).len() == parts@.len());
    }
    if parts.len() != 3 {
        return None;
    }
    proof {
        assert(pieces_view(parts@)[0] == parts@[0]@);
        assert(pieces_view(parts@)[1] == parts@[1]@);
        assert(pieces_view(parts@)[2] == parts@[2]@);
    }
    let year = parse_signed(parts[0].as_slice(), i16::MIN as i64, i16::MAX as i64);
    let month = parse_signed(parts[1].as_slice(), i8::MIN as i64, i8::MAX as i64);
    let day = parse_signed(parts[2].as_slice(), i8::MIN as i64, i8::MAX as i64);
    match (year, month, day) {
        (Some(y), Some(m), Some(d)) => Date::new(y as i16, m as i8, d as i8),
        _ => None,
    }
}

proof fn lemma_no_hyphen(n: int, width: nat)
    requires
        n >= 0,
    ensures
        !decimal_padded(n, width).contains('-'),
{
    let s = decimal_padded(n, width);
    lemma_padded(n, width);
    assert forall|i: int| 0 <= i < s.len() implies s[i] != '-' by {
        assert(is_digit(s[i]));
    }
}

/// The text of a date of the year 0 or later writes that date.
pub proof fn lemma_date_text(d: CivilDate)
    requires
        valid_date(d),
        d.year >= 0,
    ensures
        date_in_text(date_text(d)) == Some(d),
{
    let y = decimal_padded(d.year, 4);
    let m = decimal_padded(d.month, 2);
    let a = decimal_padded(d.day, 2);
    lemma_padded(d.year, 4);
    lemma_padded(d.month, 2);
    lemma_padded(d.day, 2);
    lemma_no_hyphen(d.year, 4);
    lemma_no_hyphen(d.month, 2);
    lemma_no_hyphen(d.day, 2);
    lemma_split_one(a, '-');
    lemma_split_first(m, '-', a);
    lemma_split_first(y, '-', m + seq!['-'] + a);
    assert(date_text(d) =~= y + seq!['-'] + (m + seq!['-'] + a));
    let parts = split(date_text(d), '-');
    assert(parts =~= seq![y, m, a]);
    lemma_digits_read(y);
    lemma_digits_read(m);
    lemma_digits_read(a);
}

pub open spec fn date_texts(dates: Seq<CivilDate>) -> Seq<Seq<char>> {
    dates.map_values(|d: CivilDate| date_text(d))
}

/// The dates among texts, in order.
pub open spec fn dates_in_texts(texts: Seq<Seq<char>>) -> Seq<CivilDate>
    decreases texts.len(),
{
    if texts.len() == 0 {
        Seq::empty()
    } else {
        let before = dates_in_texts(texts.drop_last());
        match date_in_text(texts.last()) {
            Some(d) => before.push(d),
            None => before,
        }
    }
}

fn write_dates(dates: &Vec<Date>) -> (r: Vec<String>)
    ensures
        texts_view(r@) == date_texts(dates_view(dates@)),
{
    let mut r: Vec<String> = Vec::new();
    let mut i: usize = 0;
    while i < dates.len()
        invariant
            i <= dates@.len(),
            r@.len() == i,
            forall|j: int| 0 <= j < i ==> #[trigger] r@[j]@ == date_text(dates@[j]@),
        decreases dates@.len() - i,
    {
        r.push(date_to_string(&dates[i]));
        i = i + 1;
    }
    proof {
        assert(texts_view(r@) =~= date_texts(dates_view(dates@)));
    }
    r
}

fn read_dates(texts: &Vec<String>) -> (r: Vec<Date>)
    ensures
        dates_view(r@) == dates_in_texts(texts_view(texts@)),
{
    let ghost all = texts_view(texts@);
    let mut r: Vec<Date> = Vec::new();
    let mut i: usize = 0;
    proof {
        assert(all.take(0) =~= Seq::<Seq<char>>::empty());
        assert(dates_view(r@) =~= Seq::<CivilDate>::empty());
    }
    while i < texts.len()
        invariant
            i <= texts@.len(),
            all == texts_view(texts@),
            dates_view(r@) == dates_in_texts(all.take(i as int)),
        decreases texts@.len() - i,
    {
        let ghost before = dates_view(r@);
        proof {
            assert(all.take(i + 1).drop_last() =~= all.take(i as int));
            assert(all.take(i + 1).last() == texts@[i as int]@);
        }
        if let Some(d) = string_to_date(texts[i].as_str()) {
            r.push(d);
            proof {
                assert(dates_view(r@) =~= before.push(d@));
            }
        }
        i = i + 1;
    }
    proof {
        assert(all.take(i as int) =~= all);
    }
    r
}

/// Dates of the year 0 or later are read back as they were written.
pub proof fn lemma_dates_read_back(dates: Seq<CivilDate>)
    requires
        forall|i: int|
            0 <= i < dates.len() ==> valid_date(#[trigger] dates[i]) && dates[i].year >= 0,
    ensures
        dates_in_texts(date_texts(dates)) == dates,
    decreases dates.len(),
{
    let texts = date_texts(dates);
    if dates.len() == 0 {
        assert(dates_in_texts(texts) =~= dates);
    } else {
        let front = dates.drop_last();
        assert forall|i: int| 0 <= i < front.len() implies valid_date(#[trigger] front[i])
            && front[i].year >= 0 by {
            assert(front[i] == dates[i]);
        }
        lemma_dates_read_back(front);
        assert(texts.drop_last() =~= date_texts(front));
        assert(texts.last() == date_text(dates[dates.len() - 1]));
        lemma_date_text(dates[dates.len() - 1]);
        assert(dates =~= front.push(dates.last()));
    }
}

// ── Events and to-dos ──────────────────────────────────────────────

#[verifier::ext_equal]
pub struct CachedEventModel {
    pub uid: Seq<char>,
    pub source_id: Seq<char>,
    pub summary: Seq<char>,
    pub description: Option<Seq<char>>,
    pub location: Option<Seq<char>>,
    pub dtstart: Seq<char>,
    pub dtend: Option<Seq<char>>,
    pub all_day: bool,
    pub url: Option<Seq<char>>,
    pub color: Seq<char>,
    pub etag: Option<Seq<char>>,
    pub href: Option<Seq<char>>,
    pub rrule: Option<Seq<char>>,
    pub exdates: Seq<Seq<char>>,
    pub rdates: Seq<Seq<char>>,
}

/// An event as the cache holds it.
#[derive(Debug)]
pub struct CachedEvent {
    pub uid: String,
    pub source_id: String,
    pub summary: String,
    pub description: Option<String>,
    pub location: Option<String>,
    /// RFC 3339 timestamp
    pub dtstart: String,
    pub dtend: Option<String>,
    pub all_day: bool,
    pub url: Option<String>,
    pub color: String,
    pub etag: Option<String>,
    pub href: Option<String>,
    pub rrule: Option<String>,
    /// ISO-8601 date strings
    pub exdates: Vec<String>,
    pub rdates: Vec<String>,
}

impl View for CachedEvent {
    type V = CachedEventModel;

    open spec fn view(&self) -> CachedEventModel {
        CachedEventModel {
            uid: self.uid@,
            source_id: self.source_id@,
            summary: self.summary@,
            description: opt_text(self.description),
            location: opt_text(self.location),
            dtstart: self.dtstart@,
            dtend: opt_text(self.dtend),
            all_day: self.all_day,
            url: opt_text(self.url),
            color: self.color@,
            etag: opt_text(self.etag),
            href: opt_text(self.href),
            rrule: opt_text(self.rrule),
            exdates: texts_view(self.exdates@),
            rdates: texts_view(self.rdates@),
        }
    }
}

#[verifier::ext_equal]
pub struct CachedTodoModel {
    pub uid: Seq<char>,
    pub source_id: Seq<char>,
    pub summary: Seq<char>,
    pub description: Option<Seq<char>>,
    pub due: Option<Seq<char>>,
    pub completed: bool,
    pub priority: Option<u32>,
    pub color: Seq<char>,
    pub etag: Option<Seq<char>>,
    pub href: Option<Seq<char>>,
}

/// A to-do as the cache holds it.
#[derive(Debug)]
pub struct CachedTodo {
    pub uid: String,
    pub source_id: String,
    pub summary: String,
    pub description: Option<String>,
    pub due: Option<String>,
    pub completed: bool,
    pub priority: Option<u32>,
    pub color: String,
    pub etag: Option<String>,
    pub href: Option<String>,
}

impl View for CachedTodo {
    type V = CachedTodoModel;

    open spec fn view(&self) -> CachedTodoModel {
        CachedTodoModel {
            uid: self.uid@,
            source_id: self.source_id@,
            summary: self.summary@,
            description: opt_text(self.description),
            due: opt_text(self.due),
            completed: self.completed,
            priority: self.priority,
            color: self.color@,
            etag: opt_text(self.etag),
            href: opt_text(self.href),
        }
    }
}

/// The text of a moment.
pub open spec fn moment_text(m: Moment) -> Seq<char> {
    timestamp_text(instant(m), m.local.nanosecond)
}

pub open spec fn moment_texts(m: Option<Moment>) -> Option<Seq<char>> {
    match m {
        Some(m) => Some(moment_text(m)),
        None => None,
    }
}

/// Whether `m` is the moment that a text writes, in the zone of the machine.
pub open spec fn is_moment_in(text: Seq<char>, m: Option<Moment>) -> bool {
    match timestamp_read(text) {
        Some(utc) => m is Some && is_same_moment(utc, m->0),
        None => m is None,
    }
}

/// Whether `m` is a moment in the zone of the machine, the same as `utc`.
pub open spec fn is_same_moment(utc: Moment, m: Moment) -> bool {
    &&& valid_moment(m)
    &&& instant(m) == instant(utc)
    &&& m.local.nanosecond == utc.local.nanosecond
    &&& m.zone == ZoneModel::System
}

/// Whether `m` is the moment that an optional text writes.
pub open spec fn is_moment_in_option(text: Option<Seq<char>>, m: Option<Moment>) -> bool {
    match text {
        Some(text) => is_moment_in(text, m),
        None => m is None,
    }
}

/// An event as it is written to the cache.
pub open spec fn cached_event(e: EventModel) -> CachedEventModel {
    CachedEventModel {
        uid: e.uid,
        source_id: e.source_id,
        summary: e.summary,
        description: e.description,
        location: e.location,
        dtstart: moment_text(e.dtstart),
        dtend: moment_texts(e.dtend),
        all_day: e.all_day,
        url: e.url,
        color: e.color,
        etag: e.etag,
        href: e.href,
        rrule: e.rrule,
        exdates: date_texts(e.exdates),
        rdates: date_texts(e.rdates),
    }
}

/// Whether `r` is the event that the cache holds. There is none without a start that can
/// be read; an end that cannot be read is dropped.
pub open spec fn is_cached_event(c: CachedEventModel, r: Option<EventModel>) -> bool {
    match r {
        None => is_moment_in(c.dtstart, None),
        Some(e) => {
            &&& is_moment_in(c.dtstart, Some(e.dtstart))
            &&& is_moment_in_option(c.dtend, e.dtend)
            &&& e == EventModel {
                uid: c.uid,
                source_id: c.source_id,
                summary: c.summary,
                description: c.description,
                location: c.location,
                dtstart: e.dtstart,
                dtend: e.dtend,
                all_day: c.all_day,
                url: c.url,
                color: c.color,
                etag: c.etag,
                href: c.href,
                rrule: c.rrule,
                exdates: dates_in_texts(c.exdates),
                rdates: dates_in_texts(c.rdates),
            }
        },
    }
}

/// A to-do as it is written to the cache.
pub open spec fn cached_todo(t: TodoModel) -> CachedTodoModel {
    CachedTodoModel {
        uid: t.uid,
        source_id: t.source_id,
        summary: t.summary,
        description: t.description,
        due: moment_texts(t.due),
        completed: t.completed,
        priority: t.priority,
        color: t.color,
        etag: t.etag,
        href: t.href,
    }
}

/// Whether `t` is the to-do that the cache holds.
pub open spec fn is_cached_todo(c: CachedTodoModel, t: TodoModel) -> bool {
    &&& is_moment_in_option(c.due, t.due)
    &&& t == TodoModel {
        uid: c.uid,
        source_id: c.source_id,
        summary: c.summary,
        description: c.description,
        due: t.due,
        completed: c.completed,
        priority: c.priority,
        color: c.color,
        etag: c.etag,
        href: c.href,
    }
}

/// The RFC 3339 text of a moment.
pub fn zoned_to_rfc3339(z: &Zoned) -> (r: String)
    ensures
        r@ == moment_text(z@),
{
    z.to_rfc3339()
}

/// The moment that an RFC 3339 text writes, in the zone of the machine. The text of a
/// moment gives back that moment.
pub fn rfc3339_to_zoned(s: &str) -> (r: Option<Zoned>)
    ensures
        is_moment_in(s@, moment_view(r)),
        forall|m: Moment|
            valid_moment(m) && s@ == #[trigger] moment_text(m) ==> r is Some && is_same_moment(
                m,
                r->0@,
            ),
{
    match Zoned::from_rfc3339(s) {
        Some(utc) => {
            let z = utc.to_system();
            proof {
                assert forall|m: Moment|
                    valid_moment(m) && s@ == #[trigger] moment_text(m) implies is_same_moment(
                    m,
                    z@,
                ) by {
                    assert(s@ == timestamp_text(instant(m), m.local.nanosecond));
                    crate::time::lemma_utc_shows(instant(m), m.local.nanosecond);
                }
            }
            Some(z)
        },
        None => {
            proof {
                assert forall|m: Moment| valid_moment(m) && s@ == #[trigger] moment_text(
                    m,
                ) implies false by {
                    assert(s@ == timestamp_text(instant(m), m.local.nanosecond));
                }
            }
            None
        },
    }
}

fn write_moment(z: &Option<Zoned>) -> (r: Option<String>)
    ensures
        opt_text(r) == moment_texts(moment_view(*z)),
{
    match z {
        Some(z) => Some(zoned_to_rfc3339(z)),
        None => None,
    }
}

fn read_moment(text: &Option<String>) -> (r: Option<Zoned>)
    ensures
        is_moment_in_option(opt_text(*text), moment_view(r)),
        forall|m: Moment|
            valid_moment(m) && opt_text(*text) == Some(#[trigger] moment_text(m)) ==> r is Some
                && is_same_moment(m, r->0@),
{
    match text {
        Some(text) => rfc3339_to_zoned(text.as_str()),
        None => None,
    }
}

/// An event as the cache holds it.
pub fn event_to_cached(e: &CalendarEvent) -> (r: CachedEvent)
    ensures
        r@ == cached_event(e@),
{
    CachedEvent {
        uid: e.uid.clone(),
        source_id: e.source_id.clone(),
        summary: e.summary.clone(),
        description: copy_text(&e.description),
        location: copy_text(&e.location),
        dtstart: zoned_to_rfc3339(&e.dtstart),
        dtend: write_moment(&e.dtend),
        all_day: e.all_day,
        url: copy_text(&e.url),
        color: e.color.clone(),
        etag: copy_text(&e.etag),
        href: copy_text(&e.href),
        rrule: copy_text(&e.rrule),
        exdates: write_dates(&e.exdates),
        rdates: write_dates(&e.rdates),
    }
}

/// Whether the cache keeps an event: its moments are moments, and its dates are of the
/// year 0 or later.
pub open spec fn is_keepable(e: EventModel) -> bool {
    &&& valid_moment(e.dtstart)
    &&& e.dtend is Some ==> valid_moment(e.dtend->0)
    &&& forall|i: int|
        0 <= i < e.exdates.len() ==> valid_date(#[trigger] e.exdates[i]) && e.exdates[i].year >= 0
    &&& forall|i: int|
        0 <= i < e.rdates.len() ==> valid_date(#[trigger] e.rdates[i]) && e.rdates[i].year >= 0
}

/// Whether `r` is the event `e`, with its moments in the zone of the machine.
pub open spec fn is_kept(e: EventModel, r: EventModel) -> bool {
    &&& is_same_moment(e.dtstart, r.dtstart)
    &&& match e.dtend {
        Some(end) => r.dtend is Some && is_same_moment(end, r.dtend->0),
        None => r.dtend is None,
    }
    &&& r == EventModel { dtstart: r.dtstart, dtend: r.dtend, ..e }
}

/// The event that the cache holds. What was written comes back.
pub fn cached_to_event(c: CachedEvent) -> (r: Option<CalendarEvent>)
    ensures
        is_cached_event(c@, event_view(r)),
        forall|e: EventModel|
            is_keepable(e) && c@ == #[trigger] cached_event(e) ==> r is Some && is_kept(e, r->0@),
{
    let ghost held = c@;
    let dtstart = match rfc3339_to_zoned(c.dtstart.as_str()) {
        Some(z) => z,
        None => {
            proof {
                assert forall|e: EventModel|
                    is_keepable(e) && held == #[trigger] cached_event(e) implies false by {
                    assert(held.dtstart == moment_text(e.dtstart));
                }
            }
            return None;
        },
    };
    let r = CalendarEvent {
        dtstart,
        dtend: read_moment(&c.dtend),
        exdates: read_dates(&c.exdates),
        rdates: read_dates(&c.rdates),
        uid: c.uid,
        source_id: c.source_id,
        summary: c.summary,
        description: c.description,
        location: c.location,
        all_day: c.all_day,
        url: c.url,
        color: c.color,
        etag: c.etag,
        href: c.href,
        rrule: c.rrule,
    };
    proof {
        assert forall|e: EventModel|
            is_keepable(e) && held == #[trigger] cached_event(e) implies is_kept(e, r@) by {
            assert(held.dtstart == moment_text(e.dtstart));
            lemma_dates_read_back(e.exdates);
            lemma_dates_read_back(e.rdates);
            if e.dtend is Some {
                assert(held.dtend == Some(moment_text(e.dtend->0)));
            }
        }
    }
    Some(r)
}

/// A to-do as the cache holds it.
pub fn todo_to_cached(t: &CalendarTodo) -> (r: CachedTodo)
    ensures
        r@ == cached_todo(t@),
{
    CachedTodo {
        uid: t.uid.clone(),
        source_id: t.source_id.clone(),
        summary: t.summary.clone(),
        description: copy_text(&t.description),
        due: write_moment(&t.due),
        completed: t.completed,
        priority: t.priority,
        color: t.color.clone(),
        etag: copy_text(&t.etag),
        href: copy_text(&t.href),
    }
}

/// Whether `r` is the to-do `t`, with its moment in the zone of the machine.
pub open spec fn is_kept_todo(t: TodoModel, r: TodoModel) -> bool {
    &&& match t.due {
        Some(due) => r.due is Some && is_same_moment(due, r.due->0),
        None => r.due is None,
    }
    &&& r == TodoModel { due: r.due, ..t }
}

/// Whether the cache keeps a to-do: it is due at a moment, if at all.
pub open spec fn is_keepable_todo(t: TodoModel) -> bool {
    t.due is Some ==> valid_moment(t.due->0)
}

/// The to-do that the cache holds. What was written comes back.
pub fn cached_to_todo(c: CachedTodo) -> (r: CalendarTodo)
    ensures
        is_cached_todo(c@, r@),
        forall|t: TodoModel|
            is_keepable_todo(t) && c@ == #[trigger] cached_todo(t) ==> is_kept_todo(t, r@),
{
    let ghost held = c@;
    let r = CalendarTodo {
        due: read_moment(&c.due),
        uid: c.uid,
        source_id: c.source_id,
        summary: c.summary,
        description: c.description,
        completed: c.completed,
        priority: c.priority,
        color: c.color,
        etag: c.etag,
        href: c.href,
    };
    proof {
        assert forall|t: TodoModel|
            is_keepable_todo(t) && held == #[trigger] cached_todo(t) implies is_kept_todo(
            t,
            r@,
        ) by {
            if t.due is Some {
                assert(held.due == Some(moment_text(t.due->0)));
            }
        }
    }
    r
}

// ── The whole cache ────────────────────────────────────────────────

pub open spec fn cached_events(events: Seq<EventModel>) -> Seq<CachedEventModel> {
    events.map_values(|e: EventModel| cached_event(e))
}

pub open spec fn cached_todos(todos: Seq<TodoModel>) -> Seq<CachedTodoModel> {
    todos.map_values(|t: TodoModel| cached_todo(t))
}

pub open spec fn cached_events_view(v: Seq<CachedEvent>) -> Seq<CachedEventModel> {
    v.map_values(|c: CachedEvent| c@)
}

pub open spec fn cached_todos_view(v: Seq<CachedTodo>) -> Seq<CachedTodoModel> {
    v.map_values(|c: CachedTodo| c@)
}

/// The cache of events and to-dos.
#[derive(Debug)]
pub struct EventCache {
    /// ISO-8601 timestamp of when the cache was written.
    pub timestamp: String,
    pub events: Vec<CachedEvent>,
    pub todos: Vec<CachedTodo>,
}

/// The cache of events and to-dos, written at the moment `now`.
pub fn cache_at(events: &[CalendarEvent], todos: &[CalendarTodo], now: &Zoned) -> (r: EventCache)
    ensures
        r.timestamp@ == moment_text(now@),
        cached_events_view(r.events@) == cached_events(events_view(events@)),
        cached_todos_view(r.todos@) == cached_todos(todos_view(todos@)),
{
    let mut cached: Vec<CachedEvent> = Vec::new();
    let mut i: usize = 0;
    while i < events.len()
        invariant
            i <= events@.len(),
            cached@.len() == i,
            forall|j: int| 0 <= j < i ==> #[trigger] cached@[j]@ == cached_event(events@[j]@),
        decreases events@.len() - i,
    {
        cached.push(event_to_cached(&events[i]));
        i = i + 1;
    }
    let mut kept: Vec<CachedTodo> = Vec::new();
    let mut k: usize = 0;
    while k < todos.len()
        invariant
            k <= todos@.len(),
            kept@.len() == k,
            forall|j: int| 0 <= j < k ==> #[trigger] kept@[j]@ == cached_todo(todos@[j]@),
        decreases todos@.len() - k,
    {
        kept.push(todo_to_cached(&todos[k]));
        k = k + 1;
    }
    proof {
        assert(cached_events_view(cached@) =~= cached_events(events_view(events@)));
        assert(cached_todos_view(kept@) =~= cached_todos(todos_view(todos@)));
    }
    EventCache { timestamp: zoned_to_rfc3339(now), events: cached, todos: kept }
}

/// Whether `out` are the events that the cache holds, without those that cannot be read.
pub open spec fn are_cached_events(c: Seq<CachedEventModel>, out: Seq<EventModel>) -> bool
    decreases c.len(),
{
    if c.len() == 0 {
        out.len() == 0
    } else {
        let earlier = c.drop_last();
        ||| is_cached_event(c.last(), None) && are_cached_events(earlier, out)
        ||| out.len() > 0 && is_cached_event(c.last(), Some(out.last())) && are_cached_events(
            earlier,
            out.drop_last(),
        )
    }
}

/// Whether `out` are the to-dos that the cache holds.
pub open spec fn are_cached_todos(c: Seq<CachedTodoModel>, out: Seq<TodoModel>) -> bool {
    c.len() == out.len() && forall|i: int|
        0 <= i < c.len() ==> is_cached_todo(#[trigger] c[i], out[i])
}

pub open spec fn all_keepable(events: Seq<EventModel>) -> bool {
    forall|i: int| 0 <= i < events.len() ==> is_keepable(#[trigger] events[i])
}

/// Whether `out` are the events, with their moments in the zone of the machine.
pub open spec fn are_kept(events: Seq<EventModel>, out: Seq<EventModel>) -> bool {
    events.len() == out.len() && forall|i: int|
        0 <= i < events.len() ==> is_kept(#[trigger] events[i], out[i])
}

/// The events that the cache holds. What was written comes back.
pub fn events_from_cache(cached: Vec<CachedEvent>) -> (r: Vec<CalendarEvent>)
    ensures
        are_cached_events(cached_events_view(cached@), events_view(r@)),
        forall|events: Seq<EventModel>|
            all_keepable(events) && cached_events_view(cached@) == #[trigger] cached_events(events)
                ==> are_kept(events, events_view(r@)),
{
    let ghost all = cached_events_view(cached@);
    let mut cached = cached;
    let mut out: Vec<CalendarEvent> = Vec::new();
    let ghost mut done: int = 0;
    proof {
        assert(all.take(0) =~= Seq::<CachedEventModel>::empty());
        assert(all.skip(0) =~= all);
    }
    while cached.len() > 0
        invariant
            0 <= done <= all.len(),
            cached_events_view(cached@) == all.skip(done),
            are_cached_events(all.take(done), events_view(out@)),
            forall|events: Seq<EventModel>|
                all_keepable(events) && all == #[trigger] cached_events(events) ==> are_kept(
                    events.take(done),
                    events_view(out@),
                ),
        decreases cached@.len(),
    {
        let ghost rest = cached@;
        let ghost before = events_view(out@);
        let c = cached.remove(0);
        let ghost m = c@;
        proof {
            assert(cached_events_view(rest).len() == rest.len());
            assert(cached_events_view(rest)[0] == m);
            assert(all[done] == m);
            assert(cached@ =~= rest.skip(1));
            assert(cached_events_view(cached@) =~= cached_events_view(rest).skip(1));
            assert(all.skip(done).skip(1) =~= all.skip(done + 1));
            assert(all.take(done + 1).drop_last() =~= all.take(done));
            assert(all.take(done + 1).last() == m);
        }
        match cached_to_event(c) {
            Some(e) => {
                let ghost t = e@;
                out.push(e);
                proof {
                    assert(events_view(out@) =~= before.push(t));
                    assert(events_view(out@).drop_last() =~= before);
                    assert forall|events: Seq<EventModel>|
                        all_keepable(events) && all == #[trigger] cached_events(
                            events,
                        ) implies are_kept(events.take(done + 1), events_view(out@)) by {
                        assert(are_kept(events.take(done), before));
                        assert(cached_events(events)[done] == cached_event(events[done]));
                        assert(is_keepable(events[done]));
                        assert(is_kept(events[done], t));
                        let now = events_view(out@);
                        let taken = events.take(done + 1);
                        assert forall|i: int| 0 <= i < taken.len() implies is_kept(
                            #[trigger] taken[i],
                            now[i],
                        ) by {
                            if i < done {
                                assert(taken[i] == events.take(done)[i]);
                                assert(now[i] == before[i]);
                            } else {
                                assert(taken[i] == events[done]);
                            }
                        }
                    }
                }
            },
            None => {
                proof {
                    assert forall|events: Seq<EventModel>|
                        all_keepable(events) && all == #[trigger] cached_events(
                            events,
                        ) implies are_kept(events.take(done + 1), events_view(out@)) by {
                        assert(cached_events(events)[done] == cached_event(events[done]));
                        assert(is_keepable(events[done]));
                    }
                }
            },
        }
        proof {
            done = done + 1;
        }
    }
    proof {
        assert(cached_events_view(cached@).len() == 0);
        assert(all.take(done) =~= all);
        assert forall|events: Seq<EventModel>|
            all_keepable(events) && all == #[trigger] cached_events(events) implies are_kept(
            events,
            events_view(out@),
        ) by {
            assert(cached_events(events).len() == events.len());
            assert(events.take(done) =~= events);
        }
    }
    out
}

pub open spec fn all_keepable_todos(todos: Seq<TodoModel>) -> bool {
    forall|i: int| 0 <= i < todos.len() ==> is_keepable_todo(#[trigger] todos[i])
}

/// Whether `out` are the to-dos, with their moments in the zone of the machine.
pub open spec fn are_kept_todos(todos: Seq<TodoModel>, out: Seq<TodoModel>) -> bool {
    todos.len() == out.len() && forall|i: int|
        0 <= i < todos.len() ==> is_kept_todo(#[trigger] todos[i], out[i])
}

/// The to-dos that the cache holds. What was written comes back.
pub fn todos_from_cache(cached: Vec<CachedTodo>) -> (r: Vec<CalendarTodo>)
    ensures
        are_cached_todos(cached_todos_view(cached@), todos_view(r@)),
        forall|todos: Seq<TodoModel>|
            all_keepable_todos(todos) && cached_todos_view(cached@) == #[trigger] cached_todos(
                todos,
            ) ==> are_kept_todos(todos, todos_view(r@)),
{
    let ghost all = cached_todos_view(cached@);
    let mut cached = cached;
    let mut out: Vec<CalendarTodo> = Vec::new();
    let ghost mut done: int = 0;
    proof {
        assert(all.skip(0) =~= all);
    }
    while cached.len() > 0
        invariant
            0 <= done <= all.len(),
            cached_todos_view(cached@) == all.skip(done),
            out@.len() == done,
            forall|i: int| 0 <= i < done ==> is_cached_todo(#[trigger] all[i], out@[i]@),
            forall|i: int, t: TodoModel|
                0 <= i < done && is_keepable_todo(t) && all[i] == #[trigger] cached_todo(t)
                    ==> is_kept_todo(t, #[trigger] out@[i]@),
        decreases cached@.len(),
    {
        let ghost rest = cached@;
        let c = cached.remove(0);
        let ghost m = c@;
        proof {
            assert(cached_todos_view(rest).len() == rest.len());
            assert(cached_todos_view(rest)[0] == m);
            assert(all[done] == m);
            assert(cached@ =~= rest.skip(1));
            assert(cached_todos_view(cached@) =~= cached_todos_view(rest).skip(1));
            assert(all.skip(done).skip(1) =~= all.skip(done + 1));
        }
        out.push(cached_to_todo(c));
        proof {
            done = done + 1;
        }
    }
    proof {
        assert(cached_todos_view(cached@).len() == 0);
        let view = todos_view(out@);
        assert forall|i: int| 0 <= i < all.len() implies is_cached_todo(
            #[trigger] all[i],
            view[i],
        ) by {
            assert(view[i] == out@[i]@);
        }
        assert forall|todos: Seq<TodoModel>|
            all_keepable_todos(todos) && all == #[trigger] cached_todos(
                todos,
            ) implies are_kept_todos(todos, view) by {
            assert(cached_todos(todos).len() == todos.len());
            assert forall|i: int| 0 <= i < todos.len() implies is_kept_todo(
                #[trigger] todos[i],
                view[i],
            ) by {
                assert(cached_todos(todos)[i] == cached_todo(todos[i]));
                assert(view[i] == out@[i]@);
            }
        }
    }
    out
}

// ── Plain and encrypted files ──────────────────────────────────────

/// What a cache file is good for.
#[derive(Debug)]
pub enum CacheRead {
    /// Its content is to be parsed.
    Content(Vec<u8>),
    /// It cannot be decrypted, and is to be deleted so that the next sync writes it anew.
    Stale(CryptoError),
}

/// Whether `written` is an encryption of content.
pub open spec fn is_sealed_as(content: Seq<u8>, key: Seq<u8>, written: Seq<u8>) -> bool {
    &&& written.len() == content.len() + 28
    &&& exists|nonce: Seq<u8>|
        nonce.len() == 12 && written == #[trigger] sealed(key, nonce, content)
}

/// Whether `written` is how content is stored: as it is without a key, encrypted with one.
pub open spec fn is_stored_as(content: Seq<u8>, key: Option<Seq<u8>>, written: Seq<u8>) -> bool {
    match key {
        Some(k) => is_sealed_as(content, k, written),
        None => written == content,
    }
}

pub open spec fn key_view(key: Option<&EncryptionKey>) -> Option<Seq<u8>> {
    match key {
        Some(k) => Some(k@),
        None => None,
    }
}

/// What is read out of a file.
pub open spec fn content_of(data: Seq<u8>, key: Option<Seq<u8>>) -> Result<Seq<u8>, CryptoError> {
    match key {
        Some(k) => decrypted(data, k),
        None => Ok(data),
    }
}

pub open spec fn read_view(r: CacheRead) -> Result<Seq<u8>, CryptoError> {
    match r {
        CacheRead::Content(v) => Ok(v@),
        CacheRead::Stale(e) => Err(e),
    }
}

fn copied_bytes(v: &[u8]) -> (r: Vec<u8>)
    ensures
        r@ == v@,
{
    let mut r: Vec<u8> = Vec::new();
    crate::xml::push_bytes(&mut r, v);
    proof {
        assert(r@ =~= v@);
    }
    r
}

/// Dispatch to encrypted or plaintext save based on whether a key is available: the bytes
/// of the event cache file.
pub fn save_cache_dispatch(content: &[u8], key: Option<&EncryptionKey>) -> (r: Vec<u8>)
    requires
        key is Some ==> content@.len() <= MAX_MESSAGE,
    ensures
        is_stored_as(content@, key_view(key), r@),
{
    match key {
        Some(k) => {
            let r = encrypt(content, k);
            proof {
                assert(is_sealed_as(content@, k@, r@));
            }
            r
        },
        None => copied_bytes(content),
    }
}

/// Dispatch to encrypted or plaintext load based on whether a key is available: the
/// content of the event cache file. What was saved with a key is loaded with it.
///
/// If decryption fails the cache file is deleted so the next sync rebuilds it.
pub fn load_cache_dispatch(data: &[u8], key: Option<&EncryptionKey>) -> (r: CacheRead)
    ensures
        read_view(r) == content_of(data@, key_view(key)),
        forall|content: Seq<u8>| #[trigger]
            is_stored_as(content, key_view(key), data@) && (key is Some ==> content.len()
                <= MAX_MESSAGE) ==> read_view(r) == Ok::<Seq<u8>, CryptoError>(content),
{
    match key {
        Some(k) => match decrypt(data, k) {
            Ok(content) => CacheRead::Content(content),
            Err(e) => CacheRead::Stale(e),
        },
        None => CacheRead::Content(copied_bytes(data)),
    }
}

/// The bytes of the ctag cache file: same pattern as event cache.
pub fn save_ctag_cache_dispatch(content: &[u8], key: Option<&EncryptionKey>) -> (r: Vec<u8>)
    requires
        key is Some ==> content@.len() <= MAX_MESSAGE,
    ensures
        is_stored_as(content@, key_view(key), r@),
{
    save_cache_dispatch(content, key)
}

/// The content of the ctag cache file: same pattern as event cache.
pub fn load_ctag_cache_dispatch(data: &[u8], key: Option<&EncryptionKey>) -> (r: CacheRead)
    ensures
        read_view(r) == content_of(data@, key_view(key)),
        forall|content: Seq<u8>| #[trigger]
            is_stored_as(content, key_view(key), data@) && (key is Some ==> content.len()
                <= MAX_MESSAGE) ==> read_view(r) == Ok::<Seq<u8>, CryptoError>(content),
{
    load_cache_dispatch(data, key)
}

// ── Ctag / Sync-Token cache ────────────────────────────────────────

pub struct CtagEntryModel {
    pub source_id: Seq<char>,
    pub href: Seq<char>,
    pub ctag: Option<Seq<char>>,
    pub sync_token: Option<Seq<char>>,
}

/// What is known of the state of a calendar on its server.
#[derive(Debug)]
pub struct CtagEntry {
    pub source_id: String,
    pub href: String,
    pub ctag: Option<String>,
    pub sync_token: Option<String>,
}

impl View for CtagEntry {
    type V = CtagEntryModel;

    open spec fn view(&self) -> CtagEntryModel {
        CtagEntryModel {
            source_id: self.source_id@,
            href: self.href@,
            ctag: opt_text(self.ctag),
            sync_token: opt_text(self.sync_token),
        }
    }
}

/// The key of a calendar: "source_id::calendar_href".
pub open spec fn calendar_key(source_id: Seq<char>, href: Seq<char>) -> Seq<char> {
    source_id + "::"@ + href
}

/// The two parts of a key, around the first double colon.
pub open spec fn key_parts(key: Seq<char>) -> Option<(Seq<char>, Seq<char>)> {
    match find_text(key, "::"@) {
        Some(i) => Some((key.take(i), key.skip(i + 2))),
        None => None,
    }
}

/// The key of a calendar.
pub fn ctag_key(source_id: &str, href: &str) -> (r: String)
    ensures
        r@ == calendar_key(source_id@, href@),
{
    let mut r = source_id.to_owned();
    r.append("::");
    r.append(href);
    r
}

pub open spec fn parts_view(r: Option<(String, String)>) -> Option<(Seq<char>, Seq<char>)> {
    match r {
        Some((a, b)) => Some((a@, b@)),
        None => None,
    }
}

/// The source and the address in a key.
pub fn split_ctag_key(key: &str) -> (r: Option<(String, String)>)
    ensures
        parts_view(r) == key_parts(key@),
{
    let cs = chars_of(key);
    let mark = chars_of("::");
    proof {
        reveal_strlit("::");
    }
    match find_in(&cs, &mark) {
        Some(i) => {
            let length: usize = cs.len();
            assert(i + 2 <= length);
            let a = slice_subrange(cs.as_slice(), 0, i);
            let b = slice_subrange(cs.as_slice(), i + 2, length);
            proof {
                assert(a@ =~= key@.take(i as int));
                assert(b@ =~= key@.skip(i + 2));
            }
            Some((text_of(a), text_of(b)))
        },
        None => None,
    }
}

/// Whether the identifier of a source can be told from what follows it in a key: it neither
/// holds a double colon nor ends in a colon.
pub open spec fn is_separable(source_id: Seq<char>) -> bool {
    !has_text(source_id, "::"@) && (source_id.len() > 0 ==> source_id.last() != ':')
}

/// A key gives back its parts.
pub proof fn lemma_key_parts(source_id: Seq<char>, href: Seq<char>)
    requires
        is_separable(source_id),
    ensures
        key_parts(calendar_key(source_id, href)) == Some((source_id, href)),
{
    reveal_strlit("::");
    let key = calendar_key(source_id, href);
    let mark = "::"@;
    let n = source_id.len() as int;
    assert(key.subrange(n, n + 2) =~= mark);
    assert(occurs_at(key, mark, n));
    assert forall|i: int| 0 <= i < n implies !#[trigger] occurs_at(key, mark, i) by {
        if occurs_at(key, mark, i) {
            let pair = key.subrange(i, i + 2);
            assert(pair[0] == ':' && pair[1] == ':');
            assert(key[i] == source_id[i]);
            if i + 1 < n {
                assert(key[i + 1] == source_id[i + 1]);
                assert(source_id.subrange(i, i + 2) =~= mark);
                assert(occurs_at(source_id, mark, i));
            } else {
                assert(source_id.last() == ':');
            }
        }
    }
    lemma_find_is(key, mark, n);
    assert(key.take(n) =~= source_id);
    assert(key.skip(n + 2) =~= href);
}

/// An entry of the file: a key, a ctag and a sync-token.
pub type KeyedEntry = (String, Option<String>, Option<String>);

pub type KeyedModel = (Seq<char>, Option<Seq<char>>, Option<Seq<char>>);

pub open spec fn keyed_view(v: Seq<KeyedEntry>) -> Seq<KeyedModel> {
    v.map_values(|e: KeyedEntry| (e.0@, opt_text(e.1), opt_text(e.2)))
}

pub open spec fn entries_model(v: Seq<CtagEntry>) -> Seq<CtagEntryModel> {
    v.map_values(|e: CtagEntry| e@)
}

pub open spec fn keyed(entries: Seq<CtagEntryModel>) -> Seq<KeyedModel> {
    entries.map_values(
        |e: CtagEntryModel| (calendar_key(e.source_id, e.href), e.ctag, e.sync_token),
    )
}

/// The entries of a file, without those whose key has no double colon.
pub open spec fn unkeyed(entries: Seq<KeyedModel>) -> Seq<CtagEntryModel>
    decreases entries.len(),
{
    if entries.len() == 0 {
        Seq::empty()
    } else {
        let before = unkeyed(entries.drop_last());
        let e = entries.last();
        match key_parts(e.0) {
            Some((source_id, href)) => before.push(
                CtagEntryModel { source_id, href, ctag: e.1, sync_token: e.2 },
            ),
            None => before,
        }
    }
}

/// The entries as the file holds them.
pub fn key_entries(entries: &Vec<CtagEntry>) -> (r: Vec<KeyedEntry>)
    ensures
        keyed_view(r@) == keyed(entries_model(entries@)),
{
    let ghost all = keyed(entries_model(entries@));
    let mut r: Vec<KeyedEntry> = Vec::new();
    let mut i: usize = 0;
    proof {
        assert(keyed_view(r@) =~= all.take(0));
    }
    while i < entries.len()
        invariant
            i <= entries@.len(),
            all == keyed(entries_model(entries@)),
            keyed_view(r@) == all.take(i as int),
        decreases entries@.len() - i,
    {
        let ghost before = keyed_view(r@);
        let e = &entries[i];
        let k: KeyedEntry = (
            ctag_key(e.source_id.as_str(), e.href.as_str()),
            copy_text(&e.ctag),
            copy_text(&e.sync_token),
        );
        let ghost m = (k.0@, opt_text(k.1), opt_text(k.2));
        r.push(k);
        proof {
            assert(keyed_view(r@) =~= before.push(m));
            assert(entries_model(entries@)[i as int] == e@);
            assert(all[i as int] == m);
            assert(all.take(i + 1) =~= all.take(i as int).push(m));
        }
        i = i + 1;
    }
    proof {
        assert(all.take(i as int) =~= all);
    }
    r
}

/// The entries that a file holds.
pub fn unkey_entries(entries: &Vec<KeyedEntry>) -> (r: Vec<CtagEntry>)
    ensures
        entries_model(r@) == unkeyed(keyed_view(entries@)),
{
    let ghost all = keyed_view(entries@);
    let mut r: Vec<CtagEntry> = Vec::new();
    let mut i: usize = 0;
    proof {
        assert(all.take(0) =~= Seq::<KeyedModel>::empty());
        assert(entries_model(r@) =~= Seq::<CtagEntryModel>::empty());
    }
    while i < entries.len()
        invariant
            i <= entries@.len(),
            all == keyed_view(entries@),
            entries_model(r@) == unkeyed(all.take(i as int)),
        decreases entries@.len() - i,
    {
        let ghost before = entries_model(r@);
        let e = &entries[i];
        proof {
            assert(all.take(i + 1).drop_last() =~= all.take(i as int));
            assert(all.take(i + 1).last() == (e.0@, opt_text(e.1), opt_text(e.2)));
        }
        if let Some((source_id, href)) = split_ctag_key(e.0.as_str()) {
            let c = CtagEntry {
                source_id,
                href,
                ctag: copy_text(&e.1),
                sync_token: copy_text(&e.2),
            };
            let ghost m = c@;
            r.push(c);
            proof {
                assert(entries_model(r@) =~= before.push(m));
            }
        }
        i = i + 1;
    }
    proof {
        assert(all.take(i as int) =~= all);
    }
    r
}

/// What was written of the calendars of sources with separable identifiers is read back.
pub proof fn lemma_entries_read_back(entries: Seq<CtagEntryModel>)
    requires
        forall|i: int| 0 <= i < entries.len() ==> is_separable((#[trigger] entries[i]).source_id),
    ensures
        unkeyed(keyed(entries)) == entries,
    decreases entries.len(),
{
    let file = keyed(entries);
    if entries.len() == 0 {
        assert(unkeyed(file) =~= entries);
    } else {
        let front = entries.drop_last();
        let e = entries.last();
        assert forall|i: int| 0 <= i < front.len() implies is_separable(
            (#[trigger] front[i]).source_id,
        ) by {
            assert(front[i] == entries[i]);
        }
        lemma_entries_read_back(front);
        assert(file.drop_last() =~= keyed(front));
        assert(e == entries[entries.len() - 1]);
        lemma_key_parts(e.source_id, e.href);
        assert(entries =~= front.push(e));
    }
}

} // verus!
