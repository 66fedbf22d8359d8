//! What the panel and the heads of the calendar show, in the user's language.

use crate::clock::{
    clock_pieces, first_weekday, is_strftime, locale_candidates, locale_name, maybe_strftime,
    split_clock, split_words, weekday_setting, words,
};
use crate::component::opt_text;
use crate::text::split;
use crate::time::{date_on, day_number, is_day, CivilDate, CivilTime, Date, Step, Zoned};
use crate::view::{calendar_first, cell_day, grid_fits};
use crate::window::{SettingsModel, TimeAppletConfig, Window};
use crate::xml::strings_view;
use icu::datetime::fieldsets::{E, MD, MDET, MDT, T, YMD};
use icu::datetime::options::TimePrecision;
use icu::datetime::{DateTimeFormatter, DateTimeFormatterPreferences};
use icu::locale::preferences::extensions::unicode::keywords::HourCycle;
use icu::locale::Locale;
use vstd::prelude::*;

verus! {

// ── The locale ─────────────────────────────────────────────────────

/// The variables of the environment that may name the locale, the first one first.
pub const LOCALE_VARIABLES: [&'static str; 3] = ["LC_TIME", "LC_ALL", "LANG"];

/// The locale where the environment names none.
pub const FALLBACK_LOCALE: &'static str = "en-US";

/// The locale that a text names, written in its canonical form.
pub uninterp spec fn icu_locale(text: Seq<char>) -> Option<Seq<char>>;

/// `icu::locale::Locale::try_from_str`: the locale that a text names, if it names one, written
/// as `Locale` displays itself. The result depends on the text alone.
#[verifier::external_body]
fn read_locale(text: &str) -> (r: Option<String>)
    ensures
        opt_text(r) == icu_locale(text@),
{
    Locale::try_from_str(text).ok().map(|locale| locale.to_string())
}

/// The locales to try for the values of the variables: for each that is set, the one that it
/// names and then the language of that one alone.
pub open spec fn tried_locales(values: Seq<Option<String>>) -> Seq<Option<Seq<char>>>
    decreases values.len(),
{
    if values.len() == 0 {
        Seq::empty()
    } else {
        tried_locales(values.drop_last()) + (match values.last() {
            Some(value) => seq![
                icu_locale(locale_name(value@)),
                icu_locale(split(locale_name(value@), '-')[0]),
            ],
            None => Seq::empty(),
        })
    }
}

/// The first locale that could be read, or the fallback.
pub open spec fn first_read(reads: Seq<Option<Seq<char>>>) -> Seq<char>
    decreases reads.len(),
{
    if reads.len() == 0 {
        FALLBACK_LOCALE@
    } else {
        match reads[0] {
            Some(locale) => locale,
            None => first_read(reads.skip(1)),
        }
    }
}

pub open spec fn reads_view(reads: Seq<Option<String>>) -> Seq<Option<Seq<char>>> {
    reads.map_values(|s: Option<String>| opt_text(s))
}

/// The first locale that could be read, or the fallback.
pub fn first_locale(reads: &Vec<Option<String>>) -> (r: String)
    ensures
        r@ == first_read(reads_view(reads@)),
{
    let ghost all = reads_view(reads@);
    let mut i: usize = 0;
    proof {
        assert(all.skip(0) =~= all);
    }
    while i < reads.len()
        invariant
            i <= reads@.len(),
            all == reads_view(reads@),
            first_read(all) == first_read(all.skip(i as int)),
        decreases reads@.len() - i,
    {
        proof {
            assert(all.skip(i as int)[0] == opt_text(reads@[i as int]));
            assert(all.skip(i as int).skip(1) =~= all.skip(i + 1));
        }
        if let Some(locale) = &reads[i] {
            return locale.clone();
        }
        i = i + 1;
    }
    FALLBACK_LOCALE.to_owned()
}

/// The user's locale, from the values of the variables that may name it.
pub fn system_locale(values: &Vec<Option<String>>) -> (r: String)
    ensures
        r@ == first_read(tried_locales(values@)),
{
    let mut reads: Vec<Option<String>> = Vec::new();
    let mut i: usize = 0;
    proof {
        assert(values@.take(0) =~= Seq::<Option<String>>::empty());
        assert(reads_view(reads@) =~= Seq::<Option<Seq<char>>>::empty());
    }
    while i < values.len()
        invariant
            i <= values@.len(),
            reads_view(reads@) == tried_locales(values@.take(i as int)),
        decreases values@.len() - i,
    {
        let ghost before = reads_view(reads@);
        proof {
            assert(values@.take(i + 1).drop_last() =~= values@.take(i as int));
            assert(values@.take(i + 1).last() == values@[i as int]);
        }
        if let Some(value) = &values[i] {
            let (name, language) = locale_candidates(value.as_str());
            let first = read_locale(name.as_str());
            let second = read_locale(language.as_str());
            let ghost tried = seq![opt_text(first), opt_text(second)];
            reads.push(first);
            reads.push(second);
            proof {
                assert(reads_view(reads@) =~= before + tried);
            }
        } else {
            proof {
                assert(before + Seq::<Option<Seq<char>>>::empty() =~= before);
            }
        }
        i = i + 1;
    }
    proof {
        assert(values@.take(i as int) =~= values@);
    }
    first_locale(&reads)
}

// ── Formatted dates and times ──────────────────────────────────────

/// How much of a weekday's name is shown.
#[derive(Clone, Copy, Debug, PartialEq, Eq, Structural)]
pub enum Width {
    Short,
    Long,
}

/// How the hours are counted.
#[derive(Clone, Copy, Debug, PartialEq, Eq, Structural)]
pub enum Cycle {
    /// From 0 to 23.
    H23,
    /// Twice from 1 to 12.
    H12,
}

/// How precisely a time is shown.
#[derive(Clone, Copy, Debug, PartialEq, Eq, Structural)]
pub enum Precision {
    Minute,
    Second,
}

/// A time of day in hours, minutes and seconds.
#[derive(Clone, Copy, Debug, PartialEq, Eq, Structural)]
pub struct Clock {
    pub hour: u8,
    pub minute: u8,
    pub second: u8,
}

/// A day by year, month and day of the month.
#[derive(Clone, Copy, Debug, PartialEq, Eq, Structural)]
pub struct Day {
    pub year: i32,
    pub month: u8,
    pub day: u8,
}

/// The name of the weekday of a day.
pub uninterp spec fn icu_weekday(locale: Seq<char>, width: Width, day: Day) -> Option<Seq<char>>;

/// `icu::datetime::DateTimeFormatter` with the field set `E`: the name of the weekday of a day,
/// in a locale. The result depends on the arguments alone; there is none where the locale or
/// the day is none, or there is no data for it.
#[verifier::external_body]
fn format_weekday(locale: &str, width: Width, day: Day) -> (r: Option<String>)
    ensures
        opt_text(r) == icu_weekday(locale@, width, day),
{
    let locale = Locale::try_from_str(locale).ok()?;
    let date = icu::calendar::Date::try_new_gregorian(day.year, day.month, day.day).ok()?;
    let fields = match width {
        Width::Short => E::short(),
        Width::Long => E::long(),
    };
    Some(DateTimeFormatter::try_new(locale.into(), fields).ok()?.format(&date).to_string())
}

/// A day with its year, in its long form.
pub uninterp spec fn icu_long_date(locale: Seq<char>, day: Day) -> Option<Seq<char>>;

/// `icu::datetime::DateTimeFormatter` with the long field set `YMD`: a day with its year, in a
/// locale. The result depends on the arguments alone; there is none where the locale or the
/// day is none, or there is no data for it.
#[verifier::external_body]
fn format_long_date(locale: &str, day: Day) -> (r: Option<String>)
    ensures
        opt_text(r) == icu_long_date(locale@, day),
{
    let locale = Locale::try_from_str(locale).ok()?;
    let date = icu::calendar::Date::try_new_gregorian(day.year, day.month, day.day).ok()?;
    Some(DateTimeFormatter::try_new(locale.into(), YMD::long()).ok()?.format(&date).to_string())
}

/// A day without its year, in its medium form.
pub uninterp spec fn icu_month_day(locale: Seq<char>, day: Day) -> Option<Seq<char>>;

/// `icu::datetime::DateTimeFormatter` with the medium field set `MD`: a day without its year,
/// in a locale. The result depends on the arguments alone; there is none where the locale or
/// the day is none, or there is no data for it.
#[verifier::external_body]
fn format_month_day(locale: &str, day: Day) -> (r: Option<String>)
    ensures
        opt_text(r) == icu_month_day(locale@, day),
{
    let locale = Locale::try_from_str(locale).ok()?;
    let date = icu::calendar::Date::try_new_gregorian(day.year, day.month, day.day).ok()?;
    Some(DateTimeFormatter::try_new(locale.into(), MD::medium()).ok()?.format(&date).to_string())
}

/// A time of day, in its medium form.
pub uninterp spec fn icu_time(
    locale: Seq<char>,
    cycle: Cycle,
    precision: Precision,
    clock: Clock,
) -> Option<Seq<char>>;

/// `icu::datetime::DateTimeFormatter` with the medium field set `T`: a time of day, in a locale
/// and with hours that are counted in a given way. The result depends on the arguments alone;
/// there is none where the locale or the time is none, or there is no data for it.
#[verifier::external_body]
fn format_time(locale: &str, cycle: Cycle, precision: Precision, clock: Clock) -> (r: Option<
    String,
>)
    ensures
        opt_text(r) == icu_time(locale@, cycle, precision, clock),
{
    let mut prefs = DateTimeFormatterPreferences::from(Locale::try_from_str(locale).ok()?);
    prefs.hour_cycle = Some(match cycle {
        Cycle::H23 => HourCycle::H23,
        Cycle::H12 => HourCycle::H12,
    });
    let fields = match precision {
        Precision::Minute => T::medium().with_time_precision(TimePrecision::Minute),
        Precision::Second => T::medium(),
    };
    let time = icu::time::Time::try_new(clock.hour, clock.minute, clock.second, 0).ok()?;
    Some(DateTimeFormatter::try_new(prefs, fields).ok()?.format(&time).to_string())
}

/// A day without its year and a time of day, in their medium form.
pub uninterp spec fn icu_date_time(
    locale: Seq<char>,
    cycle: Cycle,
    precision: Precision,
    day: Day,
    clock: Clock,
) -> Option<Seq<char>>;

/// `icu::datetime::DateTimeFormatter` with the medium field set `MDT`: a day without its year
/// and a time of day, in a locale and with hours that are counted in a given way. The result
/// depends on the arguments alone; there is none where the locale, the day or the time is
/// none, or there is no data for it.
#[verifier::external_body]
fn format_date_time(
    locale: &str,
    cycle: Cycle,
    precision: Precision,
    day: Day,
    clock: Clock,
) -> (r: Option<String>)
    ensures
        opt_text(r) == icu_date_time(locale@, cycle, precision, day, clock),
{
    let mut prefs = DateTimeFormatterPreferences::from(Locale::try_from_str(locale).ok()?);
    prefs.hour_cycle = Some(match cycle {
        Cycle::H23 => HourCycle::H23,
        Cycle::H12 => HourCycle::H12,
    });
    let fields = match precision {
        Precision::Minute => MDT::medium().with_time_precision(TimePrecision::Minute),
        Precision::Second => MDT::medium(),
    };
    let date = icu::calendar::Date::try_new_gregorian(day.year, day.month, day.day).ok()?;
    let time = icu::time::Time::try_new(clock.hour, clock.minute, clock.second, 0).ok()?;
    let at = icu::time::DateTime { date, time };
    Some(DateTimeFormatter::try_new(prefs, fields).ok()?.format(&at).to_string())
}

/// A day without its year but with its weekday, and a time of day, in their medium form.
pub uninterp spec fn icu_weekday_date_time(
    locale: Seq<char>,
    cycle: Cycle,
    precision: Precision,
    day: Day,
    clock: Clock,
) -> Option<Seq<char>>;

/// `icu::datetime::DateTimeFormatter` with the medium field set `MDET`: a day without its year
/// but with its weekday, and a time of day, in a locale and with hours that are counted in a
/// given way. The result depends on the arguments alone; there is none where the locale, the
/// day or the time is none, or there is no data for it.
#[verifier::external_body]
fn format_weekday_date_time(
    locale: &str,
    cycle: Cycle,
    precision: Precision,
    day: Day,
    clock: Clock,
) -> (r: Option<String>)
    ensures
        opt_text(r) == icu_weekday_date_time(locale@, cycle, precision, day, clock),
{
    let mut prefs = DateTimeFormatterPreferences::from(Locale::try_from_str(locale).ok()?);
    prefs.hour_cycle = Some(match cycle {
        Cycle::H23 => HourCycle::H23,
        Cycle::H12 => HourCycle::H12,
    });
    let fields = match precision {
        Precision::Minute => MDET::medium().with_time_precision(TimePrecision::Minute),
        Precision::Second => MDET::medium(),
    };
    let date = icu::calendar::Date::try_new_gregorian(day.year, day.month, day.day).ok()?;
    let time = icu::time::Time::try_new(clock.hour, clock.minute, clock.second, 0).ok()?;
    let at = icu::time::DateTime { date, time };
    Some(DateTimeFormatter::try_new(prefs, fields).ok()?.format(&at).to_string())
}

// ── Settings ───────────────────────────────────────────────────────

/// A date as the formatter takes it.
pub open spec fn day_of(d: CivilDate) -> Day {
    Day { year: d.year as i32, month: d.month as u8, day: d.day as u8 }
}

fn to_day(d: Date) -> (r: Day)
    ensures
        r == day_of(d@),
{
    Day { year: d.year() as i32, month: d.month() as u8, day: d.day() as u8 }
}

/// A time as the formatter takes it.
pub open spec fn clock_of(t: CivilTime) -> Clock {
    Clock { hour: t.hour as u8, minute: t.minute as u8, second: t.second as u8 }
}

fn to_clock(z: &Zoned) -> (r: Clock)
    ensures
        r == clock_of(z@.local),
{
    Clock { hour: z.hour() as u8, minute: z.minute() as u8, second: z.second() as u8 }
}

/// How the hours are counted: once a day in military time, else twice.
pub open spec fn chosen_cycle(s: SettingsModel) -> Cycle {
    if s.military_time {
        Cycle::H23
    } else {
        Cycle::H12
    }
}

/// How precisely the time is shown.
pub open spec fn chosen_precision(s: SettingsModel) -> Precision {
    if s.show_seconds {
        Precision::Second
    } else {
        Precision::Minute
    }
}

impl TimeAppletConfig {
    /// How the hours are counted.
    pub fn cycle(&self) -> (r: Cycle)
        ensures
            r == chosen_cycle(self@),
    {
        if self.military_time {
            Cycle::H23
        } else {
            Cycle::H12
        }
    }

    /// How precisely the time is shown.
    pub fn precision(&self) -> (r: Precision)
        ensures
            r == chosen_precision(self@),
    {
        if self.show_seconds {
            Precision::Second
        } else {
            Precision::Minute
        }
    }
}

// ── A wide panel ───────────────────────────────────────────────────

/// The clock in the user's language: with the date and the weekday where these are wanted.
/// The weekday is shown only beside the date.
pub open spec fn clock_line(s: SettingsModel, locale: Seq<char>, now: CivilTime) -> Option<
    Seq<char>,
> {
    let cycle = chosen_cycle(s);
    let precision = chosen_precision(s);
    let day = day_of(now.date);
    let clock = clock_of(now);
    if s.show_date_in_top_panel && s.show_weekday {
        icu_weekday_date_time(locale, cycle, precision, day, clock)
    } else if s.show_date_in_top_panel {
        icu_date_time(locale, cycle, precision, day, clock)
    } else {
        icu_time(locale, cycle, precision, clock)
    }
}

/// What stands in one line: the text of the user's own format, or else the clock.
pub open spec fn line_shown(
    s: SettingsModel,
    locale: Seq<char>,
    now: CivilTime,
    formatted: Option<Seq<char>>,
) -> Option<Seq<char>> {
    match formatted {
        Some(text) => Some(text),
        None => clock_line(s, locale, now),
    }
}

/// What stands in one line, given the text of the user's own format.
pub fn horizontal_text(
    config: &TimeAppletConfig,
    locale: &str,
    now: &Zoned,
    formatted: Option<String>,
) -> (r: Option<String>)
    ensures
        opt_text(r) == line_shown(config@, locale@, now@.local, opt_text(formatted)),
{
    if formatted.is_some() {
        return formatted;
    }
    let cycle = config.cycle();
    let precision = config.precision();
    let day = to_day(now.date());
    let clock = to_clock(now);
    if config.show_date_in_top_panel {
        if config.show_weekday {
            format_weekday_date_time(locale, cycle, precision, day, clock)
        } else {
            format_date_time(locale, cycle, precision, day, clock)
        }
    } else {
        format_time(locale, cycle, precision, clock)
    }
}

// ── A narrow panel ─────────────────────────────────────────────────

/// A thing that stands below others in a narrow panel.
#[derive(Debug)]
pub enum PanelItem {
    Text(String),
    Rule,
}

pub enum ItemModel {
    Text(Seq<char>),
    Rule,
}

impl View for PanelItem {
    type V = ItemModel;

    open spec fn view(&self) -> ItemModel {
        match self {
            PanelItem::Text(s) => ItemModel::Text(s@),
            PanelItem::Rule => ItemModel::Rule,
        }
    }
}

pub open spec fn items_view(items: Seq<PanelItem>) -> Seq<ItemModel> {
    items.map_values(|i: PanelItem| i@)
}

/// Texts below each other.
pub open spec fn text_items(texts: Seq<Seq<char>>) -> Seq<ItemModel> {
    texts.map_values(|s: Seq<char>| ItemModel::Text(s))
}

/// What stands below each other: the words of a date with a rule below them, where there is a
/// date, and the pieces of a time.
pub open spec fn date_above_time(date: Option<Seq<char>>, time: Seq<char>) -> Seq<ItemModel> {
    (match date {
        Some(date) => text_items(words(date)).push(ItemModel::Rule),
        None => Seq::empty(),
    }) + text_items(clock_pieces(words(time)))
}

fn push_texts(items: &mut Vec<PanelItem>, texts: &Vec<String>)
    ensures
        items_view(final(items)@) == items_view(old(items)@) + text_items(strings_view(texts@)),
{
    let ghost before = items_view(items@);
    let ghost added = text_items(strings_view(texts@));
    let mut i: usize = 0;
    proof {
        assert(before + added.take(0) =~= before);
    }
    while i < texts.len()
        invariant
            i <= texts@.len(),
            added == text_items(strings_view(texts@)),
            items_view(items@) == before + added.take(i as int),
        decreases texts@.len() - i,
    {
        let ghost now = items_view(items@);
        items.push(PanelItem::Text(texts[i].clone()));
        proof {
            assert(items_view(items@) =~= now.push(added[i as int]));
            assert(before + added.take(i + 1) =~= (before + added.take(i as int)).push(
                added[i as int],
            ));
        }
        i = i + 1;
    }
    proof {
        assert(added.take(i as int) =~= added);
    }
}

/// The words of a text below each other.
pub fn words_below(text: &str) -> (r: Vec<PanelItem>)
    ensures
        items_view(r@) == text_items(words(text@)),
{
    let mut items: Vec<PanelItem> = Vec::new();
    push_texts(&mut items, &split_words(text));
    proof {
        assert(items_view(items@) =~= text_items(words(text@)));
    }
    items
}

/// A date, where it is shown, above a time.
pub fn date_and_time_below(date: &Option<String>, time: &str) -> (r: Vec<PanelItem>)
    ensures
        items_view(r@) == date_above_time(opt_text(*date), time@),
{
    let mut items: Vec<PanelItem> = Vec::new();
    proof {
        assert(items_view(items@) =~= Seq::<ItemModel>::empty());
    }
    if let Some(date) = date {
        items = words_below(date.as_str());
        let ghost before = items_view(items@);
        items.push(PanelItem::Rule);
        proof {
            assert(items_view(items@) =~= before.push(ItemModel::Rule));
        }
    }
    push_texts(&mut items, &split_clock(time));
    items
}

pub open spec fn layout_view(items: Option<Vec<PanelItem>>) -> Option<Seq<ItemModel>> {
    match items {
        Some(items) => Some(items_view(items@)),
        None => None,
    }
}

/// What stands below each other: the words of the user's own format, or else the date, where
/// it is wanted, and the time. Nothing where there is no data for one that is shown.
pub open spec fn column_shown(
    s: SettingsModel,
    locale: Seq<char>,
    now: CivilTime,
    formatted: Option<Seq<char>>,
) -> Option<Seq<ItemModel>> {
    let date = icu_month_day(locale, day_of(now.date));
    let time = icu_time(locale, chosen_cycle(s), chosen_precision(s), clock_of(now));
    match formatted {
        Some(text) => Some(text_items(words(text))),
        None => if s.show_date_in_top_panel && date is None {
            None
        } else {
            match time {
                Some(time) => Some(
                    date_above_time(
                        if s.show_date_in_top_panel {
                            date
                        } else {
                            None
                        },
                        time,
                    ),
                ),
                None => None,
            }
        },
    }
}

/// What stands below each other, given the text of the user's own format.
pub fn vertical_items(
    config: &TimeAppletConfig,
    locale: &str,
    now: &Zoned,
    formatted: &Option<String>,
) -> (r: Option<Vec<PanelItem>>)
    ensures
        layout_view(r) == column_shown(config@, locale@, now@.local, opt_text(*formatted)),
{
    if let Some(text) = formatted {
        return Some(words_below(text.as_str()));
    }
    let mut date: Option<String> = None;
    if config.show_date_in_top_panel {
        date = format_month_day(locale, to_day(now.date()));
        if date.is_none() {
            return None;
        }
    }
    match format_time(locale, config.cycle(), config.precision(), to_clock(now)) {
        Some(time) => Some(date_and_time_below(&date, time.as_str())),
        None => None,
    }
}

// ── The applet ─────────────────────────────────────────────────────

/// The heads of the columns of the grid: the short names of seven days from a date on.
pub open spec fn is_heads(locale: Seq<char>, first: int, heads: Seq<Option<String>>) -> bool {
    &&& heads.len() == 7
    &&& forall|i: int|
        0 <= i < 7 ==> opt_text(#[trigger] heads[i]) == icu_weekday(
            locale,
            Width::Short,
            day_of(date_on(first + i)),
        )
}

impl Window {
    /// The clock in a panel that is wide.
    pub fn horizontal_layout(&self, locale: &str) -> (r: Option<String>)
        ensures
            exists|formatted: Option<Seq<char>>| #[trigger]
                is_strftime(self@.config.format_strftime, self@.now, formatted) && opt_text(r)
                    == line_shown(self@.config, locale@, self@.now.local, formatted),
    {
        let formatted = maybe_strftime(self.config.format_strftime.as_str(), &self.now);
        let ghost text = opt_text(formatted);
        let r = horizontal_text(&self.config, locale, &self.now, formatted);
        proof {
            assert(is_strftime(self@.config.format_strftime, self@.now, text));
        }
        r
    }

    /// The clock in a panel that is narrow.
    pub fn vertical_layout(&self, locale: &str) -> (r: Option<Vec<PanelItem>>)
        ensures
            exists|formatted: Option<Seq<char>>| #[trigger]
                is_strftime(self@.config.format_strftime, self@.now, formatted) && layout_view(r)
                    == column_shown(self@.config, locale@, self@.now.local, formatted),
    {
        let formatted = maybe_strftime(self.config.format_strftime.as_str(), &self.now);
        let r = vertical_items(&self.config, locale, &self.now, &formatted);
        proof {
            assert(is_strftime(self@.config.format_strftime, self@.now, opt_text(formatted)));
        }
        r
    }

    /// The selected date in its long form, and its weekday.
    pub fn date_heads(&self, locale: &str) -> (r: (Option<String>, Option<String>))
        ensures
            opt_text(r.0) == icu_long_date(locale@, day_of(self@.date_selected)),
            opt_text(r.1) == icu_weekday(locale@, Width::Long, day_of(self@.date_selected)),
    {
        let day = to_day(self.date_selected);
        (format_long_date(locale, day), format_weekday(locale, Width::Long, day))
    }

    /// The heads of the columns of the grid.
    pub fn weekday_heads(&self, locale: &str) -> (r: Vec<Option<String>>)
        requires
            grid_fits(self@.date_selected, weekday_setting(self@.config.first_day_of_week)),
        ensures
            is_heads(
                locale@,
                cell_day(
                    self@.date_selected,
                    weekday_setting(self@.config.first_day_of_week),
                    0,
                ),
                r@,
            ),
    {
        let first = first_weekday(self.config.first_day_of_week);
        let start = calendar_first(self.date_selected, first).unwrap();
        let ghost n = cell_day(self@.date_selected, first, 0);
        proof {
            crate::time::lemma_day_exists(n);
        }
        let mut heads: Vec<Option<String>> = Vec::new();
        let mut i: i32 = 0;
        while i < 7
            invariant
                0 <= i <= 7,
                heads@.len() == i,
                is_day(n),
                is_day(n + 41),
                day_number(start@) == n,
                forall|k: int|
                    0 <= k < i ==> opt_text(#[trigger] heads@[k]) == icu_weekday(
                        locale@,
                        Width::Short,
                        day_of(date_on(n + k)),
                    ),
            decreases 7 - i,
        {
            let date = start.plus(Step::Days(i)).unwrap();
            heads.push(format_weekday(locale, Width::Short, to_day(date)));
            i = i + 1;
        }
        heads
    }
}

} // verus!
