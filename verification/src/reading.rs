//! What is read out of lists of dates and out of the text of a rule.

use crate::component::PropertyModel;
use crate::datetime::{is_utc_value, lemma_plain_bytes, stands_for, written_time};
use crate::event::{ics_day, ics_stamp, EventModel};
use crate::ics::{are_dates_of, date_items, is_date_of, is_event_of, items_of, DateItem};
use crate::roundtrip::{lemma_day_in_range, lemma_day_is_plain, lemma_stamp_is_plain, midnight};
use crate::rule::{
    blank_rule, by_day_token, month_day_token, month_token, part_key, part_value, readable, rule_of,
    rule_of_parts, with_part, ByDay, RRuleFreq, RuleModel,
};
use crate::text::{
    decimal, is_digit, is_space, lemma_digits_of, lemma_digits_read, lemma_index_is,
    lemma_split_first, lemma_split_one, signed_value, split, trim, unsigned_value,
};
use crate::time::{civil_second, valid_time, CivilDate, CivilTime, MAX_INSTANT, Moment, Weekday};
use vstd::prelude::*;

verus! {

// ── Lists ──────────────────────────────────────────────────────────

/// Texts with a character between each two of them.
pub open spec fn joined_by(parts: Seq<Seq<char>>, c: char) -> Seq<char>
    decreases parts.len(),
{
    if parts.len() == 0 {
        Seq::empty()
    } else if parts.len() == 1 {
        parts[0]
    } else {
        parts[0] + seq![c] + joined_by(parts.skip(1), c)
    }
}

/// Whether no text holds a character.
pub open spec fn none_holds(parts: Seq<Seq<char>>, c: char) -> bool {
    forall|i: int| 0 <= i < parts.len() ==> !(#[trigger] parts[i]).contains(c)
}

/// Texts that are joined come apart again.
pub proof fn lemma_split_joined(parts: Seq<Seq<char>>, c: char)
    requires
        parts.len() > 0,
        none_holds(parts, c),
    ensures
        split(joined_by(parts, c), c) == parts,
    decreases parts.len(),
{
    assert(!parts[0].contains(c));
    if parts.len() == 1 {
        lemma_split_one(parts[0], c);
        assert(parts =~= seq![parts[0]]);
    } else {
        let rest = parts.skip(1);
        assert forall|i: int| 0 <= i < rest.len() implies !(#[trigger] rest[i]).contains(c) by {
            assert(rest[i] == parts[i + 1]);
        }
        lemma_split_joined(rest, c);
        lemma_split_first(parts[0], c, joined_by(rest, c));
        assert(parts =~= seq![parts[0]] + rest);
    }
}

/// A text that neither begins nor ends with white space is not cut.
pub proof fn lemma_trimmed_already(s: Seq<char>)
    requires
        s.len() > 0 ==> !is_space(s[0]) && !is_space(s.last()),
    ensures
        trim(s) == s,
{
}

// ── Lists of dates ─────────────────────────────────────────────────

/// Whether a text writes a time of universal time, or the date of one, in the form that
/// iCalendar has for it.
pub open spec fn is_writing_of(s: Seq<char>, t: CivilTime) -> bool {
    &&& valid_time(t)
    &&& 0 <= t.date.year
    &&& civil_second(t) <= MAX_INSTANT
    &&& s == ics_stamp(t) || s == ics_day(t.date)
}

/// What is written so is read as a moment of that date, whatever zone is named beside it;
/// with its time, where that is written.
pub proof fn lemma_writing_is_read(
    s: Seq<char>,
    t: CivilTime,
    tzid: Option<Seq<char>>,
    m: Option<Moment>,
)
    requires
        is_writing_of(s, t),
        stands_for(written_time(s), s, tzid, m),
    ensures
        m is Some,
        m->0.local.date == t.date,
        s == ics_stamp(t) ==> m->0.local == (CivilTime { nanosecond: 0, ..t }),
        m->0.zone == crate::time::ZoneModel::Utc,
{
    lemma_plain_bytes(s);
    lemma_day_is_plain(t.date);
    lemma_day_in_range(t.date);
    lemma_stamp_is_plain(t);
    let u = CivilTime { nanosecond: 0, ..t };
    assert(civil_second(u) == civil_second(t));
    assert(civil_second(midnight(t.date)) <= civil_second(t));
    if s == ics_stamp(t) {
        assert(crate::datetime::is_plain_utc(s));
        assert(s.len() == 16);
        assert(s[15] == 'Z' && s.last() == s[15]);
        assert(is_utc_value(s));
    } else {
        assert(crate::datetime::is_plain_date(s));
    }
}

/// Whether items can be read in one way only, as given dates.
spec fn are_fixed(items: Seq<DateItem>, dates: Seq<CivilDate>) -> bool {
    items.len() == dates.len() && forall|i: int, m: Option<Moment>|
        0 <= i < items.len() && #[trigger] stands_for(
            written_time(items[i].0),
            items[i].0,
            items[i].1,
            m,
        ) ==> m is Some && m->0.local.date == dates[i]
}

proof fn lemma_fixed_dates(items: Seq<DateItem>, wanted: Seq<CivilDate>, dates: Seq<CivilDate>)
    requires
        are_fixed(items, wanted),
        are_dates_of(items, dates),
    ensures
        dates == wanted,
    decreases items.len(),
{
    if items.len() == 0 {
        assert(dates =~= wanted);
    } else {
        let item = items.last();
        let n = items.len() - 1;
        let earlier = items.drop_last();
        let before = wanted.drop_last();
        assert(items[n] == item);
        assert forall|i: int, m: Option<Moment>|
            0 <= i < earlier.len() && #[trigger] stands_for(
                written_time(earlier[i].0),
                earlier[i].0,
                earlier[i].1,
                m,
            ) implies m is Some && m->0.local.date == before[i] by {
            assert(earlier[i] == items[i]);
            assert(stands_for(written_time(items[i].0), items[i].0, items[i].1, m));
        }
        assert(!stands_for(written_time(items[n].0), items[n].0, items[n].1, None::<Moment>));
        assert(dates.len() > 0 && is_date_of(item, dates.last()) && are_dates_of(
            earlier,
            dates.drop_last(),
        ));
        let m = choose|m: Moment|
            #![trigger m.local.date]
            stands_for(written_time(item.0), item.0, item.1, Some(m)) && m.local.date
                == dates.last();
        assert(stands_for(written_time(items[n].0), items[n].0, items[n].1, Some(m)));
        lemma_fixed_dates(earlier, before, dates.drop_last());
        assert(dates =~= dates.drop_last().push(dates.last()));
        assert(wanted =~= before.push(wanted.last()));
    }
}

pub open spec fn dates_of(times: Seq<CivilTime>) -> Seq<CivilDate> {
    times.map_values(|t: CivilTime| t.date)
}

/// The dates of lists of times, one list after the other.
pub open spec fn dates_of_all(lists: Seq<Seq<CivilTime>>) -> Seq<CivilDate>
    decreases lists.len(),
{
    if lists.len() == 0 {
        Seq::empty()
    } else {
        dates_of_all(lists.drop_last()) + dates_of(lists.last())
    }
}

/// Whether the properties with a name list times, each property those of its list: written
/// with commas between, and perhaps white space around. The other properties have no list.
pub open spec fn are_listed(
    props: Seq<PropertyModel>,
    name: Seq<char>,
    texts: Seq<Seq<Seq<char>>>,
    lists: Seq<Seq<CivilTime>>,
) -> bool {
    &&& props.len() == texts.len() == lists.len()
    &&& forall|i: int|
        0 <= i < props.len() ==> if (#[trigger] props[i]).name == name {
            is_list(props[i], texts[i], lists[i])
        } else {
            lists[i].len() == 0
        }
}

pub open spec fn is_list(p: PropertyModel, texts: Seq<Seq<char>>, times: Seq<CivilTime>) -> bool {
    &&& texts.len() == times.len() > 0
    &&& p.value == Some(joined_by(texts, ','))
    &&& none_holds(texts, ',')
    &&& forall|k: int|
        0 <= k < texts.len() ==> is_writing_of(trim(#[trigger] texts[k]), times[k])
}

proof fn lemma_fixed_list(p: PropertyModel, texts: Seq<Seq<char>>, times: Seq<CivilTime>)
    requires
        is_list(p, texts, times),
    ensures
        are_fixed(items_of(p), dates_of(times)),
{
    lemma_split_joined(texts, ',');
    let items = items_of(p);
    assert forall|i: int, m: Option<Moment>|
        0 <= i < items.len() && #[trigger] stands_for(
            written_time(items[i].0),
            items[i].0,
            items[i].1,
            m,
        ) implies m is Some && m->0.local.date == dates_of(times)[i] by {
        assert(items[i].0 == trim(texts[i]));
        lemma_writing_is_read(items[i].0, times[i], items[i].1, m);
    }
}

proof fn lemma_fixed_concat(
    a: Seq<DateItem>,
    b: Seq<DateItem>,
    x: Seq<CivilDate>,
    y: Seq<CivilDate>,
)
    requires
        are_fixed(a, x),
        are_fixed(b, y),
    ensures
        are_fixed(a + b, x + y),
{
    let items = a + b;
    assert forall|i: int, m: Option<Moment>|
        0 <= i < items.len() && #[trigger] stands_for(
            written_time(items[i].0),
            items[i].0,
            items[i].1,
            m,
        ) implies m is Some && m->0.local.date == (x + y)[i] by {
        if i < a.len() {
            assert(items[i] == a[i]);
            assert(stands_for(written_time(a[i].0), a[i].0, a[i].1, m));
        } else {
            let k = i - a.len();
            assert(items[i] == b[k]);
            assert(stands_for(written_time(b[k].0), b[k].0, b[k].1, m));
        }
    }
}

proof fn lemma_fixed_lists(
    props: Seq<PropertyModel>,
    name: Seq<char>,
    texts: Seq<Seq<Seq<char>>>,
    lists: Seq<Seq<CivilTime>>,
)
    requires
        are_listed(props, name, texts, lists),
    ensures
        are_fixed(date_items(props, name), dates_of_all(lists)),
    decreases props.len(),
{
    if props.len() > 0 {
        let n = props.len() - 1;
        let front = props.drop_last();
        assert forall|i: int| 0 <= i < front.len() implies if (#[trigger] front[i]).name == name {
            is_list(front[i], texts.drop_last()[i], lists.drop_last()[i])
        } else {
            lists.drop_last()[i].len() == 0
        } by {
            assert(front[i] == props[i]);
        }
        lemma_fixed_lists(front, name, texts.drop_last(), lists.drop_last());
        assert(props[n] == props.last());
        let before = dates_of_all(lists.drop_last());
        if props.last().name == name {
            lemma_fixed_list(props.last(), texts.last(), lists.last());
            lemma_fixed_concat(
                date_items(front, name),
                items_of(props.last()),
                before,
                dates_of(lists.last()),
            );
        } else {
            assert(dates_of(lists.last()) =~= Seq::<CivilDate>::empty());
            assert(before + dates_of(lists.last()) =~= before);
        }
    }
}

/// The dates that properties list are read: all of them, in their order.
pub proof fn lemma_listed_dates(
    props: Seq<PropertyModel>,
    name: Seq<char>,
    texts: Seq<Seq<Seq<char>>>,
    lists: Seq<Seq<CivilTime>>,
    dates: Seq<CivilDate>,
)
    requires
        are_listed(props, name, texts, lists),
        are_dates_of(date_items(props, name), dates),
    ensures
        dates == dates_of_all(lists),
{
    lemma_fixed_lists(props, name, texts, lists);
    lemma_fixed_dates(date_items(props, name), dates_of_all(lists), dates);
}

/// An event that is read is without exactly the dates that its exception lists write, and has
/// exactly the extra dates that its lists of these write.
pub proof fn lemma_event_dates(
    props: Seq<PropertyModel>,
    source_id: Seq<char>,
    color: Seq<char>,
    e: EventModel,
    exceptions: Seq<Seq<Seq<char>>>,
    excluded: Seq<Seq<CivilTime>>,
    additions: Seq<Seq<Seq<char>>>,
    added: Seq<Seq<CivilTime>>,
)
    requires
        is_event_of(props, source_id, color, Some(e)),
        are_listed(props, "EXDATE"@, exceptions, excluded),
        are_listed(props, "RDATE"@, additions, added),
    ensures
        e.exdates == dates_of_all(excluded),
        e.rdates == dates_of_all(added),
{
    lemma_listed_dates(props, "EXDATE"@, exceptions, excluded, e.exdates);
    lemma_listed_dates(props, "RDATE"@, additions, added, e.rdates);
}

// ── Rules ──────────────────────────────────────────────────────────

/// A part of a rule.
pub enum RulePart {
    Freq(RRuleFreq),
    Interval(i32),
    Count(i32),
    /// The last date, with a time of universal time where that is written.
    Until(CivilTime, bool),
    ByDay(Seq<ByDay>),
    ByMonth(Seq<u8>),
    ByMonthDay(Seq<i8>),
}

pub open spec fn freq_text(f: RRuleFreq) -> Seq<char> {
    match f {
        RRuleFreq::Daily => "DAILY"@,
        RRuleFreq::Weekly => "WEEKLY"@,
        RRuleFreq::Monthly => "MONTHLY"@,
        RRuleFreq::Yearly => "YEARLY"@,
    }
}

pub open spec fn weekday_text(w: Weekday) -> Seq<char> {
    match w {
        Weekday::Monday => "MO"@,
        Weekday::Tuesday => "TU"@,
        Weekday::Wednesday => "WE"@,
        Weekday::Thursday => "TH"@,
        Weekday::Friday => "FR"@,
        Weekday::Saturday => "SA"@,
        Weekday::Sunday => "SU"@,
    }
}

pub open spec fn by_day_text(day: ByDay) -> Seq<char> {
    match day.0 {
        Some(n) => decimal(n as int) + weekday_text(day.1),
        None => weekday_text(day.1),
    }
}

pub open spec fn by_day_texts(days: Seq<ByDay>) -> Seq<Seq<char>> {
    days.map_values(|d: ByDay| by_day_text(d))
}

pub open spec fn month_texts(months: Seq<u8>) -> Seq<Seq<char>> {
    months.map_values(|m: u8| decimal(m as int))
}

pub open spec fn month_day_texts(days: Seq<i8>) -> Seq<Seq<char>> {
    days.map_values(|d: i8| decimal(d as int))
}

/// The name and the value of a part.
pub open spec fn part_text(p: RulePart) -> (Seq<char>, Seq<char>) {
    match p {
        RulePart::Freq(f) => ("FREQ"@, freq_text(f)),
        RulePart::Interval(n) => ("INTERVAL"@, decimal(n as int)),
        RulePart::Count(n) => ("COUNT"@, decimal(n as int)),
        RulePart::Until(t, timed) => (
            "UNTIL"@,
            if timed {
                ics_stamp(t)
            } else {
                ics_day(t.date)
            },
        ),
        RulePart::ByDay(days) => ("BYDAY"@, joined_by(by_day_texts(days), ',')),
        RulePart::ByMonth(months) => ("BYMONTH"@, joined_by(month_texts(months), ',')),
        RulePart::ByMonthDay(days) => ("BYMONTHDAY"@, joined_by(month_day_texts(days), ',')),
    }
}

pub open spec fn written_part(p: RulePart) -> Seq<char> {
    part_text(p).0 + seq!['='] + part_text(p).1
}

/// Whether a part can be written: a date that iCalendar can write, lists that are not empty,
/// months from 1 to 12, and days up to 31 from either end of the month.
pub open spec fn is_good_part(p: RulePart) -> bool {
    match p {
        RulePart::Until(t, timed) => valid_time(t) && 0 <= t.date.year && civil_second(t)
            <= MAX_INSTANT,
        RulePart::ByDay(days) => days.len() > 0,
        RulePart::ByMonth(months) => months.len() > 0 && forall|i: int|
            0 <= i < months.len() ==> 1 <= #[trigger] months[i] <= 12,
        RulePart::ByMonthDay(days) => days.len() > 0 && forall|i: int|
            0 <= i < days.len() ==> -31 <= #[trigger] days[i] <= 31 && days[i] != 0,
        _ => true,
    }
}

/// A rule that says one thing more. What is said again counts the last time, lists grow.
pub open spec fn saying(rule: RuleModel, p: RulePart) -> RuleModel {
    match p {
        RulePart::Freq(f) => RuleModel { freq: Some(f), ..rule },
        RulePart::Interval(n) => RuleModel { interval: n, ..rule },
        RulePart::Count(n) => RuleModel { count: Some(n), ..rule },
        RulePart::Until(t, timed) => RuleModel { until: Some(t.date), ..rule },
        RulePart::ByDay(days) => RuleModel { by_day: rule.by_day + days, ..rule },
        RulePart::ByMonth(months) => RuleModel { by_month: rule.by_month + months, ..rule },
        RulePart::ByMonthDay(days) => RuleModel {
            by_monthday: rule.by_monthday + days,
            ..rule
        },
    }
}

/// What the parts of a rule say, from a rule that says nothing: every period, without an end.
pub open spec fn said_by(parts: Seq<RulePart>) -> RuleModel
    decreases parts.len(),
{
    if parts.len() == 0 {
        RuleModel {
            freq: None,
            interval: 1,
            count: None,
            until: None,
            by_day: Seq::empty(),
            by_month: Seq::empty(),
            by_monthday: Seq::empty(),
        }
    } else {
        saying(said_by(parts.drop_last()), parts.last())
    }
}

pub open spec fn written_parts(parts: Seq<RulePart>) -> Seq<Seq<char>> {
    parts.map_values(|p: RulePart| written_part(p))
}

/// Whether a text has only digits, capital letters and minus signs.
spec fn is_simple(s: Seq<char>) -> bool {
    forall|i: int|
        0 <= i < s.len() ==> is_digit(#[trigger] s[i]) || 'A' <= s[i] <= 'Z' || s[i] == '-'
}

proof fn lemma_simple(s: Seq<char>)
    requires
        is_simple(s),
    ensures
        !s.contains(';'),
        !s.contains(','),
        !s.contains('='),
        trim(s) == s,
{
    assert forall|i: int| 0 <= i < s.len() implies s[i] != ';' && s[i] != ',' && s[i] != '='
        && !is_space(s[i]) by {
        assert(is_digit(s[i]) || 'A' <= s[i] <= 'Z' || s[i] == '-');
    }
    if s.len() > 0 {
        assert(!is_space(s[0]) && !is_space(s[s.len() - 1]));
    }
    lemma_trimmed_already(s);
}

proof fn lemma_simple_concat(a: Seq<char>, b: Seq<char>)
    requires
        is_simple(a),
        is_simple(b),
    ensures
        is_simple(a + b),
{
    assert forall|i: int| 0 <= i < (a + b).len() implies is_digit(#[trigger] (a + b)[i]) || 'A'
        <= (a + b)[i] <= 'Z' || (a + b)[i] == '-' by {
        if i < a.len() {
            assert((a + b)[i] == a[i]);
        } else {
            assert((a + b)[i] == b[i - a.len()]);
        }
    }
}

/// A number that is written is read.
pub proof fn lemma_number_is_read(n: int)
    ensures
        signed_value(decimal(n)) == Some(n),
        n >= 0 ==> unsigned_value(decimal(n)) == Some(n),
        decimal(n).len() > 0,
{
    if n < 0 {
        lemma_digits_of((-n) as nat);
        let digits = crate::text::digits_of((-n) as nat);
        assert(decimal(n).skip(1) =~= digits);
        assert(digits.len() > 0);
    } else {
        lemma_digits_of(n as nat);
        assert(decimal(n).len() > 0);
        lemma_digits_read(decimal(n));
    }
}

proof fn lemma_number_is_simple(n: int)
    ensures
        is_simple(decimal(n)),
{
    let s = decimal(n);
    if n < 0 {
        lemma_digits_of((-n) as nat);
        let digits = crate::text::digits_of((-n) as nat);
        assert forall|i: int| 0 <= i < s.len() implies is_digit(#[trigger] s[i]) || 'A' <= s[i]
            <= 'Z' || s[i] == '-' by {
            if i > 0 {
                assert(s[i] == digits[i - 1]);
            }
        }
    } else {
        lemma_digits_of(n as nat);
    }
}

proof fn lemma_weekday_texts()
    ensures
        forall|w: Weekday| #[trigger]
            weekday_text(w).len() == 2 && is_simple(weekday_text(w))
                && crate::rule::weekday_named(weekday_text(w)) == Some(w),
{
    reveal_strlit("MO");
    reveal_strlit("TU");
    reveal_strlit("WE");
    reveal_strlit("TH");
    reveal_strlit("FR");
    reveal_strlit("SA");
    reveal_strlit("SU");
    assert("MO"@[0] == 'M' && "TU"@[0] == 'T' && "WE"@[0] == 'W' && "TH"@[0] == 'T' && "FR"@[0]
        == 'F' && "SA"@[0] == 'S' && "SU"@[0] == 'S');
    assert("TU"@[1] == 'U' && "TH"@[1] == 'H' && "SA"@[1] == 'A' && "SU"@[1] == 'U');
    assert("MO"@[1] == 'O' && "WE"@[1] == 'E' && "FR"@[1] == 'R');
    assert forall|w: Weekday| #[trigger]
        weekday_text(w).len() == 2 && is_simple(weekday_text(w)) && crate::rule::weekday_named(
            weekday_text(w),
        ) == Some(w) by {
        match w {
            Weekday::Monday => {},
            Weekday::Tuesday => {},
            Weekday::Wednesday => {},
            Weekday::Thursday => {},
            Weekday::Friday => {},
            Weekday::Saturday => {},
            Weekday::Sunday => {},
        }
    }
}

/// A weekday with an optional number that is written is read.
pub proof fn lemma_by_day_is_read(day: ByDay)
    ensures
        by_day_token(by_day_text(day)) == Some(day),
{
    lemma_weekday_texts();
    let v = by_day_text(day);
    let w = weekday_text(day.1);
    assert(w.len() == 2);
    match day.0 {
        Some(n) => {
            lemma_number_is_read(n as int);
            assert(v.take(v.len() - 2) =~= decimal(n as int));
            assert(v.skip(v.len() - 2) =~= w);
        },
        None => {
            assert(v.take(v.len() - 2) =~= Seq::<char>::empty());
            assert(v.skip(v.len() - 2) =~= w);
        },
    }
}

proof fn lemma_readable<T>(
    texts: Seq<Seq<char>>,
    read: spec_fn(Seq<char>) -> Option<T>,
    items: Seq<T>,
)
    requires
        texts.len() == items.len(),
        forall|i: int|
            0 <= i < texts.len() ==> is_simple(#[trigger] texts[i]) && read(texts[i]) == Some(
                items[i],
            ),
    ensures
        readable(texts, read) == items,
    decreases texts.len(),
{
    if texts.len() > 0 {
        let n = texts.len() - 1;
        let front = texts.drop_last();
        assert forall|i: int| 0 <= i < front.len() implies is_simple(#[trigger] front[i]) && read(
            front[i],
        ) == Some(items.drop_last()[i]) by {
            assert(front[i] == texts[i]);
        }
        lemma_readable(front, read, items.drop_last());
        assert(is_simple(texts[n]));
        lemma_simple(texts.last());
        assert(items =~= items.drop_last().push(items.last()));
    } else {
        assert(items =~= Seq::<T>::empty());
    }
}

proof fn lemma_simple_list(texts: Seq<Seq<char>>)
    requires
        forall|i: int| 0 <= i < texts.len() ==> is_simple(#[trigger] texts[i]),
    ensures
        none_holds(texts, ','),
        !joined_by(texts, ',').contains(';'),
        !joined_by(texts, ',').contains('='),
    decreases texts.len(),
{
    assert forall|i: int| 0 <= i < texts.len() implies !(#[trigger] texts[i]).contains(',') by {
        lemma_simple(texts[i]);
    }
    let s = joined_by(texts, ',');
    if texts.len() > 0 {
        assert(is_simple(texts[0]));
        lemma_simple(texts[0]);
        if texts.len() > 1 {
            let rest = texts.skip(1);
            assert forall|i: int| 0 <= i < rest.len() implies is_simple(#[trigger] rest[i]) by {
                assert(rest[i] == texts[i + 1]);
            }
            lemma_simple_list(rest);
            let tail = joined_by(rest, ',');
            let n = texts[0].len() as int;
            assert forall|i: int| 0 <= i < s.len() implies s[i] != ';' && s[i] != '=' by {
                if i < n {
                    assert(s[i] == texts[0][i]);
                } else if i > n {
                    assert(s[i] == tail[i - n - 1]);
                }
            }
        }
    }
}

/// The names of the parts and of the frequencies differ, and hold no mark.
proof fn lemma_part_names()
    ensures
        is_simple("FREQ"@),
        is_simple("INTERVAL"@),
        is_simple("COUNT"@),
        is_simple("UNTIL"@),
        is_simple("BYDAY"@),
        is_simple("BYMONTH"@),
        is_simple("BYMONTHDAY"@),
        "FREQ"@.len() == 4,
        "INTERVAL"@.len() == 8,
        "BYMONTH"@.len() == 7,
        "BYMONTHDAY"@.len() == 10,
        "COUNT"@.len() == 5,
        "UNTIL"@.len() == 5,
        "BYDAY"@.len() == 5,
        "COUNT"@ != "UNTIL"@,
        "COUNT"@ != "BYDAY"@,
        "UNTIL"@ != "BYDAY"@,
        is_simple("DAILY"@),
        is_simple("WEEKLY"@),
        is_simple("MONTHLY"@),
        is_simple("YEARLY"@),
        "DAILY"@.len() == 5,
        "WEEKLY"@.len() == 6,
        "MONTHLY"@.len() == 7,
        "YEARLY"@.len() == 6,
        "WEEKLY"@ != "YEARLY"@,
{
    reveal_strlit("FREQ");
    assert("FREQ"@ =~= seq!['F', 'R', 'E', 'Q']);
    reveal_strlit("INTERVAL");
    assert("INTERVAL"@ =~= seq!['I', 'N', 'T', 'E', 'R', 'V', 'A', 'L']);
    reveal_strlit("COUNT");
    assert("COUNT"@ =~= seq!['C', 'O', 'U', 'N', 'T']);
    reveal_strlit("UNTIL");
    assert("UNTIL"@ =~= seq!['U', 'N', 'T', 'I', 'L']);
    reveal_strlit("BYDAY");
    assert("BYDAY"@ =~= seq!['B', 'Y', 'D', 'A', 'Y']);
    reveal_strlit("BYMONTH");
    assert("BYMONTH"@ =~= seq!['B', 'Y', 'M', 'O', 'N', 'T', 'H']);
    reveal_strlit("BYMONTHDAY");
    assert("BYMONTHDAY"@ =~= seq!['B', 'Y', 'M', 'O', 'N', 'T', 'H', 'D', 'A', 'Y']);
    reveal_strlit("DAILY");
    assert("DAILY"@ =~= seq!['D', 'A', 'I', 'L', 'Y']);
    reveal_strlit("WEEKLY");
    assert("WEEKLY"@ =~= seq!['W', 'E', 'E', 'K', 'L', 'Y']);
    reveal_strlit("MONTHLY");
    assert("MONTHLY"@ =~= seq!['M', 'O', 'N', 'T', 'H', 'L', 'Y']);
    reveal_strlit("YEARLY");
    assert("YEARLY"@ =~= seq!['Y', 'E', 'A', 'R', 'L', 'Y']);
    assert("COUNT"@[0] == 'C' && "UNTIL"@[0] == 'U' && "BYDAY"@[0] == 'B');
    assert("WEEKLY"@[0] == 'W' && "YEARLY"@[0] == 'Y');
}

proof fn lemma_part_comes_apart(key: Seq<char>, value: Seq<char>)
    requires
        !key.contains('='),
    ensures
        part_key(key + seq!['='] + value) == key,
        part_value(key + seq!['='] + value) == value,
{
    let s = key + seq!['='] + value;
    let n = key.len() as int;
    assert forall|j: int| 0 <= j < n implies s[j] != '=' by {
        assert(s[j] == key[j]);
        assert(key.contains(key[j]));
    }
    lemma_index_is(s, '=', n);
    assert(s.take(n) =~= key);
    assert(s.skip(n + 1) =~= value);
}

proof fn lemma_date_is_simple(t: CivilTime)
    requires
        valid_time(t),
        0 <= t.date.year,
    ensures
        is_simple(ics_stamp(t)),
        is_simple(ics_day(t.date)),
{
    lemma_day_is_plain(t.date);
    lemma_stamp_is_plain(t);
    let v = ics_stamp(t);
    let w = v.take(15);
    assert(crate::datetime::is_plain_utc(v));
    assert forall|i: int| 0 <= i < v.len() implies is_digit(#[trigger] v[i]) || 'A' <= v[i] <= 'Z'
        || v[i] == '-' by {
        if i < 8 {
            assert(v[i] == w.subrange(0, 8)[i]);
        } else if i == 8 {
            assert(v[i] == w[8]);
        } else if i < 15 {
            assert(v[i] == w.subrange(9, 15)[i - 9]);
        }
    }
}

/// One part of a rule that is written is read as it was meant, and holds no mark of its own.
proof fn lemma_part_is_read(rule: RuleModel, p: RulePart)
    requires
        is_good_part(p),
    ensures
        with_part(rule, written_part(p)) == saying(rule, p),
        !written_part(p).contains(';'),
{
    lemma_part_names();
    let key = part_text(p).0;
    let value = part_text(p).1;
    lemma_simple(key);
    lemma_part_comes_apart(key, value);
    assert(!value.contains(';')) by {
        match p {
            RulePart::Freq(f) => {
                lemma_simple(value);
            },
            RulePart::Interval(n) => {
                lemma_number_is_simple(n as int);
                lemma_simple(value);
            },
            RulePart::Count(n) => {
                lemma_number_is_simple(n as int);
                lemma_simple(value);
            },
            RulePart::Until(t, timed) => {
                lemma_date_is_simple(t);
                lemma_simple(value);
            },
            RulePart::ByDay(days) => {
                lemma_by_day_list(days);
            },
            RulePart::ByMonth(months) => {
                lemma_month_list(months);
            },
            RulePart::ByMonthDay(days) => {
                lemma_month_day_list(days);
            },
        }
    }
    let s = written_part(p);
    assert forall|i: int| 0 <= i < s.len() implies s[i] != ';' by {
        if i < key.len() {
            assert(s[i] == key[i]);
            assert(key.contains(key[i]));
        } else if i > key.len() {
            assert(s[i] == value[i - key.len() - 1]);
            assert(value.contains(value[i - key.len() - 1]));
        }
    }
    match p {
        RulePart::Freq(f) => {},
        RulePart::Interval(n) => {
            lemma_number_is_read(n as int);
        },
        RulePart::Count(n) => {
            lemma_number_is_read(n as int);
        },
        RulePart::Until(t, timed) => {
            let m = match written_time(value) {
                Some(t) => crate::time::utc_moment(t),
                None => None,
            };
            assert(stands_for(written_time(value), value, None, m));
            lemma_writing_is_read(value, t, None, m);
        },
        RulePart::ByDay(days) => {
            lemma_by_day_list(days);
        },
        RulePart::ByMonth(months) => {
            lemma_month_list(months);
        },
        RulePart::ByMonthDay(days) => {
            lemma_month_day_list(days);
        },
    }
}

proof fn lemma_by_day_list(days: Seq<ByDay>)
    requires
        days.len() > 0,
    ensures
        !joined_by(by_day_texts(days), ',').contains(';'),
        readable(split(joined_by(by_day_texts(days), ','), ','), |v: Seq<char>| by_day_token(v))
            == days,
{
    let texts = by_day_texts(days);
    assert forall|i: int| 0 <= i < texts.len() implies is_simple(#[trigger] texts[i])
        && by_day_token(texts[i]) == Some(days[i]) by {
        lemma_by_day_is_read(days[i]);
        lemma_weekday_texts();
        assert(weekday_text(days[i].1).len() == 2);
        if days[i].0 is Some {
            lemma_number_is_simple(days[i].0->0 as int);
            lemma_simple_concat(decimal(days[i].0->0 as int), weekday_text(days[i].1));
        }
    }
    lemma_simple_list(texts);
    lemma_split_joined(texts, ',');
    lemma_readable(texts, |v: Seq<char>| by_day_token(v), days);
}

proof fn lemma_month_list(months: Seq<u8>)
    requires
        months.len() > 0,
        forall|i: int| 0 <= i < months.len() ==> 1 <= #[trigger] months[i] <= 12,
    ensures
        !joined_by(month_texts(months), ',').contains(';'),
        readable(split(joined_by(month_texts(months), ','), ','), |v: Seq<char>| month_token(v))
            == months,
{
    let texts = month_texts(months);
    assert forall|i: int| 0 <= i < texts.len() implies is_simple(#[trigger] texts[i])
        && month_token(texts[i]) == Some(months[i]) by {
        assert(1 <= months[i] <= 12);
        lemma_number_is_read(months[i] as int);
        lemma_number_is_simple(months[i] as int);
    }
    lemma_simple_list(texts);
    lemma_split_joined(texts, ',');
    lemma_readable(texts, |v: Seq<char>| month_token(v), months);
}

proof fn lemma_month_day_list(days: Seq<i8>)
    requires
        days.len() > 0,
        forall|i: int| 0 <= i < days.len() ==> -31 <= #[trigger] days[i] <= 31 && days[i] != 0,
    ensures
        !joined_by(month_day_texts(days), ',').contains(';'),
        readable(
            split(joined_by(month_day_texts(days), ','), ','),
            |v: Seq<char>| month_day_token(v),
        ) == days,
{
    let texts = month_day_texts(days);
    assert forall|i: int| 0 <= i < texts.len() implies is_simple(#[trigger] texts[i])
        && month_day_token(texts[i]) == Some(days[i]) by {
        assert(-31 <= days[i] <= 31 && days[i] != 0);
        lemma_number_is_read(days[i] as int);
        lemma_number_is_simple(days[i] as int);
    }
    lemma_simple_list(texts);
    lemma_split_joined(texts, ',');
    lemma_readable(texts, |v: Seq<char>| month_day_token(v), days);
}

proof fn lemma_parts_are_read(parts: Seq<RulePart>)
    requires
        forall|i: int| 0 <= i < parts.len() ==> is_good_part(#[trigger] parts[i]),
    ensures
        rule_of_parts(written_parts(parts)) == said_by(parts),
        none_holds(written_parts(parts), ';'),
    decreases parts.len(),
{
    let texts = written_parts(parts);
    if parts.len() > 0 {
        let n = parts.len() - 1;
        let front = parts.drop_last();
        assert forall|i: int| 0 <= i < front.len() implies is_good_part(#[trigger] front[i]) by {
            assert(front[i] == parts[i]);
        }
        lemma_parts_are_read(front);
        assert(texts.drop_last() =~= written_parts(front));
        assert(is_good_part(parts[n]));
        lemma_part_is_read(said_by(front), parts.last());
    }
    assert forall|i: int| 0 <= i < texts.len() implies !(#[trigger] texts[i]).contains(';') by {
        assert(is_good_part(parts[i]));
        lemma_part_is_read(blank_rule(), parts[i]);
    }
}

/// A rule that is written, with its parts in whatever order, is read as what its parts say;
/// without a frequency it is none.
pub proof fn lemma_rule_is_read(parts: Seq<RulePart>)
    requires
        parts.len() > 0,
        forall|i: int| 0 <= i < parts.len() ==> is_good_part(#[trigger] parts[i]),
    ensures
        rule_of(joined_by(written_parts(parts), ';')) == (if said_by(parts).freq is Some {
            Some(said_by(parts))
        } else {
            None
        }),
{
    lemma_parts_are_read(parts);
    lemma_split_joined(written_parts(parts), ';');
}

} // verus!
