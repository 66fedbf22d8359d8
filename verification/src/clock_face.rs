//! What the settings make of the clock in the panel.

use crate::clock::{
    asks_for_seconds, clock_pieces, lemma_word_length, locale_name, ticks_seconds, words,
};
use crate::panel::{
    column_shown, first_read, icu_date_time, icu_locale, icu_month_day, icu_time,
    icu_weekday_date_time, line_shown, tried_locales, Clock, Cycle, Day, ItemModel, Precision,
};
use crate::reading::{joined_by, lemma_split_joined, none_holds};
use crate::text::{is_space, lemma_split_first, lemma_split_one};
use crate::time::{valid_time, CivilTime};
use crate::window::SettingsModel;
use vstd::prelude::*;

verus! {

// ── One line ───────────────────────────────────────────────────────

/// Whether these are the day and the time of day of a time.
pub open spec fn shows(day: Day, clock: Clock, now: CivilTime) -> bool {
    &&& day.year as int == now.date.year
    &&& day.month as int == now.date.month
    &&& day.day as int == now.date.day
    &&& clock.hour as int == now.hour
    &&& clock.minute as int == now.minute
    &&& clock.second as int == now.second
}

/// Whether the hours are counted as the settings want it, and the time is shown as precisely.
pub open spec fn suits(cycle: Cycle, precision: Precision, s: SettingsModel) -> bool {
    &&& s.military_time <==> cycle == Cycle::H23
    &&& s.show_seconds <==> precision == Precision::Second
}

/// The date is shown where it is wanted, and the weekday with it where that is wanted too,
/// whatever the other settings are. Military time decides on nothing but the count of the
/// hours, and the setting of the seconds on nothing but the precision.
pub proof fn lemma_line_of_settings(
    s: SettingsModel,
    locale: Seq<char>,
    now: CivilTime,
    cycle: Cycle,
    precision: Precision,
    day: Day,
    clock: Clock,
)
    requires
        valid_time(now),
        shows(day, clock, now),
        suits(cycle, precision, s),
    ensures
        s.show_date_in_top_panel && s.show_weekday ==> line_shown(s, locale, now, None)
            == icu_weekday_date_time(locale, cycle, precision, day, clock),
        s.show_date_in_top_panel && !s.show_weekday ==> line_shown(s, locale, now, None)
            == icu_date_time(locale, cycle, precision, day, clock),
        !s.show_date_in_top_panel ==> line_shown(s, locale, now, None) == icu_time(
            locale,
            cycle,
            precision,
            clock,
        ),
{
    lemma_taken_over(now, day, clock);
}

proof fn lemma_taken_over(now: CivilTime, day: Day, clock: Clock)
    requires
        valid_time(now),
        shows(day, clock, now),
    ensures
        crate::panel::day_of(now.date) == day,
        crate::panel::clock_of(now) == clock,
{
}

/// With the date and the weekday on and no format of the user's own, the line is the one with
/// weekday, date and time, whether or not the seconds are shown and the hours are counted to
/// 23.
pub proof fn lemma_weekday_is_shown(
    s: SettingsModel,
    show_seconds: bool,
    military_time: bool,
    locale: Seq<char>,
    now: CivilTime,
)
    requires
        valid_time(now),
        s.show_date_in_top_panel,
        s.show_weekday,
    ensures
        exists|cycle: Cycle, precision: Precision, day: Day, clock: Clock|
            #![trigger icu_weekday_date_time(locale, cycle, precision, day, clock)]
            {
                let other = SettingsModel { show_seconds, military_time, ..s };
                &&& suits(cycle, precision, other)
                &&& shows(day, clock, now)
                &&& line_shown(other, locale, now, None) == icu_weekday_date_time(
                    locale,
                    cycle,
                    precision,
                    day,
                    clock,
                )
            },
{
    let other = SettingsModel { show_seconds, military_time, ..s };
    let cycle = if military_time {
        Cycle::H23
    } else {
        Cycle::H12
    };
    let precision = if show_seconds {
        Precision::Second
    } else {
        Precision::Minute
    };
    let day = Day {
        year: now.date.year as i32,
        month: now.date.month as u8,
        day: now.date.day as u8,
    };
    let clock = Clock {
        hour: now.hour as u8,
        minute: now.minute as u8,
        second: now.second as u8,
    };
    assert(shows(day, clock, now));
    lemma_line_of_settings(other, locale, now, cycle, precision, day, clock);
}

/// A text of the user's own format is all that is shown, whatever the other settings are.
pub proof fn lemma_own_format_is_shown(
    s: SettingsModel,
    locale: Seq<char>,
    now: CivilTime,
    text: Seq<char>,
    parts: Seq<(Seq<char>, Seq<char>)>,
    tail: Seq<char>,
)
    requires
        are_words(parts, tail),
        text == spaced(parts, tail),
    ensures
        line_shown(s, locale, now, Some(text)) == Some(text),
        column_shown(s, locale, now, Some(text)) == Some(below(seconds_of(parts))),
{
    lemma_words(parts, tail);
    assert(below(words(text)) =~= crate::panel::text_items(words(text)));
}

// ── Words ──────────────────────────────────────────────────────────

/// Words, each behind a gap, and a last gap.
pub open spec fn spaced(parts: Seq<(Seq<char>, Seq<char>)>, tail: Seq<char>) -> Seq<char>
    decreases parts.len(),
{
    if parts.len() == 0 {
        tail
    } else {
        parts[0].0 + (parts[0].1 + spaced(parts.skip(1), tail))
    }
}

pub open spec fn is_gap(s: Seq<char>) -> bool {
    forall|i: int| 0 <= i < s.len() ==> is_space(#[trigger] s[i])
}

pub open spec fn is_word(s: Seq<char>) -> bool {
    s.len() > 0 && forall|i: int| 0 <= i < s.len() ==> !is_space(#[trigger] s[i])
}

/// Whether these are words with white space between each two of them, and perhaps before the
/// first and behind the last.
pub open spec fn are_words(parts: Seq<(Seq<char>, Seq<char>)>, tail: Seq<char>) -> bool {
    &&& forall|i: int|
        0 <= i < parts.len() ==> is_gap((#[trigger] parts[i]).0) && is_word(parts[i].1)
    &&& forall|i: int| 1 <= i < parts.len() ==> (#[trigger] parts[i]).0.len() > 0
    &&& is_gap(tail)
}

/// The words without the gaps.
pub open spec fn seconds_of(parts: Seq<(Seq<char>, Seq<char>)>) -> Seq<Seq<char>> {
    Seq::new(parts.len(), |i: int| parts[i].1)
}

proof fn lemma_gap(gap: Seq<char>, s: Seq<char>)
    requires
        is_gap(gap),
    ensures
        words(gap + s) == words(s),
    decreases gap.len(),
{
    if gap.len() == 0 {
        assert(gap + s =~= s);
    } else {
        assert(is_space(gap[0]));
        assert((gap + s)[0] == gap[0]);
        assert((gap + s).skip(1) =~= gap.skip(1) + s);
        lemma_gap(gap.skip(1), s);
    }
}

proof fn lemma_word(word: Seq<char>, rest: Seq<char>)
    requires
        is_word(word),
        rest.len() > 0 ==> is_space(rest[0]),
    ensures
        words(word + rest) == seq![word] + words(rest),
{
    let s = word + rest;
    let n = word.len() as int;
    assert forall|i: int| 0 <= i < n implies !is_space(#[trigger] s[i]) by {
        assert(s[i] == word[i]);
    }
    lemma_word_length(s, n);
    assert(s.take(n) =~= word);
    assert(s.skip(n) =~= rest);
}

/// A text comes apart at its white space, however much of it there is.
pub proof fn lemma_words(parts: Seq<(Seq<char>, Seq<char>)>, tail: Seq<char>)
    requires
        are_words(parts, tail),
    ensures
        words(spaced(parts, tail)) == seconds_of(parts),
    decreases parts.len(),
{
    if parts.len() == 0 {
        lemma_gap(tail, Seq::empty());
        assert(tail + Seq::<char>::empty() =~= tail);
        assert(seconds_of(parts) =~= Seq::<Seq<char>>::empty());
    } else {
        let more = parts.skip(1);
        let rest = spaced(more, tail);
        assert forall|i: int| 0 <= i < more.len() implies is_gap((#[trigger] more[i]).0) && is_word(
            more[i].1,
        ) by {
            assert(more[i] == parts[i + 1]);
        }
        assert forall|i: int| 1 <= i < more.len() implies (#[trigger] more[i]).0.len() > 0 by {
            assert(more[i] == parts[i + 1]);
        }
        lemma_words(more, tail);
        if more.len() > 0 {
            assert(more[0] == parts[1]);
            assert(is_space(more[0].0[0]));
            assert(rest[0] == more[0].0[0]);
        } else {
            assert(rest == tail);
        }
        assert(is_gap(parts[0].0) && is_word(parts[0].1));
        lemma_word(parts[0].1, rest);
        lemma_gap(parts[0].0, parts[0].1 + rest);
        assert(seconds_of(parts) =~= seq![parts[0].1] + seconds_of(more));
    }
}

// ── A column ───────────────────────────────────────────────────────

/// Texts below each other.
pub open spec fn below(texts: Seq<Seq<char>>) -> Seq<ItemModel> {
    Seq::new(texts.len(), |i: int| ItemModel::Text(texts[i]))
}

/// The lists one after the other.
pub open spec fn one_after_other(lists: Seq<Seq<Seq<char>>>) -> Seq<Seq<char>>
    decreases lists.len(),
{
    if lists.len() == 0 {
        Seq::empty()
    } else {
        lists[0] + one_after_other(lists.skip(1))
    }
}

proof fn lemma_last_list(lists: Seq<Seq<Seq<char>>>)
    requires
        lists.len() > 0,
    ensures
        one_after_other(lists) == one_after_other(lists.drop_last()) + lists.last(),
    decreases lists.len(),
{
    if lists.len() == 1 {
        assert(lists.skip(1) =~= Seq::<Seq<Seq<char>>>::empty());
        assert(lists.drop_last() =~= Seq::<Seq<Seq<char>>>::empty());
        assert(one_after_other(lists) =~= one_after_other(lists.drop_last()) + lists.last());
    } else {
        lemma_last_list(lists.skip(1));
        assert(lists.skip(1).drop_last() =~= lists.drop_last().skip(1));
        assert(lists.skip(1).last() == lists.last());
        assert(one_after_other(lists) =~= one_after_other(lists.drop_last()) + lists.last());
    }
}

/// Whether each word is a list of pieces with colons between.
pub open spec fn are_pieces(words: Seq<Seq<char>>, pieces: Seq<Seq<Seq<char>>>) -> bool {
    &&& words.len() == pieces.len()
    &&& forall|i: int|
        0 <= i < words.len() ==> (#[trigger] pieces[i]).len() > 0 && none_holds(pieces[i], ':')
            && words[i] == joined_by(pieces[i], ':')
}

/// The pieces of a time are what stands between its colons and its white space, in order.
pub proof fn lemma_time_pieces(words: Seq<Seq<char>>, pieces: Seq<Seq<Seq<char>>>)
    requires
        are_pieces(words, pieces),
    ensures
        clock_pieces(words) == one_after_other(pieces),
    decreases words.len(),
{
    if words.len() > 0 {
        let n = words.len() - 1;
        let front = pieces.drop_last();
        assert forall|i: int| 0 <= i < front.len() implies (#[trigger] front[i]).len() > 0
            && none_holds(front[i], ':') && words.drop_last()[i] == joined_by(front[i], ':') by {
            assert(front[i] == pieces[i]);
        }
        lemma_time_pieces(words.drop_last(), front);
        assert(pieces[n].len() > 0);
        lemma_split_joined(pieces[n], ':');
        lemma_last_list(pieces);
    }
}

/// In a narrow panel the words of the date stand below each other, where the date is wanted,
/// then a rule, then the pieces of the time. The weekday is not among them.
pub proof fn lemma_column_of_settings(
    s: SettingsModel,
    locale: Seq<char>,
    now: CivilTime,
    cycle: Cycle,
    precision: Precision,
    day: Day,
    clock: Clock,
    date_parts: Seq<(Seq<char>, Seq<char>)>,
    date_tail: Seq<char>,
    time_parts: Seq<(Seq<char>, Seq<char>)>,
    time_tail: Seq<char>,
    pieces: Seq<Seq<Seq<char>>>,
)
    requires
        valid_time(now),
        shows(day, clock, now),
        suits(cycle, precision, s),
        are_words(date_parts, date_tail),
        are_words(time_parts, time_tail),
        are_pieces(seconds_of(time_parts), pieces),
        icu_month_day(locale, day) == Some(spaced(date_parts, date_tail)),
        icu_time(locale, cycle, precision, clock) == Some(spaced(time_parts, time_tail)),
    ensures
        s.show_date_in_top_panel ==> column_shown(s, locale, now, None) == Some(
            below(seconds_of(date_parts)) + seq![ItemModel::Rule] + below(one_after_other(pieces)),
        ),
        !s.show_date_in_top_panel ==> column_shown(s, locale, now, None) == Some(
            below(one_after_other(pieces)),
        ),
{
    lemma_taken_over(now, day, clock);
    lemma_words(date_parts, date_tail);
    lemma_words(time_parts, time_tail);
    lemma_time_pieces(seconds_of(time_parts), pieces);
    let date = seconds_of(date_parts);
    let time = one_after_other(pieces);
    assert(crate::panel::text_items(date).push(ItemModel::Rule) =~= below(date)
        + seq![ItemModel::Rule]);
    assert(crate::panel::text_items(time) =~= below(time));
    assert(Seq::<ItemModel>::empty() + below(time) =~= below(time));
}

/// Where there is no data for what is wanted, nothing is shown.
pub proof fn lemma_column_without_data(
    s: SettingsModel,
    locale: Seq<char>,
    now: CivilTime,
    cycle: Cycle,
    precision: Precision,
    day: Day,
    clock: Clock,
)
    requires
        valid_time(now),
        shows(day, clock, now),
        suits(cycle, precision, s),
    ensures
        column_shown(s, locale, now, None) is None <==> icu_time(
            locale,
            cycle,
            precision,
            clock,
        ) is None || (s.show_date_in_top_panel && icu_month_day(locale, day) is None),
{
    lemma_taken_over(now, day, clock);
}

// ── Seconds ────────────────────────────────────────────────────────

/// A piece of a format: a character that is shown as it is, or a specifier by what stands
/// behind its percent sign.
pub enum FormatPiece {
    Plain(char),
    Specifier(char),
}

/// The format that is made of pieces.
pub open spec fn format_text(pieces: Seq<FormatPiece>) -> Seq<char>
    decreases pieces.len(),
{
    if pieces.len() == 0 {
        Seq::empty()
    } else {
        (match pieces[0] {
            FormatPiece::Plain(c) => seq![c],
            FormatPiece::Specifier(c) => seq!['%', c],
        }) + format_text(pieces.skip(1))
    }
}

/// Whether a piece shows seconds: one of `%S`, `%T`, `%+` and `%s`.
pub open spec fn shows_seconds_itself(piece: FormatPiece) -> bool {
    match piece {
        FormatPiece::Plain(_) => false,
        FormatPiece::Specifier(c) => seq!['S', 'T', '+', 's'].contains(c),
    }
}

/// A format asks for seconds if and only if one of its specifiers shows them.
pub proof fn lemma_format_asks_for_seconds(pieces: Seq<FormatPiece>)
    requires
        forall|i: int| 0 <= i < pieces.len() ==> #[trigger] pieces[i] != FormatPiece::Plain('%'),
    ensures
        asks_for_seconds(format_text(pieces)) <==> exists|i: int|
            0 <= i < pieces.len() && shows_seconds_itself(#[trigger] pieces[i]),
    decreases pieces.len(),
{
    if pieces.len() > 0 {
        let all = format_text(pieces);
        let rest = pieces.skip(1);
        assert forall|i: int| 0 <= i < rest.len() implies #[trigger] rest[i] != FormatPiece::Plain(
            '%',
        ) by {
            assert(rest[i] == pieces[i + 1]);
        }
        lemma_format_asks_for_seconds(rest);
        let tail = format_text(rest);
        assert(pieces[0] != FormatPiece::Plain('%'));
        let marks = seq!['S', 'T', '+', 's'];
        assert forall|c: char| marks.contains(c) <==> (c == 'S' || c == 'T' || c == '+' || c
            == 's') by {
            assert(marks[0] == 'S' && marks[1] == 'T' && marks[2] == '+' && marks[3] == 's');
        }
        match pieces[0] {
            FormatPiece::Plain(c) => {
                assert(all[0] == c);
                assert(all.skip(1) =~= tail);
                if all.len() < 2 {
                    assert(tail.len() == 0);
                }
            },
            FormatPiece::Specifier(c) => {
                assert(all[0] == '%' && all[1] == c);
                assert(all.skip(2) =~= tail);
            },
        }
        let any = exists|i: int| 0 <= i < pieces.len() && shows_seconds_itself(#[trigger] pieces[i]);
        let later = exists|i: int| 0 <= i < rest.len() && shows_seconds_itself(#[trigger] rest[i]);
        if any {
            let i = choose|i: int|
                0 <= i < pieces.len() && shows_seconds_itself(#[trigger] pieces[i]);
            if i > 0 {
                assert(rest[i - 1] == pieces[i]);
                assert(later);
            }
        }
        if later {
            let i = choose|i: int| 0 <= i < rest.len() && shows_seconds_itself(#[trigger] rest[i]);
            assert(pieces[i + 1] == rest[i]);
            assert(any);
        }
    }
}

/// Without a format of the user's own, the clock ticks every second if and only if the seconds
/// are switched on; with one that shows seconds it does, whatever the setting.
pub proof fn lemma_ticks(pieces: Seq<FormatPiece>, setting: bool, before: bool, k: int)
    requires
        forall|i: int| 0 <= i < pieces.len() ==> #[trigger] pieces[i] != FormatPiece::Plain('%'),
        0 <= k < pieces.len(),
        shows_seconds_itself(pieces[k]),
    ensures
        ticks_seconds(format_text(pieces), setting, before),
        ticks_seconds(Seq::empty(), setting, before) == setting,
{
    lemma_format_asks_for_seconds(pieces);
}

// ── The locale ─────────────────────────────────────────────────────

/// A value such as `de_AT.UTF-8` names the language and the country before its dot, with a
/// hyphen between.
pub proof fn lemma_locale_of_value(parts: Seq<Seq<char>>, encoding: Seq<char>)
    requires
        parts.len() > 0,
        none_holds(parts, '.'),
        none_holds(parts, '_'),
        none_holds(parts, '-'),
    ensures
        locale_name(joined_by(parts, '_') + seq!['.'] + encoding) == joined_by(parts, '-'),
        locale_name(joined_by(parts, '_')) == joined_by(parts, '-'),
        crate::text::split(joined_by(parts, '-'), '-')[0] == parts[0],
{
    let front = joined_by(parts, '_');
    lemma_joined_holds(parts, '_', '.');
    lemma_split_first(front, '.', encoding);
    lemma_split_one(front, '.');
    lemma_hyphens(parts);
    lemma_split_joined(parts, '-');
}

proof fn lemma_joined_holds(parts: Seq<Seq<char>>, c: char, x: char)
    requires
        none_holds(parts, x),
        c != x,
    ensures
        !joined_by(parts, c).contains(x),
    decreases parts.len(),
{
    if parts.len() > 0 {
        assert(!parts[0].contains(x));
        if parts.len() > 1 {
            let rest = parts.skip(1);
            assert forall|i: int| 0 <= i < rest.len() implies !(#[trigger] rest[i]).contains(x) by {
                assert(rest[i] == parts[i + 1]);
            }
            lemma_joined_holds(rest, c, x);
            let all = joined_by(parts, c);
            let tail = joined_by(rest, c);
            assert forall|i: int| 0 <= i < all.len() implies all[i] != x by {
                if i < parts[0].len() {
                    assert(all[i] == parts[0][i]);
                } else if i > parts[0].len() {
                    assert(all[i] == tail[i - parts[0].len() - 1]);
                }
            }
        }
    }
}

proof fn lemma_hyphens(parts: Seq<Seq<char>>)
    requires
        none_holds(parts, '_'),
    ensures
        crate::clock::hyphenated(joined_by(parts, '_')) == joined_by(parts, '-'),
    decreases parts.len(),
{
    let all = joined_by(parts, '_');
    if parts.len() == 0 {
        assert(crate::clock::hyphenated(all) =~= joined_by(parts, '-'));
    } else {
        assert(!parts[0].contains('_'));
        assert forall|i: int| 0 <= i < parts[0].len() implies parts[0][i] != '_' by {
            assert(parts[0].contains(parts[0][i]));
        }
        if parts.len() > 1 {
            let rest = parts.skip(1);
            assert forall|i: int| 0 <= i < rest.len() implies !(#[trigger] rest[i]).contains(
                '_',
            ) by {
                assert(rest[i] == parts[i + 1]);
            }
            lemma_hyphens(rest);
            assert(joined_by(parts, '-') == parts[0] + seq!['-'] + joined_by(rest, '-'));
            assert(joined_by(rest, '-') == crate::clock::hyphenated(joined_by(rest, '_')));
        }
        assert(crate::clock::hyphenated(all) =~= joined_by(parts, '-'));
    }
}

/// Whether a variable names no locale that can be read, neither with its country nor without.
pub open spec fn names_none(value: Option<String>) -> bool {
    match value {
        Some(value) => {
            &&& icu_locale(locale_name(value@)) is None
            &&& icu_locale(crate::text::split(locale_name(value@), '-')[0]) is None
        },
        None => true,
    }
}

proof fn lemma_none_read(values: Seq<Option<String>>, more: Seq<Option<Seq<char>>>)
    requires
        forall|i: int| 0 <= i < values.len() ==> names_none(#[trigger] values[i]),
    ensures
        first_read(tried_locales(values) + more) == first_read(more),
    decreases values.len(),
{
    let none = Seq::<Option<Seq<char>>>::empty();
    if values.len() == 0 {
        assert(none + more =~= more);
    } else {
        let front = values.drop_last();
        assert forall|i: int| 0 <= i < front.len() implies names_none(#[trigger] front[i]) by {
            assert(front[i] == values[i]);
        }
        assert(names_none(values[values.len() - 1]));
        match values.last() {
            Some(value) => {
                let a = icu_locale(locale_name(value@));
                let b = icu_locale(crate::text::split(locale_name(value@), '-')[0]);
                let two = seq![a, b];
                lemma_none_read(front, two + more);
                assert(tried_locales(values) + more =~= tried_locales(front) + (two + more));
                assert((two + more).skip(1) =~= seq![b] + more);
                assert((seq![b] + more).skip(1) =~= more);
                assert((two + more)[0] == a);
                assert((seq![b] + more)[0] == b);
                assert(first_read(seq![b] + more) == first_read(more));
                assert(first_read(two + more) == first_read(seq![b] + more));
            },
            None => {
                lemma_none_read(front, more);
                assert(tried_locales(front) + none =~= tried_locales(front));
                assert(tried_locales(values) == tried_locales(front));
            },
        }
    }
}

proof fn lemma_tried_concat(a: Seq<Option<String>>, b: Seq<Option<String>>)
    ensures
        tried_locales(a + b) == tried_locales(a) + tried_locales(b),
    decreases b.len(),
{
    if b.len() == 0 {
        assert(a + b =~= a);
        assert(tried_locales(a + b) =~= tried_locales(a) + tried_locales(b));
    } else {
        assert((a + b).drop_last() =~= a + b.drop_last());
        lemma_tried_concat(a, b.drop_last());
        assert(tried_locales(a + b) =~= tried_locales(a) + tried_locales(b));
    }
}

/// The first variable that names a locale decides: on the one with the country, if that can
/// be read, and else on the language alone. The variables behind it do not matter.
pub proof fn lemma_first_variable_decides(values: Seq<Option<String>>, k: int)
    requires
        0 <= k < values.len(),
        forall|i: int| 0 <= i < k ==> names_none(#[trigger] values[i]),
        !names_none(values[k]),
    ensures
        match icu_locale(locale_name(values[k]->0@)) {
            Some(locale) => first_read(tried_locales(values)) == locale,
            None => Some(first_read(tried_locales(values))) == icu_locale(
                crate::text::split(locale_name(values[k]->0@), '-')[0],
            ),
        },
{
    let front = values.take(k);
    let back = values.skip(k);
    assert(front + back =~= values);
    lemma_tried_concat(front, back);
    assert forall|i: int| 0 <= i < front.len() implies names_none(#[trigger] front[i]) by {
        assert(front[i] == values[i]);
    }
    lemma_none_read(front, tried_locales(back));
    let one = seq![values[k]];
    assert(back =~= one + values.skip(k + 1));
    lemma_tried_concat(one, values.skip(k + 1));
    assert(one.drop_last() =~= Seq::<Option<String>>::empty());
    let value = values[k]->0;
    let a = icu_locale(locale_name(value@));
    let b = icu_locale(crate::text::split(locale_name(value@), '-')[0]);
    assert(values[k] is Some);
    assert(one.last() == Some(value));
    assert(tried_locales(one.drop_last()) =~= Seq::<Option<Seq<char>>>::empty());
    assert(tried_locales(one) =~= seq![a, b]);
    let all = tried_locales(back);
    assert(all[0] == a);
    assert(all.skip(1)[0] == b);
    if a is None {
        assert(first_read(all) == first_read(all.skip(1)));
        assert(first_read(all.skip(1)) == b->0);
    }
}

/// Where no variable names a locale, it is American English.
pub proof fn lemma_no_variable_decides(values: Seq<Option<String>>)
    requires
        forall|i: int| 0 <= i < values.len() ==> names_none(#[trigger] values[i]),
    ensures
        first_read(tried_locales(values)) == "en-US"@,
{
    let none = Seq::<Option<Seq<char>>>::empty();
    lemma_none_read(values, none);
    assert(tried_locales(values) + none =~= tried_locales(values));
}

} // verus!
