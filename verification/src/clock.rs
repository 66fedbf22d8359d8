//! The clock of the panel: how often it ticks, and what it shows.

use crate::text::{
    chars_of, is_space, pieces_view, position_of, space, split, split_at_char, text_of,
};
use crate::component::opt_text;
use crate::time::{
    civil_second, instant, valid_time, CivilTime, MAX_INSTANT, MAX_OFFSET, MIN_INSTANT, Moment,
    Weekday, Zone, ZoneModel, Zoned,
};
use crate::xml::strings_view;
use crate::datetime::{time_of, Numbers};
use jiff::fmt::strtime::BrokenDownTime;
use jiff::tz::{Offset, TimeZone};
use jiff::Timestamp;
use vstd::prelude::*;
use vstd::slice::slice_subrange;

verus! {

// ── Ticks ──────────────────────────────────────────────────────────

/// A number of seconds, counted around where it is negative.
pub open spec fn unsigned_second(second: i64) -> int {
    if second >= 0 {
        second as int
    } else {
        second + 0x1_0000_0000_0000_0000
    }
}

fn to_unsigned(second: i64) -> (r: u64)
    ensures
        r == unsigned_second(second),
{
    if second >= 0 {
        second as u64
    } else {
        (second + 0x7fff_ffff_ffff_ffff + 1) as u64 + 0x8000_0000_0000_0000
    }
}

/// The seconds between two ticks: one where seconds are shown, else a minute.
pub open spec fn period(seconds: bool) -> u64 {
    if seconds {
        1
    } else {
        60
    }
}

/// The seconds between two ticks.
pub fn tick_period(seconds: bool) -> (r: u64)
    ensures
        r == period(seconds),
{
    if seconds {
        1
    } else {
        60
    }
}

/// The seconds from `second` to the next that the period divides.
pub fn seconds_to_next(second: i64, period: u64) -> (r: u64)
    requires
        period > 0,
    ensures
        1 <= r <= period,
        (unsigned_second(second) + r) % (period as int) == 0,
{
    let n: u64 = to_unsigned(second);
    let past: u64 = n % period;
    proof {
        vstd::arithmetic::div_mod::lemma_fundamental_div_mod(n as int, period as int);
        let q = n as int / period as int;
        assert(n + (period - past) == period * q + period);
        assert(period * q + period == (q + 1) * period) by (nonlinear_arith);
        vstd::arithmetic::div_mod::lemma_mod_multiples_basic(q + 1, period as int);
    }
    period - past
}

/// How long to wait after a tick that is off the mark; nothing where it is on it.
pub fn delay_after_tick(second: i64, period: u64) -> (r: Option<u64>)
    requires
        period > 0,
    ensures
        match r {
            Some(delay) => unsigned_second(second) % (period as int) != 0 && 1 <= delay < period
                && (unsigned_second(second) + delay) % (period as int) == 0,
            None => unsigned_second(second) % (period as int) == 0,
        },
{
    let past: u64 = to_unsigned(second) % period;
    if past == 0 {
        None
    } else {
        Some(seconds_to_next_nonzero(second, period))
    }
}

fn seconds_to_next_nonzero(second: i64, period: u64) -> (r: u64)
    requires
        period > 0,
        unsigned_second(second) % (period as int) != 0,
    ensures
        1 <= r < period,
        (unsigned_second(second) + r) % (period as int) == 0,
{
    let r: u64 = seconds_to_next(second, period);
    proof {
        if r == period {
            vstd::arithmetic::div_mod::lemma_mod_add_multiples_vanish(
                unsigned_second(second),
                period as int,
            );
        }
    }
    r
}

/// How long to wait for the first tick after the period was changed: one second where
/// seconds are shown, else until the next minute.
pub fn first_delay(seconds: bool, second: i64) -> (r: u64)
    ensures
        if seconds {
            r == 1
        } else {
            1 <= r <= 60 && (unsigned_second(second) + r) % 60 == 0
        },
{
    if seconds {
        1
    } else {
        seconds_to_next(second, 60)
    }
}

/// The seconds between two syncs: at least a minute.
pub fn sync_period(minutes: u64) -> (r: u64)
    requires
        minutes <= u64::MAX / 60,
    ensures
        r == 60 * (if minutes >= 1 {
            minutes as int
        } else {
            1
        }),
{
    if minutes >= 1 {
        minutes * 60
    } else {
        60
    }
}

// ── Formats ────────────────────────────────────────────────────────

/// Whether a character behind a percent sign asks for seconds.
pub open spec fn is_seconds_specifier(c: char) -> bool {
    c == 'S' || c == 'T' || c == '+' || c == 's'
}

/// Whether a format asks for seconds: one of its specifiers, each a percent sign and what
/// stands right behind it, does. A percent sign behind another is no start of a specifier.
pub open spec fn asks_for_seconds(format: Seq<char>) -> bool
    decreases format.len(),
{
    if format.len() < 2 {
        false
    } else if format[0] == '%' {
        is_seconds_specifier(format[1]) || asks_for_seconds(format.skip(2))
    } else {
        asks_for_seconds(format.skip(1))
    }
}

/// Whether a `strftime` format asks for seconds.
pub fn format_has_seconds(format: &str) -> (r: bool)
    ensures
        r == asks_for_seconds(format@),
{
    let cs = chars_of(format);
    let mut i: usize = 0;
    proof {
        assert(cs@.skip(0) =~= cs@);
    }
    while i < cs.len() && cs.len() - i >= 2
        invariant
            i <= cs@.len(),
            cs@ == format@,
            asks_for_seconds(format@) == asks_for_seconds(cs@.skip(i as int)),
        decreases cs@.len() - i,
    {
        let ghost rest = cs@.skip(i as int);
        proof {
            assert(rest[0] == cs@[i as int] && rest[1] == cs@[i + 1]);
            assert(rest.skip(1) =~= cs@.skip(i + 1));
            assert(rest.skip(2) =~= cs@.skip(i + 2));
        }
        if cs[i] == '%' {
            let c = cs[i + 1];
            if c == 'S' || c == 'T' || c == '+' || c == 's' {
                return true;
            }
            i = i + 2;
        } else {
            i = i + 1;
        }
    }
    false
}

/// Whether the clock ticks every second, given the user's settings and whether it did. A
/// format of the user's own that asks for seconds makes it tick; without a format the
/// setting decides.
pub open spec fn ticks_seconds(format: Seq<char>, setting: bool, before: bool) -> bool {
    if format.len() > 0 {
        before || asks_for_seconds(format)
    } else {
        setting
    }
}

/// Whether the clock ticks every second.
pub fn shows_seconds(format: &str, setting: bool, before: bool) -> (r: bool)
    ensures
        r == ticks_seconds(format@, setting, before),
{
    if !format.is_empty() {
        before || format_has_seconds(format)
    } else {
        setting
    }
}

/// The text of a `strftime` format, if the format is valid, for a moment at a second, with the
/// local time that its clock shows, and with the abbreviation and the name of its zone.
pub uninterp spec fn strtime_shown(
    format: Seq<char>,
    second: int,
    local: CivilTime,
    abbreviation: Seq<char>,
    name: Option<Seq<char>>,
) -> Option<Seq<char>>;

/// Whether a text is what a valid format shows of a moment at a second with a local time, in a
/// zone that is called something.
pub open spec fn is_strtime(
    format: Seq<char>,
    second: int,
    local: CivilTime,
    text: Option<Seq<char>>,
) -> bool {
    exists|abbreviation: Seq<char>, name: Option<Seq<char>>|
        text == #[trigger] strtime_shown(format, second, local, abbreviation, name)
}

/// `jiff::fmt::strtime::BrokenDownTime::to_string`: the time as a `strftime` format shows it; an
/// error is none. What is shown comes from the local time, the second and the offset between
/// them, all of which are given; only the abbreviation of the zone and its name come from the
/// zone. Universal time is called `UTC` in both ways. What another zone is called is up to the
/// time zone database.
#[verifier::external_body]
fn format_moment(format: &str, second: i64, local: Numbers, offset: i32, zone: &Zone) -> (r: Option<
    String,
>)
    requires
        MIN_INSTANT <= second <= MAX_INSTANT,
        valid_time(time_of(local)),
        -MAX_OFFSET <= offset <= MAX_OFFSET,
        second == civil_second(time_of(local)) - offset,
    ensures
        zone@ == ZoneModel::Utc ==> opt_text(r) == strtime_shown(
            format@,
            second as int,
            time_of(local),
            "UTC"@,
            Some("UTC"@),
        ),
        zone@ != ZoneModel::Utc ==> is_strtime(
            format@,
            second as int,
            time_of(local),
            opt_text(r),
        ),
{
    let tz = match zone {
        Zone::Utc => TimeZone::UTC,
        Zone::System => TimeZone::system(),
        Zone::Named(found) => found.zone.clone(),
    };
    let mut t = BrokenDownTime::from(&Timestamp::new(second, local.6).unwrap().to_zoned(tz));
    t.set_offset(Offset::from_seconds(offset).ok());
    t.set_meridiem(None);
    let _ = [
        t.set_year(Some(local.0)), t.set_month(Some(local.1)), t.set_day(Some(local.2)),
        t.set_hour(Some(local.3)), t.set_minute(Some(local.4)), t.set_second(Some(local.5)),
    ];
    t.to_string(format).ok()
}

/// Whether a text is what a `strftime` format may show of a moment: nothing without a format,
/// else the text that it gives for the second, the local time and what the zone is called.
pub open spec fn is_strftime(format: Seq<char>, now: Moment, text: Option<Seq<char>>) -> bool {
    if format.len() == 0 {
        text is None
    } else if now.zone == ZoneModel::Utc {
        text == strtime_shown(format, instant(now), now.local, "UTC"@, Some("UTC"@))
    } else {
        is_strtime(format, instant(now), now.local, text)
    }
}

/// Format with strftime if non-empty and ignore errors.
pub fn maybe_strftime(format: &str, now: &Zoned) -> (r: Option<String>)
    ensures
        is_strftime(format@, now@, opt_text(r)),
{
    if format.is_empty() {
        return None;
    }
    let second: i64 = now.unix_second();
    let d = now.date();
    let local: Numbers = (
        d.year(),
        d.month(),
        d.day(),
        now.hour(),
        now.minute(),
        now.second(),
        now.subsec_nanosecond(),
    );
    let offset: i32 = now.offset();
    let zone = now.zone();
    proof {
        assert(time_of(local) == now@.local);
    }
    format_moment(format, second, local, offset, &zone)
}

// ── Pieces of text ─────────────────────────────────────────────────

/// The words of a text: its longest pieces without white space.
pub open spec fn words(s: Seq<char>) -> Seq<Seq<char>>
    decreases s.len(),
{
    if s.len() == 0 {
        Seq::empty()
    } else if is_space(s[0]) {
        words(s.skip(1))
    } else {
        let n = word_length(s);
        if 0 < n <= s.len() {
            seq![s.take(n)] + words(s.skip(n))
        } else {
            Seq::empty()
        }
    }
}

/// How many characters stand before the first white space.
pub open spec fn word_length(s: Seq<char>) -> int
    decreases s.len(),
{
    if s.len() == 0 || is_space(s[0]) {
        0
    } else {
        1 + word_length(s.skip(1))
    }
}

pub(crate) proof fn lemma_word_length(s: Seq<char>, n: int)
    requires
        0 <= n <= s.len(),
        forall|i: int| 0 <= i < n ==> !is_space(#[trigger] s[i]),
        n < s.len() ==> is_space(s[n]),
    ensures
        word_length(s) == n,
    decreases s.len(),
{
    if n > 0 {
        let rest = s.skip(1);
        assert(!is_space(s[0]));
        assert forall|i: int| 0 <= i < n - 1 implies !is_space(#[trigger] rest[i]) by {
            assert(rest[i] == s[i + 1]);
        }
        lemma_word_length(rest, n - 1);
    }
}

/// The words of a text.
pub fn split_words(s: &str) -> (r: Vec<String>)
    ensures
        strings_view(r@) == words(s@),
{
    let cs = chars_of(s);
    let mut r: Vec<String> = Vec::new();
    let mut i: usize = 0;
    proof {
        assert(s@.skip(0) =~= s@);
        assert(strings_view(r@) + words(s@) =~= words(s@));
    }
    while i < cs.len()
        invariant
            i <= cs@.len(),
            cs@ == s@,
            words(s@) == strings_view(r@) + words(s@.skip(i as int)),
        decreases cs@.len() - i,
    {
        let ghost rest = s@.skip(i as int);
        proof {
            assert(rest[0] == cs@[i as int]);
        }
        if space(cs[i]) {
            proof {
                assert(rest.skip(1) =~= s@.skip(i + 1));
            }
            i = i + 1;
        } else {
            let mut end: usize = i;
            while end < cs.len() && !space(cs[end])
                invariant
                    i <= end <= cs@.len(),
                    cs@ == s@,
                    rest == s@.skip(i as int),
                    forall|j: int| 0 <= j < end - i ==> !is_space(#[trigger] rest[j]),
                decreases cs@.len() - end,
            {
                assert(rest[end - i] == cs@[end as int]);
                end = end + 1;
            }
            let ghost before = strings_view(r@);
            let word = slice_subrange(cs.as_slice(), i, end);
            proof {
                if end < cs@.len() {
                    assert(rest[end - i] == cs@[end as int]);
                }
                lemma_word_length(rest, end - i);
                assert(!is_space(rest[0]));
                assert(word@ =~= rest.take(end - i));
                assert(rest.skip(end - i) =~= s@.skip(end as int));
            }
            r.push(text_of(word));
            proof {
                assert(strings_view(r@) =~= before.push(word@));
                assert(before + (seq![word@] + words(s@.skip(end as int))) =~= strings_view(r@)
                    + words(s@.skip(end as int)));
                assert(end > i) by {
                    if end == i {
                        assert(word_length(rest) == 0);
                    }
                }
            }
            i = end;
        }
    }
    proof {
        assert(strings_view(r@) + Seq::<Seq<char>>::empty() =~= strings_view(r@));
    }
    r
}

/// The pieces of the words between colons, as they stand below each other in a narrow
/// panel.
pub open spec fn clock_pieces(words: Seq<Seq<char>>) -> Seq<Seq<char>>
    decreases words.len(),
{
    if words.len() == 0 {
        Seq::empty()
    } else {
        clock_pieces(words.drop_last()) + split(words.last(), ':')
    }
}

/// The pieces of a time that stand below each other.
pub fn split_clock(s: &str) -> (r: Vec<String>)
    ensures
        strings_view(r@) == clock_pieces(words(s@)),
{
    let parts = split_words(s);
    let ghost all = strings_view(parts@);
    let mut r: Vec<String> = Vec::new();
    let mut i: usize = 0;
    proof {
        assert(all.take(0) =~= Seq::<Seq<char>>::empty());
        assert(strings_view(r@) =~= Seq::<Seq<char>>::empty());
    }
    while i < parts.len()
        invariant
            i <= parts@.len(),
            all == strings_view(parts@),
            strings_view(r@) == clock_pieces(all.take(i as int)),
        decreases parts@.len() - i,
    {
        let ghost before = strings_view(r@);
        let cs = chars_of(parts[i].as_str());
        let pieces = split_at_char(&cs, ':');
        let ghost these = pieces_view(pieces@);
        proof {
            assert(all.take(i + 1).drop_last() =~= all.take(i as int));
            assert(all.take(i + 1).last() == parts@[i as int]@);
            assert(before + these.take(0) =~= before);
        }
        let mut k: usize = 0;
        while k < pieces.len()
            invariant
                k <= pieces@.len(),
                these == pieces_view(pieces@),
                strings_view(r@) == before + these.take(k as int),
            decreases pieces@.len() - k,
        {
            let ghost now = strings_view(r@);
            r.push(text_of(pieces[k].as_slice()));
            proof {
                assert(these[k as int] == pieces@[k as int]@);
                assert(strings_view(r@) =~= now.push(these[k as int]));
                assert(before + these.take(k + 1) =~= (before + these.take(k as int)).push(
                    these[k as int],
                ));
            }
            k = k + 1;
        }
        proof {
            assert(these.take(k as int) =~= these);
        }
        i = i + 1;
    }
    proof {
        assert(all.take(i as int) =~= all);
    }
    r
}

// ── Locales ────────────────────────────────────────────────────────

/// A text with hyphens in place of underscores.
pub open spec fn hyphenated(s: Seq<char>) -> Seq<char> {
    s.map_values(
        |c: char|
            if c == '_' {
                '-'
            } else {
                c
            },
    )
}

/// The locale that a variable such as `LANG` names: what stands before the first dot.
pub open spec fn locale_name(value: Seq<char>) -> Seq<char> {
    hyphenated(split(value, '.')[0])
}

/// The locales to try for a variable such as `LANG`, in this order: the one that it names,
/// and the language of that one alone.
pub fn locale_candidates(value: &str) -> (r: (String, String))
    ensures
        r.0@ == locale_name(value@),
        r.1@ == split(locale_name(value@), '-')[0],
{
    let cs = chars_of(value);
    let end: usize = position_of(&cs, '.');
    let front = slice_subrange(cs.as_slice(), 0, end);
    proof {
        lemma_first_piece(cs@, '.');
        assert(front@ =~= cs@.take(end as int));
    }
    let mut name: Vec<char> = Vec::new();
    let mut i: usize = 0;
    while i < front.len()
        invariant
            i <= front@.len(),
            name@ == hyphenated(front@).take(i as int),
        decreases front@.len() - i,
    {
        let c = front[i];
        name.push(
            if c == '_' {
                '-'
            } else {
                c
            },
        );
        i = i + 1;
        proof {
            assert(hyphenated(front@).take(i as int) =~= hyphenated(front@).take(i - 1).push(
                hyphenated(front@)[i - 1],
            ));
        }
    }
    proof {
        assert(hyphenated(front@).take(i as int) =~= hyphenated(front@));
        lemma_first_piece(name@, '-');
    }
    let stop: usize = position_of(&name, '-');
    let language = slice_subrange(name.as_slice(), 0, stop);
    proof {
        assert(language@ =~= name@.take(stop as int));
    }
    (text_of(&name), text_of(language))
}

proof fn lemma_first_piece(s: Seq<char>, c: char)
    ensures
        split(s, c).len() > 0,
        split(s, c)[0] == s.take(crate::text::index_or_len(s, c)),
{
    crate::text::lemma_index_or_len(s, c);
    let n = crate::text::index_or_len(s, c);
    if n == s.len() {
        assert(s.take(n) =~= s);
    }
}

/// The weekday that a setting stands for: 0 is Monday, and what is none is Sunday.
pub open spec fn weekday_setting(n: u8) -> Weekday {
    if n == 0 {
        Weekday::Monday
    } else if n == 1 {
        Weekday::Tuesday
    } else if n == 2 {
        Weekday::Wednesday
    } else if n == 3 {
        Weekday::Thursday
    } else if n == 4 {
        Weekday::Friday
    } else if n == 5 {
        Weekday::Saturday
    } else {
        Weekday::Sunday
    }
}

/// The first day of the week that a setting stands for.
pub fn first_weekday(n: u8) -> (r: Weekday)
    ensures
        r == weekday_setting(n),
{
    if n == 0 {
        Weekday::Monday
    } else if n == 1 {
        Weekday::Tuesday
    } else if n == 2 {
        Weekday::Wednesday
    } else if n == 3 {
        Weekday::Thursday
    } else if n == 4 {
        Weekday::Friday
    } else if n == 5 {
        Weekday::Saturday
    } else {
        Weekday::Sunday
    }
}

} // verus!
