//! Recurrence rules: reading the text of an `RRULE`.

use crate::datetime::{parse_ics_datetime, written_time};
use crate::text::{
    chars_of, index_or_len, is_word, parse_signed, parse_unsigned, pieces_view, position_of,
    signed_value, split, split_at_char, text_of, trim, trimmed, unsigned_value, within,
};
use crate::time::{date_view, utc_moment, CivilDate, Date, Weekday};
use vstd::prelude::*;
use vstd::slice::slice_subrange;

verus! {

/// How often a rule recurs.
#[derive(Clone, Copy, Debug, PartialEq, Eq, Structural)]
pub enum RRuleFreq {
    Daily,
    Weekly,
    Monthly,
    Yearly,
}

/// A weekday, and which one of a month it is where that is said.
pub type ByDay = (Option<i8>, Weekday);

/// What a rule says.
pub struct RuleModel {
    pub freq: Option<RRuleFreq>,
    pub interval: i32,
    pub count: Option<i32>,
    pub until: Option<CivilDate>,
    pub by_day: Seq<ByDay>,
    pub by_month: Seq<u8>,
    pub by_monthday: Seq<i8>,
}

/// A rule that says nothing.
pub open spec fn blank_rule() -> RuleModel {
    RuleModel {
        freq: None,
        interval: 1,
        count: None,
        until: None,
        by_day: Seq::empty(),
        by_month: Seq::empty(),
        by_monthday: Seq::empty(),
    }
}

pub open spec fn frequency(v: Seq<char>) -> Option<RRuleFreq> {
    if v == "DAILY"@ {
        Some(RRuleFreq::Daily)
    } else if v == "WEEKLY"@ {
        Some(RRuleFreq::Weekly)
    } else if v == "MONTHLY"@ {
        Some(RRuleFreq::Monthly)
    } else if v == "YEARLY"@ {
        Some(RRuleFreq::Yearly)
    } else {
        None
    }
}

pub open spec fn weekday_named(v: Seq<char>) -> Option<Weekday> {
    if v == "MO"@ {
        Some(Weekday::Monday)
    } else if v == "TU"@ {
        Some(Weekday::Tuesday)
    } else if v == "WE"@ {
        Some(Weekday::Wednesday)
    } else if v == "TH"@ {
        Some(Weekday::Thursday)
    } else if v == "FR"@ {
        Some(Weekday::Friday)
    } else if v == "SA"@ {
        Some(Weekday::Saturday)
    } else if v == "SU"@ {
        Some(Weekday::Sunday)
    } else {
        None
    }
}

/// The number that `v` writes, if it fits in 8 bits with a sign.
pub open spec fn small_number(v: Seq<char>) -> Option<i8> {
    match within(signed_value(v), i8::MIN as int, i8::MAX as int) {
        Some(n) => Some(n as i8),
        None => None,
    }
}

/// The number that `v` writes, if it fits in 32 bits with a sign.
pub open spec fn number(v: Seq<char>) -> Option<i32> {
    match within(signed_value(v), i32::MIN as int, i32::MAX as int) {
        Some(n) => Some(n as i32),
        None => None,
    }
}

/// A weekday name after an optional number: `MO`, `2TU`, `-1FR`.
pub open spec fn by_day_token(v: Seq<char>) -> Option<ByDay> {
    if v.len() < 2 {
        None
    } else {
        let prefix = v.take(v.len() - 2);
        match weekday_named(v.skip(v.len() - 2)) {
            None => None,
            Some(weekday) => if prefix.len() == 0 {
                Some((None, weekday))
            } else {
                match small_number(prefix) {
                    Some(n) => Some((Some(n), weekday)),
                    None => None,
                }
            },
        }
    }
}

/// A month number.
pub open spec fn month_token(v: Seq<char>) -> Option<u8> {
    match within(unsigned_value(v), 1, 12) {
        Some(n) => Some(n as u8),
        None => None,
    }
}

/// A day of the month, counted from its end where it is negative.
pub open spec fn month_day_token(v: Seq<char>) -> Option<i8> {
    match within(signed_value(v), -31, 31) {
        Some(n) => if n == 0 {
            None
        } else {
            Some(n as i8)
        },
        None => None,
    }
}

/// What the tokens say that can be read, in order; white space around a token does not
/// count.
pub open spec fn readable<T>(tokens: Seq<Seq<char>>, read: spec_fn(Seq<char>) -> Option<T>) -> Seq<T>
    decreases tokens.len(),
{
    if tokens.len() == 0 {
        Seq::empty()
    } else {
        let before = readable(tokens.drop_last(), read);
        match read(trim(tokens.last())) {
            Some(t) => before.push(t),
            None => before,
        }
    }
}

/// The date of an `UNTIL` value.
pub open spec fn until_date(v: Seq<char>) -> Option<CivilDate> {
    match written_time(v) {
        Some(t) => match utc_moment(t) {
            Some(m) => Some(m.local.date),
            None => None,
        },
        None => None,
    }
}

/// The text before the first `=` of a part.
pub open spec fn part_key(part: Seq<char>) -> Seq<char> {
    part.take(index_or_len(part, '='))
}

/// The text after the first `=` of a part.
pub open spec fn part_value(part: Seq<char>) -> Seq<char> {
    if index_or_len(part, '=') < part.len() {
        part.skip(index_or_len(part, '=') + 1)
    } else {
        Seq::empty()
    }
}

/// `rule` with what one more part says. A later frequency, interval, count or limit
/// takes the place of an earlier one, and lists grow.
pub open spec fn with_part(rule: RuleModel, part: Seq<char>) -> RuleModel {
    let key = part_key(part);
    let value = part_value(part);
    if key == "FREQ"@ {
        RuleModel { freq: frequency(value), ..rule }
    } else if key == "INTERVAL"@ {
        RuleModel {
            interval: match number(value) {
                Some(n) => n,
                None => 1,
            },
            ..rule
        }
    } else if key == "COUNT"@ {
        RuleModel { count: number(value), ..rule }
    } else if key == "UNTIL"@ {
        RuleModel {
            until: match until_date(value) {
                Some(d) => Some(d),
                None => rule.until,
            },
            ..rule
        }
    } else if key == "BYDAY"@ {
        RuleModel {
            by_day: rule.by_day + readable(split(value, ','), |v| by_day_token(v)),
            ..rule
        }
    } else if key == "BYMONTH"@ {
        RuleModel {
            by_month: rule.by_month + readable(split(value, ','), |v| month_token(v)),
            ..rule
        }
    } else if key == "BYMONTHDAY"@ {
        RuleModel {
            by_monthday: rule.by_monthday + readable(
                split(value, ','),
                |v| month_day_token(v),
            ),
            ..rule
        }
    } else {
        rule
    }
}

/// What the parts of a rule say together.
pub open spec fn rule_of_parts(parts: Seq<Seq<char>>) -> RuleModel
    decreases parts.len(),
{
    if parts.len() == 0 {
        blank_rule()
    } else {
        with_part(rule_of_parts(parts.drop_last()), parts.last())
    }
}

/// What the text of a rule says; nothing where it gives no frequency.
pub open spec fn rule_of(text: Seq<char>) -> Option<RuleModel> {
    let rule = rule_of_parts(split(text, ';'));
    if rule.freq is Some {
        Some(rule)
    } else {
        None
    }
}

/// A recurrence rule.
#[derive(Debug)]
pub struct ParsedRRule {
    pub freq: RRuleFreq,
    pub interval: i32,
    pub count: Option<i32>,
    pub until: Option<Date>,
    pub by_day: Vec<ByDay>,
    pub by_month: Vec<u8>,
    pub by_monthday: Vec<i8>,
}

impl View for ParsedRRule {
    type V = RuleModel;

    open spec fn view(&self) -> RuleModel {
        RuleModel {
            freq: Some(self.freq),
            interval: self.interval,
            count: self.count,
            until: date_view(self.until),
            by_day: self.by_day@,
            by_month: self.by_month@,
            by_monthday: self.by_monthday@,
        }
    }
}

pub open spec fn rule_view(r: Option<ParsedRRule>) -> Option<RuleModel> {
    match r {
        Some(rule) => Some(rule@),
        None => None,
    }
}

/// A rule while it is read.
struct Draft {
    freq: Option<RRuleFreq>,
    interval: i32,
    count: Option<i32>,
    until: Option<Date>,
    by_day: Vec<ByDay>,
    by_month: Vec<u8>,
    by_monthday: Vec<i8>,
}

spec fn draft_model(d: Draft) -> RuleModel {
    RuleModel {
        freq: d.freq,
        interval: d.interval,
        count: d.count,
        until: date_view(d.until),
        by_day: d.by_day@,
        by_month: d.by_month@,
        by_monthday: d.by_monthday@,
    }
}

fn read_frequency(v: &[char]) -> (r: Option<RRuleFreq>)
    ensures
        r == frequency(v@),
{
    if is_word(v, "DAILY") {
        Some(RRuleFreq::Daily)
    } else if is_word(v, "WEEKLY") {
        Some(RRuleFreq::Weekly)
    } else if is_word(v, "MONTHLY") {
        Some(RRuleFreq::Monthly)
    } else if is_word(v, "YEARLY") {
        Some(RRuleFreq::Yearly)
    } else {
        None
    }
}

fn read_weekday(v: &[char]) -> (r: Option<Weekday>)
    ensures
        r == weekday_named(v@),
{
    if is_word(v, "MO") {
        Some(Weekday::Monday)
    } else if is_word(v, "TU") {
        Some(Weekday::Tuesday)
    } else if is_word(v, "WE") {
        Some(Weekday::Wednesday)
    } else if is_word(v, "TH") {
        Some(Weekday::Thursday)
    } else if is_word(v, "FR") {
        Some(Weekday::Friday)
    } else if is_word(v, "SA") {
        Some(Weekday::Saturday)
    } else if is_word(v, "SU") {
        Some(Weekday::Sunday)
    } else {
        None
    }
}

fn read_number(v: &[char]) -> (r: Option<i32>)
    ensures
        r == number(v@),
{
    match parse_signed(v, i32::MIN as i64, i32::MAX as i64) {
        Some(n) => Some(n as i32),
        None => None,
    }
}

fn read_by_day(v: &[char]) -> (r: Option<ByDay>)
    ensures
        r == by_day_token(v@),
{
    if v.len() < 2 {
        return None;
    }
    let prefix = slice_subrange(v, 0, v.len() - 2);
    let name = slice_subrange(v, v.len() - 2, v.len());
    proof {
        assert(prefix@ == v@.take(v@.len() - 2));
        assert(name@ == v@.skip(v@.len() - 2));
    }
    match read_weekday(name) {
        None => None,
        Some(weekday) => if prefix.len() == 0 {
            Some((None, weekday))
        } else {
            match parse_signed(prefix, i8::MIN as i64, i8::MAX as i64) {
                Some(n) => Some((Some(n as i8), weekday)),
                None => None,
            }
        },
    }
}

fn read_month(v: &[char]) -> (r: Option<u8>)
    ensures
        r == month_token(v@),
{
    match parse_unsigned(v, 255) {
        Some(n) => if 1 <= n && n <= 12 {
            Some(n as u8)
        } else {
            None
        },
        None => None,
    }
}

fn read_month_day(v: &[char]) -> (r: Option<i8>)
    ensures
        r == month_day_token(v@),
{
    match parse_signed(v, i8::MIN as i64, i8::MAX as i64) {
        Some(n) => if -31 <= n && n <= 31 && n != 0 {
            Some(n as i8)
        } else {
            None
        },
        None => None,
    }
}

fn read_by_days(v: &[char], days: &mut Vec<ByDay>)
    ensures
        final(days)@ == old(days)@ + readable(split(v@, ','), |v| by_day_token(v)),
{
    let tokens = split_at_char(v, ',');
    let ghost words = pieces_view(tokens@);
    let ghost start = days@;
    let ghost read = |v: Seq<char>| by_day_token(v);
    let mut i: usize = 0;
    proof {
        assert(words.take(0) =~= Seq::<Seq<char>>::empty());
    }
    while i < tokens.len()
        invariant
            i <= tokens@.len(),
            words == pieces_view(tokens@),
            read == |v: Seq<char>| by_day_token(v),
            days@ =~= start + readable(words.take(i as int), read),
        decreases tokens@.len() - i,
    {
        let ghost before = words.take(i as int);
        let token = trimmed(tokens[i].as_slice());
        if let Some(day) = read_by_day(token) {
            days.push(day);
        }
        i = i + 1;
        proof {
            assert(words.take(i as int).drop_last() =~= before);
        }
    }
    proof {
        assert(words.take(i as int) =~= words);
    }
}

fn read_months(v: &[char], months: &mut Vec<u8>)
    ensures
        final(months)@ == old(months)@ + readable(split(v@, ','), |v| month_token(v)),
{
    let tokens = split_at_char(v, ',');
    let ghost words = pieces_view(tokens@);
    let ghost start = months@;
    let ghost read = |v: Seq<char>| month_token(v);
    let mut i: usize = 0;
    proof {
        assert(words.take(0) =~= Seq::<Seq<char>>::empty());
    }
    while i < tokens.len()
        invariant
            i <= tokens@.len(),
            words == pieces_view(tokens@),
            read == |v: Seq<char>| month_token(v),
            months@ =~= start + readable(words.take(i as int), read),
        decreases tokens@.len() - i,
    {
        let ghost before = words.take(i as int);
        let token = trimmed(tokens[i].as_slice());
        if let Some(month) = read_month(token) {
            months.push(month);
        }
        i = i + 1;
        proof {
            assert(words.take(i as int).drop_last() =~= before);
        }
    }
    proof {
        assert(words.take(i as int) =~= words);
    }
}

fn read_month_days(v: &[char], days: &mut Vec<i8>)
    ensures
        final(days)@ == old(days)@ + readable(split(v@, ','), |v| month_day_token(v)),
{
    let tokens = split_at_char(v, ',');
    let ghost words = pieces_view(tokens@);
    let ghost start = days@;
    let ghost read = |v: Seq<char>| month_day_token(v);
    let mut i: usize = 0;
    proof {
        assert(words.take(0) =~= Seq::<Seq<char>>::empty());
    }
    while i < tokens.len()
        invariant
            i <= tokens@.len(),
            words == pieces_view(tokens@),
            read == |v: Seq<char>| month_day_token(v),
            days@ =~= start + readable(words.take(i as int), read),
        decreases tokens@.len() - i,
    {
        let ghost before = words.take(i as int);
        let token = trimmed(tokens[i].as_slice());
        if let Some(day) = read_month_day(token) {
            days.push(day);
        }
        i = i + 1;
        proof {
            assert(words.take(i as int).drop_last() =~= before);
        }
    }
    proof {
        assert(words.take(i as int) =~= words);
    }
}

fn read_until(v: &[char]) -> (r: Option<Date>)
    ensures
        date_view(r) == until_date(v@),
{
    let text = text_of(v);
    match parse_ics_datetime(text.as_str(), None) {
        Some(zoned) => Some(zoned.date()),
        None => None,
    }
}

fn read_part(draft: &mut Draft, part: &[char])
    ensures
        draft_model(*final(draft)) == with_part(draft_model(*old(draft)), part@),
{
    let end: usize = position_of(part, '=');
    let key = slice_subrange(part, 0, end);
    let from: usize = if end < part.len() {
        end + 1
    } else {
        end
    };
    let value = slice_subrange(part, from, part.len());
    proof {
        assert(key@ =~= part_key(part@));
        assert(value@ =~= part_value(part@));
    }
    if is_word(key, "FREQ") {
        draft.freq = read_frequency(value);
    } else if is_word(key, "INTERVAL") {
        draft.interval = match read_number(value) {
            Some(n) => n,
            None => 1,
        };
    } else if is_word(key, "COUNT") {
        draft.count = read_number(value);
    } else if is_word(key, "UNTIL") {
        if let Some(date) = read_until(value) {
            draft.until = Some(date);
        }
    } else if is_word(key, "BYDAY") {
        read_by_days(value, &mut draft.by_day);
    } else if is_word(key, "BYMONTH") {
        read_months(value, &mut draft.by_month);
    } else if is_word(key, "BYMONTHDAY") {
        read_month_days(value, &mut draft.by_monthday);
    }
}

/// Reads the text of a rule, such as `FREQ=WEEKLY;BYDAY=MO,WE;COUNT=6`.
pub fn parse_rrule_string(rrule: &str) -> (r: Option<ParsedRRule>)
    ensures
        rule_view(r) == rule_of(rrule@),
{
    let cs = chars_of(rrule);
    let parts = split_at_char(&cs, ';');
    let ghost texts = pieces_view(parts@);
    let mut draft = Draft {
        freq: None,
        interval: 1,
        count: None,
        until: None,
        by_day: Vec::new(),
        by_month: Vec::new(),
        by_monthday: Vec::new(),
    };
    proof {
        assert(texts.take(0) =~= Seq::<Seq<char>>::empty());
        assert(draft_model(draft) == blank_rule());
    }
    let mut i: usize = 0;
    while i < parts.len()
        invariant
            i <= parts@.len(),
            texts == pieces_view(parts@),
            draft_model(draft) == rule_of_parts(texts.take(i as int)),
        decreases parts@.len() - i,
    {
        let ghost before = texts.take(i as int);
        read_part(&mut draft, parts[i].as_slice());
        i = i + 1;
        proof {
            assert(texts.take(i as int).drop_last() =~= before);
        }
    }
    proof {
        assert(texts.take(i as int) =~= texts);
    }
    match draft.freq {
        None => None,
        Some(freq) => Some(
            ParsedRRule {
                freq,
                interval: draft.interval,
                count: draft.count,
                until: draft.until,
                by_day: draft.by_day,
                by_month: draft.by_month,
                by_monthday: draft.by_monthday,
            },
        ),
    }
}

} // verus!
