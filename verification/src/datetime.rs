//! Dates and times as iCalendar writes them.

use crate::text::{all_digits, byte_len, chars_of, decimal_value, is_digit};
use crate::time::{
    datetime_view, moment_view, placed, utc_moment, valid_time, CivilDate, CivilTime, Date,
    DateTime, FoundModel, FoundZone, Moment, Zone, ZoneModel, Zoned,
};
use vstd::prelude::*;
use vstd::utf8::{encode_utf8, is_ascii_chars_encode_utf8};

verus! {

/// The local time that `value` writes in a `strftime` format, as
/// `jiff::fmt::strtime` reads it.
pub uninterp spec fn strtime_datetime(format: Seq<char>, value: Seq<char>) -> Option<CivilTime>;

/// The number that the digits of `v` from `from` to `to` stand for.
pub open spec fn digits_between(v: Seq<char>, from: int, to: int) -> int {
    decimal_value(v.subrange(from, to)) as int
}

/// The numbers of eight digits read as year, month and day.
pub open spec fn plain_date(v: Seq<char>) -> CivilTime {
    CivilTime {
        date: CivilDate {
            year: digits_between(v, 0, 4),
            month: digits_between(v, 4, 6),
            day: digits_between(v, 6, 8),
        },
        hour: 0,
        minute: 0,
        second: 0,
        nanosecond: 0,
    }
}

/// The numbers of eight digits, a letter and six digits read as date, hour, minute and
/// second.
pub open spec fn plain_datetime(v: Seq<char>) -> CivilTime {
    CivilTime {
        hour: digits_between(v, 9, 11),
        minute: digits_between(v, 11, 13),
        second: digits_between(v, 13, 15),
        ..plain_date(v)
    }
}

/// Whether `v` has the form `YYYYMMDD`.
pub open spec fn is_plain_date(v: Seq<char>) -> bool {
    v.len() == 8 && all_digits(v)
}

/// Whether `v` has the form `YYYYMMDDTHHMMSS`, with seconds that are no leap second.
pub open spec fn is_plain_datetime(v: Seq<char>) -> bool {
    &&& v.len() == 15
    &&& all_digits(v.subrange(0, 8))
    &&& v[8] == 'T'
    &&& all_digits(v.subrange(9, 15))
    &&& digits_between(v, 13, 15) != 60
}

/// `t` if it is a time.
pub open spec fn if_valid(t: CivilTime) -> Option<CivilTime> {
    if valid_time(t) {
        Some(t)
    } else {
        None
    }
}

pub open spec fn date_format() -> Seq<char> {
    "%Y%m%d"@
}

pub open spec fn utc_format() -> Seq<char> {
    "%Y%m%dT%H%M%SZ"@
}

pub open spec fn local_format() -> Seq<char> {
    "%Y%m%dT%H%M%S"@
}

/// The numbers of a local time: year, month, day, hour, minute, second, nanosecond.
pub type Numbers = (i16, i8, i8, i8, i8, i8, i32);

pub open spec fn time_of(n: Numbers) -> CivilTime {
    CivilTime {
        date: CivilDate { year: n.0 as int, month: n.1 as int, day: n.2 as int },
        hour: n.3 as int,
        minute: n.4 as int,
        second: n.5 as int,
        nanosecond: n.6 as int,
    }
}

pub open spec fn numbers_view(n: Option<Numbers>) -> Option<CivilTime> {
    match n {
        Some(n) => Some(time_of(n)),
        None => None,
    }
}

/// `jiff::fmt::strtime::parse` and `BrokenDownTime::to_datetime`. The result is a
/// function of the two texts, and a time that exists. In the three formats used here, a
/// value made of the right number of digits stands for the numbers that it writes, and
/// is refused where they are no date or time.
#[verifier::external_body]
fn read_strtime(format: &str, value: &str) -> (r: Option<Numbers>)
    requires
        format@ == date_format() || format@ == utc_format() || format@ == local_format(),
    ensures
        numbers_view(r) == strtime_datetime(format@, value@),
        r is Some ==> valid_time(time_of(r->0)),
        format@ == date_format() && is_plain_date(value@) ==> numbers_view(r) == if_valid(
            plain_date(value@),
        ),
        format@ == local_format() && is_plain_datetime(value@) ==> numbers_view(r) == if_valid(
            plain_datetime(value@),
        ),
        format@ == utc_format() && is_plain_utc(value@) ==> numbers_view(r) == if_valid(
            plain_datetime(value@),
        ),
{
    let t = jiff::fmt::strtime::parse(format, value).and_then(|tm| tm.to_datetime()).ok()?;
    let (year, month, day) = (t.year(), t.month(), t.day());
    Some((year, month, day, t.hour(), t.minute(), t.second(), t.subsec_nanosecond()))
}

/// Whether a value is a date without a time: it has eight bytes.
pub open spec fn is_date_value(value: Seq<char>) -> bool {
    encode_utf8(value).len() == 8
}

/// Whether a value says of itself that it is in universal time.
pub open spec fn is_utc_value(value: Seq<char>) -> bool {
    value.len() > 0 && value.last() == 'Z'
}

/// Whether `v` has the form `YYYYMMDDTHHMMSSZ`, with seconds that are no leap second.
pub open spec fn is_plain_utc(v: Seq<char>) -> bool {
    v.len() == 16 && v[15] == 'Z' && is_plain_datetime(v.take(15))
}

/// The local time that an iCalendar value writes. In the three common forms that is what
/// the digits say.
pub open spec fn written_time(value: Seq<char>) -> Option<CivilTime> {
    if is_plain_date(value) {
        if_valid(plain_date(value))
    } else if is_plain_utc(value) || is_plain_datetime(value) {
        if_valid(plain_datetime(value))
    } else if is_date_value(value) {
        strtime_datetime(date_format(), value)
    } else if is_utc_value(value) {
        strtime_datetime(utc_format(), value)
    } else {
        strtime_datetime(local_format(), value)
    }
}

/// The common forms have one byte for each character.
pub proof fn lemma_plain_bytes(v: Seq<char>)
    ensures
        is_plain_date(v) ==> is_date_value(v),
        is_plain_utc(v) || is_plain_datetime(v) ==> !is_date_value(v),
{
    if is_plain_date(v) {
        assert forall|i: int| 0 <= i < v.len() implies '\0' <= #[trigger] v[i] <= '\u{7f}' by {
            assert(is_digit(v[i]));
        }
        is_ascii_chars_encode_utf8(v);
    }
    if is_plain_utc(v) || is_plain_datetime(v) {
        let t = v.take(15);
        assert(is_plain_datetime(v) ==> t =~= v);
        assert forall|i: int| 0 <= i < v.len() implies '\0' <= #[trigger] v[i] <= '\u{7f}' by {
            if i < 8 {
                assert(is_digit(t.subrange(0, 8)[i]));
                assert(v[i] == t.subrange(0, 8)[i]);
            } else if 9 <= i < 15 {
                assert(is_digit(t.subrange(9, 15)[i - 9]));
                assert(v[i] == t.subrange(9, 15)[i - 9]);
            } else if i == 8 {
                assert(v[i] == t[8]);
            }
        }
        is_ascii_chars_encode_utf8(v);
    }
}

/// Whether an iCalendar value is in universal time: a date, a time that ends in `Z` and a time
/// without the name of a zone.
pub open spec fn is_in_utc(value: Seq<char>, tzid: Option<Seq<char>>) -> bool {
    is_date_value(value) || is_utc_value(value) || tzid is None
}

pub open spec fn text_view(s: Option<&str>) -> Option<Seq<char>> {
    match s {
        Some(s) => Some(s@),
        None => None,
    }
}

/// Whether `m` is a moment that a local time can stand for in the zone that was found under
/// a name. There is none where none was found.
pub open spec fn stands_in(t: CivilTime, found: Option<FoundModel>, m: Option<Moment>) -> bool {
    match found {
        Some(zone) => placed(t, ZoneModel::Named(zone), m),
        None => m is None,
    }
}

/// Whether a zone may be found under a name.
pub open spec fn is_found(name: Seq<char>, found: Option<FoundModel>) -> bool {
    found is Some ==> found->0.name == name
}

/// Whether `m` is a moment that an iCalendar value can stand for, given the local time
/// that it writes.
pub open spec fn stands_for(
    local: Option<CivilTime>,
    value: Seq<char>,
    tzid: Option<Seq<char>>,
    m: Option<Moment>,
) -> bool {
    match local {
        None => m is None,
        Some(t) => if is_in_utc(value, tzid) {
            m == utc_moment(t)
        } else {
            exists|found: Option<FoundModel>|
                is_found(tzid->0, found) && #[trigger] stands_in(t, found, m)
        },
    }
}

/// Whether the last character of `value` is `Z`.
fn ends_in_z(value: &str) -> (r: bool)
    ensures
        r == is_utc_value(value@),
{
    let cs = chars_of(value);
    cs.len() > 0 && cs[cs.len() - 1] == 'Z'
}

/// The local time that an iCalendar value writes.
fn read_local(value: &str) -> (r: Option<DateTime>)
    ensures
        datetime_view(r) == written_time(value@),
{
    proof {
        lemma_plain_bytes(value@);
        if is_plain_datetime(value@) {
            assert(is_digit(value@.subrange(9, 15)[5]));
        }
    }
    let format = if byte_len(value) == 8 {
        "%Y%m%d"
    } else if ends_in_z(value) {
        "%Y%m%dT%H%M%SZ"
    } else {
        "%Y%m%dT%H%M%S"
    };
    match read_strtime(format, value) {
        None => None,
        Some((year, month, day, hour, minute, second, nanosecond)) => match Date::new(
            year,
            month,
            day,
        ) {
            None => None,
            Some(date) => Some(date.at(hour, minute, second, nanosecond)),
        },
    }
}

pub open spec fn found_view(found: Option<FoundZone>) -> Option<FoundModel> {
    match found {
        Some(zone) => Some(zone@),
        None => None,
    }
}

/// The moment of a local time in the zone that was found under a name, if one was.
pub fn in_found_zone(local: DateTime, found: Option<FoundZone>) -> (r: Option<Zoned>)
    ensures
        stands_in(local@, found_view(found), moment_view(r)),
{
    match found {
        Some(zone) => local.to_zoned(Zone::Named(zone)),
        None => None,
    }
}

/// The moment that an iCalendar value stands for, given the local time that it writes.
pub fn in_written_zone(local: DateTime, value: &str, tzid: Option<&str>) -> (r: Option<Zoned>)
    ensures
        stands_for(Some(local@), value@, text_view(tzid), moment_view(r)),
{
    if byte_len(value) == 8 || ends_in_z(value) {
        return local.to_zoned(Zone::Utc);
    }
    match tzid {
        Some(name) => {
            let found = FoundZone::find(name.to_owned());
            let ghost f = found_view(found);
            let r = in_found_zone(local, found);
            proof {
                assert(is_found(name@, f));
                assert(stands_in(local@, f, moment_view(r)));
            }
            r
        },
        None => local.to_zoned(Zone::Utc),
    }
}

/// Parse an iCalendar date/datetime value into a [`Zoned`].
///
/// Handles the common formats:
/// - `20241225`           – all-day date
/// - `20241225T100000Z`   – UTC datetime
/// - `20241225T100000`    – with optional TZID param
pub fn parse_ics_datetime(value: &str, tzid: Option<&str>) -> (r: Option<Zoned>)
    ensures
        stands_for(written_time(value@), value@, text_view(tzid), moment_view(r)),
{
    match read_local(value) {
        Some(local) => in_written_zone(local, value, tzid),
        None => None,
    }
}

} // verus!
