//! What the user types: times of day, colors, dates and the times of an event.

use crate::cache::{date_in_text, string_to_date};
use crate::text::{
    chars_of, parse_signed, pieces_view, signed_value, split, split_at_char, strip_start, trim,
    trimmed, within, without_start,
};
use crate::time::{
    moment_view, placed, step_target, CivilDate, CivilTime, Date, Moment, Step, Zone, ZoneModel,
    Zoned,
};
use vstd::prelude::*;
use vstd::utf8::encode_utf8;

verus! {

// ── Times of day ───────────────────────────────────────────────────

/// The hour and minute that a text writes: two numbers with a colon between. What follows
/// a second colon does not count.
pub open spec fn hour_and_minute(s: Seq<char>) -> Option<(int, int)> {
    let parts = split(s, ':');
    if parts.len() < 2 {
        None
    } else {
        match (within(signed_value(trim(parts[0])), 0, 23), within(
            signed_value(trim(parts[1])),
            0,
            59,
        )) {
            (Some(h), Some(m)) => Some((h, m)),
            _ => None,
        }
    }
}

pub open spec fn hhmm_view(r: Option<(i8, i8)>) -> Option<(int, int)> {
    match r {
        Some((h, m)) => Some((h as int, m as int)),
        None => None,
    }
}

/// Parse a "HH:MM" string into (hour, minute).
pub fn parse_hhmm(s: &str) -> (r: Option<(i8, i8)>)
    ensures
        hhmm_view(r) == hour_and_minute(s@),
        match r {
            Some((h, m)) => 0 <= h <= 23 && 0 <= m <= 59,
            None => true,
        },
{
    let cs = chars_of(s);
    let parts = split_at_char(&cs, ':');
    proof {
        assert(pieces_view(parts@).len() == parts@.len());
    }
    if parts.len() < 2 {
        return None;
    }
    proof {
        assert(pieces_view(parts@)[0] == parts@[0]@);
        assert(pieces_view(parts@)[1] == parts@[1]@);
    }
    let h = parse_signed(trimmed(parts[0].as_slice()), i8::MIN as i64, i8::MAX as i64);
    let m = parse_signed(trimmed(parts[1].as_slice()), i8::MIN as i64, i8::MAX as i64);
    match (h, m) {
        (Some(h), Some(m)) => if 0 <= h && h < 24 && 0 <= m && m < 60 {
            Some((h as i8, m as i8))
        } else {
            None
        },
        _ => None,
    }
}

// ── Colors ─────────────────────────────────────────────────────────

/// The value of a hexadecimal digit.
pub open spec fn hex_digit(b: u8) -> Option<int> {
    if 48 <= b <= 57 {
        Some(b - 48)
    } else if 65 <= b <= 70 {
        Some(b - 55)
    } else if 97 <= b <= 102 {
        Some(b - 87)
    } else {
        None
    }
}

/// The number that two bytes write in hexadecimal; a plus sign may stand first.
pub open spec fn hex_pair(a: u8, b: u8) -> Option<int> {
    match (hex_digit(a), hex_digit(b)) {
        (Some(x), Some(y)) => Some(16 * x + y),
        (None, Some(y)) => if a == 43 {
            Some(y)
        } else {
            None
        },
        _ => None,
    }
}

/// One part of a color; the middle value where it is not written.
pub open spec fn color_part(bytes: Seq<u8>, at: int) -> int {
    match hex_pair(bytes[at], bytes[at + 1]) {
        Some(n) => n,
        None => 128,
    }
}

/// The red, green and blue of a color such as `#0078D4`; grey where the text is too short.
pub open spec fn color_parts(s: Seq<char>) -> (int, int, int) {
    let bytes = encode_utf8(strip_start(s, '#'));
    if bytes.len() >= 6 {
        (color_part(bytes, 0), color_part(bytes, 2), color_part(bytes, 4))
    } else {
        (128, 128, 128)
    }
}

fn digit_value(b: u8) -> (r: Option<u8>)
    ensures
        match r {
            Some(n) => hex_digit(b) == Some(n as int) && n <= 15,
            None => hex_digit(b) is None,
        },
{
    if 48 <= b && b <= 57 {
        Some(b - 48)
    } else if 65 <= b && b <= 70 {
        Some(b - 55)
    } else if 97 <= b && b <= 102 {
        Some(b - 87)
    } else {
        None
    }
}

fn part_value(bytes: &[u8], at: usize) -> (r: u8)
    requires
        at + 1 < bytes@.len(),
    ensures
        r == color_part(bytes@, at as int),
{
    let a: u8 = bytes[at];
    match (digit_value(a), digit_value(bytes[at + 1])) {
        (Some(x), Some(y)) => 16 * x + y,
        (None, Some(y)) => if a == 43 {
            y
        } else {
            128
        },
        _ => 128,
    }
}

/// The red, green and blue of a color such as `#0078D4`.
pub fn parse_hex_color(hex: &str) -> (r: (u8, u8, u8))
    ensures
        (r.0 as int, r.1 as int, r.2 as int) == color_parts(hex@),
{
    let cs = chars_of(hex);
    let digits = crate::text::text_of(without_start(&cs, '#'));
    let bytes = digits.as_str().as_bytes();
    if bytes.len() >= 6 {
        (part_value(bytes, 0), part_value(bytes, 2), part_value(bytes, 4))
    } else {
        (128, 128, 128)
    }
}

// ── When an event is ───────────────────────────────────────────────

/// A time of day on a date.
pub open spec fn time_on(d: CivilDate, hour: int, minute: int) -> CivilTime {
    CivilTime { date: d, hour, minute, second: 0, nanosecond: 0 }
}

/// The day after a date; the date itself where that is out of range.
pub open spec fn day_after(d: CivilDate) -> CivilDate {
    match step_target(d, Step::Days(1)) {
        Some(next) => next,
        None => d,
    }
}

/// The hour and minute that a text writes, or others where it writes none.
pub open spec fn clock_or(s: Seq<char>, hour: int, minute: int) -> (int, int) {
    match hour_and_minute(s) {
        Some(p) => p,
        None => (hour, minute),
    }
}

/// Whether an event on a date starts and ends at the two moments: an all-day event from
/// midnight to midnight in universal time, any other at the times that were typed, in the
/// zone of the machine. Nine and ten o'clock stand in for times that cannot be read.
pub open spec fn is_event_span(
    d: CivilDate,
    all_day: bool,
    start_text: Seq<char>,
    end_text: Seq<char>,
    start: Option<Moment>,
    end: Option<Moment>,
) -> bool {
    if all_day {
        placed(time_on(d, 0, 0), ZoneModel::Utc, start) && placed(
            time_on(day_after(d), 0, 0),
            ZoneModel::Utc,
            end,
        )
    } else {
        let s = clock_or(start_text, 9, 0);
        let e = clock_or(end_text, 10, 0);
        placed(time_on(d, s.0, s.1), ZoneModel::System, start) && placed(
            time_on(d, e.0, e.1),
            ZoneModel::System,
            end,
        )
    }
}

fn clock_of(s: &str, hour: i8, minute: i8) -> (r: (i8, i8))
    requires
        0 <= hour <= 23,
        0 <= minute <= 59,
    ensures
        (r.0 as int, r.1 as int) == clock_or(s@, hour as int, minute as int),
        0 <= r.0 <= 23,
        0 <= r.1 <= 59,
{
    match parse_hhmm(s) {
        Some(p) => p,
        None => (hour, minute),
    }
}

/// The start and the end of an event on a date.
pub fn event_span(date: Date, all_day: bool, start_text: &str, end_text: &str) -> (r: (
    Option<Zoned>,
    Option<Zoned>,
))
    ensures
        is_event_span(
            date@,
            all_day,
            start_text@,
            end_text@,
            moment_view(r.0),
            moment_view(r.1),
        ),
{
    if all_day {
        let next = match date.plus(Step::Days(1)) {
            Some(d) => d,
            None => date,
        };
        (date.at(0, 0, 0, 0).to_zoned(Zone::Utc), next.at(0, 0, 0, 0).to_zoned(Zone::Utc))
    } else {
        let (sh, sm) = clock_of(start_text, 9, 0);
        let (eh, em) = clock_of(end_text, 10, 0);
        (date.at(sh, sm, 0, 0).to_zoned(Zone::System), date.at(eh, em, 0, 0).to_zoned(Zone::System))
    }
}

/// Whether `m` is when a to-do with a date and an optional time is due: the start of the
/// day in universal time without a time, else that time in the zone of the machine. There
/// is none where the date or the time cannot be read.
pub open spec fn is_due(date_text: Seq<char>, time_text: Seq<char>, m: Option<Moment>) -> bool {
    match date_in_text(date_text) {
        None => m is None,
        Some(d) => if time_text.len() == 0 {
            placed(time_on(d, 0, 0), ZoneModel::Utc, m)
        } else {
            match hour_and_minute(time_text) {
                Some((h, minute)) => placed(time_on(d, h, minute), ZoneModel::System, m),
                None => m is None,
            }
        },
    }
}

/// When a to-do is due that was given a date (`YYYY-MM-DD`) and an optional time (`HH:MM`).
pub fn parse_todo_due(date: &str, time: &str) -> (r: Option<Zoned>)
    ensures
        is_due(date@, time@, moment_view(r)),
{
    let d = match string_to_date(date) {
        Some(d) => d,
        None => return None,
    };
    if time.is_empty() {
        return d.at(0, 0, 0, 0).to_zoned(Zone::Utc);
    }
    match parse_hhmm(time) {
        Some((h, m)) => d.at(h, m, 0, 0).to_zoned(Zone::System),
        None => None,
    }
}

} // verus!
