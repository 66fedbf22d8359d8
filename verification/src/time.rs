//! Civil dates and times of the proleptic Gregorian calendar, and times in a zone.
//!
//! The calendar arithmetic itself is done by `jiff`; the functions here carry it
//! over to plain types and state it over day numbers and seconds.

use crate::text::{decimal_padded, push_padded};
use jiff::tz::TimeZone;
use vstd::prelude::*;

verus! {

// ── The model ──────────────────────────────────────────────────────

/// A date as three numbers.
pub struct CivilDate {
    pub year: int,
    pub month: int,
    pub day: int,
}

pub open spec fn is_leap(year: int) -> bool {
    year % 4 == 0 && (year % 100 != 0 || year % 400 == 0)
}

/// The number of days in a month.
pub open spec fn month_length(year: int, month: int) -> int {
    if month == 2 {
        if is_leap(year) {
            29
        } else {
            28
        }
    } else if month == 4 || month == 6 || month == 9 || month == 11 {
        30
    } else {
        31
    }
}

pub open spec fn valid_date(d: CivilDate) -> bool {
    &&& -9999 <= d.year <= 9999
    &&& 1 <= d.month <= 12
    &&& 1 <= d.day <= month_length(d.year, d.month)
}

/// The number of days before the first of January of `year`, counted from the
/// first of January of the year 1.
pub open spec fn days_before_year(year: int) -> int {
    let y = year - 1;
    365 * y + y / 4 - y / 100 + y / 400
}

/// The number of days of `year` before the first of `month`.
pub open spec fn days_before_month(year: int, month: int) -> int
    decreases month,
{
    if month <= 1 {
        0
    } else {
        days_before_month(year, month - 1) + month_length(year, month - 1)
    }
}

/// The position of a date in the run of all days; the first of January of the
/// year 1 is day 1.
pub open spec fn day_number(d: CivilDate) -> int {
    days_before_year(d.year) + days_before_month(d.year, d.month) + d.day
}

/// Whether `n` is the day number of a date in the supported range of years.
pub open spec fn is_day(n: int) -> bool {
    day_number(CivilDate { year: -9999, month: 1, day: 1 }) <= n <= day_number(
        CivilDate { year: 9999, month: 12, day: 31 },
    )
}

/// Whether `a` comes before `b`.
pub open spec fn before(a: CivilDate, b: CivilDate) -> bool {
    ||| a.year < b.year
    ||| a.year == b.year && a.month < b.month
    ||| a.year == b.year && a.month == b.month && a.day < b.day
}

/// `d` moved by `n` months; the day is cut to the length of the month it falls in.
pub open spec fn plus_months(d: CivilDate, n: int) -> CivilDate {
    let months = d.month - 1 + n;
    let year = d.year + months / 12;
    let month = months % 12 + 1;
    let longest = month_length(year, month);
    CivilDate { year, month, day: if d.day <= longest { d.day } else { longest } }
}

/// A distance by which a date can be moved.
#[derive(Clone, Copy, Debug, PartialEq, Eq)]
pub enum Step {
    Days(i32),
    Months(i32),
    Years(i32),
}

/// The largest step that can be taken in one go.
pub const MAX_STEP_DAYS: i32 = 7_304_484;

pub const MAX_STEP_MONTHS: i32 = 239_976;

pub const MAX_STEP_YEARS: i32 = 19_998;

pub open spec fn step_fits(step: Step) -> bool {
    match step {
        Step::Days(n) => -MAX_STEP_DAYS <= n <= MAX_STEP_DAYS,
        Step::Months(n) => -MAX_STEP_MONTHS <= n <= MAX_STEP_MONTHS,
        Step::Years(n) => -MAX_STEP_YEARS <= n <= MAX_STEP_YEARS,
    }
}

/// Whether `to` is where the step leads from `from`; `None` where that lies outside
/// the supported range of years.
pub open spec fn stepped(from: CivilDate, step: Step, to: Option<CivilDate>) -> bool {
    match step {
        Step::Days(n) => match to {
            Some(d) => valid_date(d) && day_number(d) == day_number(from) + n,
            None => !is_day(day_number(from) + n),
        },
        Step::Months(n) => match to {
            Some(d) => d == plus_months(from, n as int) && valid_date(d),
            None => !(-9999 <= plus_months(from, n as int).year <= 9999),
        },
        Step::Years(n) => match to {
            Some(d) => d == plus_months(from, 12 * n) && valid_date(d),
            None => !(-9999 <= plus_months(from, 12 * n).year <= 9999),
        },
    }
}

/// The date with a day number.
pub open spec fn date_on(n: int) -> CivilDate {
    choose|d: CivilDate| valid_date(d) && #[trigger] day_number(d) == n
}

/// Where a step leads, if that is in the supported range of years.
pub open spec fn step_target(from: CivilDate, step: Step) -> Option<CivilDate> {
    match step {
        Step::Days(n) => if is_day(day_number(from) + n) {
            Some(date_on(day_number(from) + n))
        } else {
            None
        },
        Step::Months(n) => if -9999 <= plus_months(from, n as int).year <= 9999 {
            Some(plus_months(from, n as int))
        } else {
            None
        },
        Step::Years(n) => if -9999 <= plus_months(from, 12 * n).year <= 9999 {
            Some(plus_months(from, 12 * n))
        } else {
            None
        },
    }
}

/// The days of the week, from Monday.
#[derive(Clone, Copy, Debug, PartialEq, Eq, Structural)]
pub enum Weekday {
    Monday,
    Tuesday,
    Wednesday,
    Thursday,
    Friday,
    Saturday,
    Sunday,
}

/// The position of a weekday in the week, Monday being 0.
pub open spec fn weekday_offset(w: Weekday) -> int {
    match w {
        Weekday::Monday => 0,
        Weekday::Tuesday => 1,
        Weekday::Wednesday => 2,
        Weekday::Thursday => 3,
        Weekday::Friday => 4,
        Weekday::Saturday => 5,
        Weekday::Sunday => 6,
    }
}

/// The weekday offset of a date.
pub open spec fn offset_in_week(d: CivilDate) -> int {
    (day_number(d) - 1) % 7
}

impl Weekday {
    /// The number of days from Monday to this weekday.
    pub fn to_monday_zero_offset(self) -> (r: i8)
        ensures
            r == weekday_offset(self),
    {
        match self {
            Weekday::Monday => 0,
            Weekday::Tuesday => 1,
            Weekday::Wednesday => 2,
            Weekday::Thursday => 3,
            Weekday::Friday => 4,
            Weekday::Saturday => 5,
            Weekday::Sunday => 6,
        }
    }
}

// ── Lemmas on day numbers ──────────────────────────────────────────

proof fn lemma_months_add_up(year: int, month: int)
    requires
        1 <= month <= 12,
    ensures
        0 <= days_before_month(year, month),
        days_before_month(year, month) + month_length(year, month) <= 365 + (if is_leap(year) {
            1int
        } else {
            0int
        }),
        days_before_month(year, 13) == 365 + (if is_leap(year) {
            1int
        } else {
            0int
        }),
{
    reveal_with_fuel(days_before_month, 14);
}

proof fn lemma_quotient_step(y: int, d: int)
    requires
        d > 1,
    ensures
        y / d - (y - 1) / d == (if y % d == 0 { 1int } else { 0int }),
{
    let q = (y - 1) / d;
    let r = (y - 1) % d;
    vstd::arithmetic::div_mod::lemma_fundamental_div_mod(y - 1, d);
    if r + 1 < d {
        vstd::arithmetic::div_mod::lemma_fundamental_div_mod_converse(y, d, q, r + 1);
    } else {
        assert(y == d * (q + 1)) by (nonlinear_arith)
            requires
                y - 1 == d * q + r,
                r + 1 == d,
        ;
        assert(d * (q + 1) == (q + 1) * d) by (nonlinear_arith);
        vstd::arithmetic::div_mod::lemma_fundamental_div_mod_converse(y, d, q + 1, 0);
    }
}

proof fn lemma_multiple(y: int, d: int, k: int)
    requires
        d > 0,
        k > 0,
        y % (d * k) == 0,
    ensures
        y % d == 0,
{
    let q = y / (d * k);
    assert(d * k > 0) by (nonlinear_arith)
        requires
            d > 0,
            k > 0,
    ;
    vstd::arithmetic::div_mod::lemma_fundamental_div_mod(y, d * k);
    assert((d * k) * q == (k * q) * d) by (nonlinear_arith);
    vstd::arithmetic::div_mod::lemma_fundamental_div_mod_converse(y, d, k * q, 0);
}

proof fn lemma_year_length(year: int)
    ensures
        days_before_year(year + 1) - days_before_year(year) == 365 + (if is_leap(year) {
            1int
        } else {
            0int
        }),
{
    lemma_quotient_step(year, 4);
    lemma_quotient_step(year, 100);
    lemma_quotient_step(year, 400);
    if year % 400 == 0 {
        lemma_multiple(year, 100, 4);
    }
    if year % 100 == 0 {
        lemma_multiple(year, 4, 25);
    }
}

proof fn lemma_years_in_order(a: int, b: int)
    requires
        a <= b,
    ensures
        days_before_year(b) >= days_before_year(a) + 365 * (b - a),
    decreases b - a,
{
    if a < b {
        lemma_years_in_order(a, b - 1);
        lemma_year_length(b - 1);
    }
}

proof fn lemma_months_in_order(year: int, a: int, b: int)
    requires
        1 <= a < b <= 12,
    ensures
        days_before_month(year, a) + month_length(year, a) <= days_before_month(year, b),
    decreases b - a,
{
    if a + 1 < b {
        lemma_months_in_order(year, a, b - 1);
    }
}

/// The order of valid dates is the order of their day numbers.
pub proof fn lemma_day_numbers_keep_order(a: CivilDate, b: CivilDate)
    requires
        valid_date(a),
        valid_date(b),
    ensures
        before(a, b) <==> day_number(a) < day_number(b),
        a == b <==> day_number(a) == day_number(b),
{
    lemma_earlier_is_smaller(a, b);
    lemma_earlier_is_smaller(b, a);
}

proof fn lemma_earlier_is_smaller(a: CivilDate, b: CivilDate)
    requires
        valid_date(a),
        valid_date(b),
    ensures
        before(a, b) ==> day_number(a) < day_number(b),
{
    if a.year < b.year {
        lemma_years_in_order(a.year + 1, b.year);
        lemma_year_length(a.year);
        lemma_months_add_up(a.year, a.month);
        lemma_months_add_up(b.year, b.month);
    } else if a.year == b.year && a.month < b.month {
        lemma_months_in_order(a.year, a.month, b.month);
    }
}

/// A valid date has a supported day number.
pub proof fn lemma_valid_is_day(d: CivilDate)
    requires
        valid_date(d),
    ensures
        is_day(day_number(d)),
{
    let first = CivilDate { year: -9999, month: 1, day: 1 };
    let last = CivilDate { year: 9999, month: 12, day: 31 };
    lemma_day_numbers_keep_order(first, d);
    lemma_day_numbers_keep_order(d, last);
}

/// Two dates are no further apart than one step can lead.
pub proof fn lemma_day_distance(a: CivilDate, b: CivilDate)
    requires
        valid_date(a),
        valid_date(b),
    ensures
        -MAX_STEP_DAYS <= day_number(b) - day_number(a) <= MAX_STEP_DAYS,
{
    lemma_valid_is_day(a);
    lemma_valid_is_day(b);
    reveal_with_fuel(days_before_month, 13);
}

/// Every supported day number is that of a date.
pub proof fn lemma_day_exists(n: int)
    requires
        is_day(n),
    ensures
        valid_date(date_on(n)),
        day_number(date_on(n)) == n,
{
    lemma_day_exists_from(n, CivilDate { year: -9999, month: 1, day: 1 });
}

proof fn lemma_day_exists_from(n: int, d: CivilDate)
    requires
        is_day(n),
        valid_date(d),
        d.day == 1,
        day_number(d) <= n,
    ensures
        exists|e: CivilDate| valid_date(e) && #[trigger] day_number(e) == n,
    decreases n - day_number(d),
{
    let length = month_length(d.year, d.month);
    if n < day_number(d) + length {
        let e = CivilDate { day: n - day_number(d) + 1, ..d };
        assert(valid_date(e) && day_number(e) == n);
    } else {
        lemma_first_days(d.year, d.month);
        let next = if d.month == 12 {
            CivilDate { year: d.year + 1, month: 1, day: 1 }
        } else {
            CivilDate { year: d.year, month: d.month + 1, day: 1 }
        };
        if d.year == 9999 && d.month == 12 {
            let last = CivilDate { year: 9999, month: 12, day: 31 };
            assert(day_number(last) == day_number(d) + 30);
        }
        lemma_day_exists_from(n, next);
    }
}

/// From the first of one month to the first of the next it is the length of the month.
pub proof fn lemma_first_days(year: int, month: int)
    requires
        1 <= month <= 12,
    ensures
        ({
            let next = if month == 12 {
                CivilDate { year: year + 1, month: 1, day: 1 }
            } else {
                CivilDate { year, month: month + 1, day: 1 }
            };
            day_number(next) - day_number(CivilDate { year, month, day: 1 }) == month_length(
                year,
                month,
            )
        }),
{
    if month == 12 {
        lemma_months_add_up(year, 12);
        lemma_year_length(year);
        assert(days_before_month(year, 13) == days_before_month(year, 12) + 31);
        assert(days_before_month(year + 1, 1) == 0);
    }
}

/// A date is the one with its day number.
pub proof fn lemma_date_on(d: CivilDate)
    requires
        valid_date(d),
    ensures
        date_on(day_number(d)) == d,
{
    lemma_day_numbers_keep_order(date_on(day_number(d)), d);
}

// ── The date type ──────────────────────────────────────────────────

/// A date that exists, in the years -9999 to 9999.
#[derive(Clone, Copy, Debug, PartialEq, Eq, PartialOrd, Ord, Hash, Structural)]
pub struct Date {
    year: i16,
    month: i8,
    day: i8,
}

impl View for Date {
    type V = CivilDate;

    closed spec fn view(&self) -> CivilDate {
        CivilDate { year: self.year as int, month: self.month as int, day: self.day as int }
    }
}

/// The number of days in a month of the year.
pub fn length_of_month(year: i16, month: i8) -> (r: i8)
    ensures
        r == month_length(year as int, month as int),
{
    if month == 2 {
        if year % 4 == 0 && (year % 100 != 0 || year % 400 == 0) {
            29
        } else {
            28
        }
    } else if month == 4 || month == 6 || month == 9 || month == 11 {
        30
    } else {
        31
    }
}

impl Date {
    /// Every value of the type is a date that exists.
    #[verifier::type_invariant]
    pub open spec fn exists_in_calendar(self) -> bool {
        valid_date(self@)
    }

    /// The date with these numbers, if there is one.
    pub fn new(year: i16, month: i8, day: i8) -> (r: Option<Date>)
        ensures
            match r {
                Some(d) => d@ == (CivilDate {
                    year: year as int,
                    month: month as int,
                    day: day as int,
                }) && valid_date(d@),
                None => !valid_date(
                    CivilDate { year: year as int, month: month as int, day: day as int },
                ),
            },
    {
        if -9999 <= year && year <= 9999 && 1 <= month && month <= 12 && 1 <= day && day
            <= length_of_month(year, month) {
            Some(Date { year, month, day })
        } else {
            None
        }
    }

    pub fn year(self) -> (r: i16)
        ensures
            r == self@.year,
            valid_date(self@),
    {
        proof {
            use_type_invariant(&self);
        }
        self.year
    }

    pub fn month(self) -> (r: i8)
        ensures
            r == self@.month,
            valid_date(self@),
    {
        proof {
            use_type_invariant(&self);
        }
        self.month
    }

    pub fn day(self) -> (r: i8)
        ensures
            r == self@.day,
            valid_date(self@),
    {
        proof {
            use_type_invariant(&self);
        }
        self.day
    }

    /// Whether this date comes before the other.
    pub fn is_before(self, other: Date) -> (r: bool)
        ensures
            r == before(self@, other@),
    {
        self.year < other.year || (self.year == other.year && (self.month < other.month || (
        self.month == other.month && self.day < other.day)))
    }

    /// Whether the two dates are one.
    pub fn is_same(self, other: Date) -> (r: bool)
        ensures
            r == (self@ == other@),
            r == (self == other),
    {
        self.year == other.year && self.month == other.month && self.day == other.day
    }

    /// The weekday of the date.
    pub fn weekday(self) -> (r: Weekday)
        ensures
            weekday_offset(r) == offset_in_week(self@),
    {
        proof {
            use_type_invariant(&self);
        }
        let offset: i8 = week_offset(self);
        if offset == 0 {
            Weekday::Monday
        } else if offset == 1 {
            Weekday::Tuesday
        } else if offset == 2 {
            Weekday::Wednesday
        } else if offset == 3 {
            Weekday::Thursday
        } else if offset == 4 {
            Weekday::Friday
        } else if offset == 5 {
            Weekday::Saturday
        } else {
            Weekday::Sunday
        }
    }

    /// The date a step away, if it is in the supported range of years.
    pub fn plus(self, step: Step) -> (r: Option<Date>)
        requires
            step_fits(step),
        ensures
            date_view(r) == step_target(self@, step),
            r is Some ==> valid_date(r->0@),
    {
        proof {
            use_type_invariant(&self);
        }
        let r = date_plus(self, step);
        proof {
            if r is Some {
                lemma_date_on(r->0@);
                lemma_valid_is_day(r->0@);
            }
        }
        r
    }

    /// The number of days from `earlier` to this date.
    pub fn days_since(self, earlier: Date) -> (r: i32)
        ensures
            r == day_number(self@) - day_number(earlier@),
    {
        proof {
            use_type_invariant(&self);
            use_type_invariant(&earlier);
        }
        days_between(earlier, self)
    }

    /// Appends the date in the form `YYYY-MM-DD`.
    pub fn push_iso(self, out: &mut String)
        ensures
            final(out)@ == old(out)@ + iso_text(self@),
    {
        proof {
            use_type_invariant(&self);
        }
        if self.year < 0 {
            out.append("-00");
            push_padded(out, -(self.year as i64), 4);
        } else {
            push_padded(out, self.year as i64, 4);
        }
        out.push('-');
        push_padded(out, self.month as i64, 2);
        out.push('-');
        push_padded(out, self.day as i64, 2);
        proof {
            assert(out@ =~= old(out)@ + iso_text(self@));
        }
    }
}

/// The text of a date: `YYYY-MM-DD`; a year before 0 has a sign and six digits.
pub open spec fn iso_text(d: CivilDate) -> Seq<char> {
    let year = if d.year < 0 {
        "-00"@ + decimal_padded(-d.year, 4)
    } else {
        decimal_padded(d.year, 4)
    };
    year + seq!['-'] + decimal_padded(d.month, 2) + seq!['-'] + decimal_padded(d.day, 2)
}

pub open spec fn date_view(d: Option<Date>) -> Option<CivilDate> {
    match d {
        Some(d) => Some(d@),
        None => None,
    }
}

// ── Times ──────────────────────────────────────────────────────────

/// A date and a time of day as numbers.
pub struct CivilTime {
    pub date: CivilDate,
    pub hour: int,
    pub minute: int,
    pub second: int,
    pub nanosecond: int,
}

pub open spec fn valid_clock(hour: int, minute: int, second: int, nanosecond: int) -> bool {
    &&& 0 <= hour <= 23
    &&& 0 <= minute <= 59
    &&& 0 <= second <= 59
    &&& 0 <= nanosecond <= 999_999_999
}

pub open spec fn valid_time(t: CivilTime) -> bool {
    valid_date(t.date) && valid_clock(t.hour, t.minute, t.second, t.nanosecond)
}

/// The day number of the first of January 1970.
pub open spec fn epoch_day() -> int {
    719163
}

/// The whole seconds from the first of January 1970 to a local time.
pub open spec fn civil_second(t: CivilTime) -> int {
    (day_number(t.date) - epoch_day()) * 86400 + t.hour * 3600 + t.minute * 60 + t.second
}

/// `jiff::tz::TimeZone`: the rules of a time zone.
#[verifier::external_type_specification]
#[verifier::external_body]
pub struct ExTimeZone(jiff::tz::TimeZone);

/// A zone that was found under a name.
pub struct FoundModel {
    pub name: Seq<char>,
    pub zone: TimeZone,
}

/// A zone of the time zone database that was found under a name. It is held from then on,
/// whatever becomes of the database.
#[derive(Debug, PartialEq, Eq)]
pub struct FoundZone {
    name: String,
    pub(crate) zone: TimeZone,
}

impl View for FoundZone {
    type V = FoundModel;

    closed spec fn view(&self) -> FoundModel {
        FoundModel { name: self.name@, zone: self.zone }
    }
}

impl Clone for FoundZone {
    fn clone(&self) -> (r: FoundZone)
        ensures
            r@ == self@,
    {
        FoundZone { name: self.name.clone(), zone: copy_zone(&self.zone) }
    }
}

impl FoundZone {
    /// The zone of the time zone database with a name, if there is one.
    pub fn find(name: String) -> (r: Option<FoundZone>)
        ensures
            r is Some ==> r->0@.name == name@,
    {
        match find_zone(name.as_str()) {
            Some(zone) => Some(FoundZone { name, zone }),
            None => None,
        }
    }

    /// The name under which the zone was found.
    pub fn name(&self) -> (r: &str)
        ensures
            r@ == self@.name,
    {
        self.name.as_str()
    }
}

/// Where a time of day is counted.
pub enum ZoneModel {
    Utc,
    System,
    Named(FoundModel),
}

/// Where a time of day is counted.
#[derive(Debug, PartialEq, Eq)]
pub enum Zone {
    /// Coordinated universal time.
    Utc,
    /// The zone that the machine is set to.
    System,
    /// A zone of the time zone database.
    Named(FoundZone),
}

impl View for Zone {
    type V = ZoneModel;

    open spec fn view(&self) -> ZoneModel {
        match self {
            Zone::Utc => ZoneModel::Utc,
            Zone::System => ZoneModel::System,
            Zone::Named(found) => ZoneModel::Named(found@),
        }
    }
}

impl Clone for Zone {
    fn clone(&self) -> (r: Zone)
        ensures
            r@ == self@,
    {
        match self {
            Zone::Utc => Zone::Utc,
            Zone::System => Zone::System,
            Zone::Named(found) => Zone::Named(found.clone()),
        }
    }
}

/// A local time, the seconds by which it is ahead of universal time, and its zone.
pub struct Moment {
    pub local: CivilTime,
    pub offset: int,
    pub zone: ZoneModel,
}

/// The whole seconds from the start of 1970 in universal time to a moment.
pub open spec fn instant(m: Moment) -> int {
    civil_second(m.local) - m.offset
}

/// The first and the last second that a moment can be at.
pub const MIN_INSTANT: i64 = -377_705_023_201;

pub const MAX_INSTANT: i64 = 253_402_207_200;

pub const MAX_OFFSET: i32 = 93_599;

pub open spec fn valid_moment(m: Moment) -> bool {
    &&& valid_time(m.local)
    &&& -MAX_OFFSET <= m.offset <= MAX_OFFSET
    &&& MIN_INSTANT <= instant(m) <= MAX_INSTANT
    &&& m.zone == ZoneModel::Utc ==> m.offset == 0
}

/// What the clock of universal time shows at a second and a nanosecond.
pub open spec fn utc_time(second: int, nanosecond: int) -> CivilTime {
    CivilTime {
        date: date_on(second / 86400 + epoch_day()),
        hour: second % 86400 / 3600,
        minute: second % 3600 / 60,
        second: second % 60,
        nanosecond,
    }
}

/// Whether `m` is the moment at a second and a nanosecond, in a zone.
pub open spec fn is_at(m: Moment, second: int, nanosecond: int, zone: ZoneModel) -> bool {
    &&& valid_moment(m)
    &&& instant(m) == second
    &&& m.local.nanosecond == nanosecond
    &&& m.zone == zone
}

/// A moment in universal time.
pub open spec fn in_utc(second: int, nanosecond: int) -> Moment {
    Moment { local: utc_time(second, nanosecond), offset: 0, zone: ZoneModel::Utc }
}

proof fn lemma_split_day(days: int, rest: int)
    requires
        0 <= rest < 86400,
    ensures
        (days * 86400 + rest) / 86400 == days,
        (days * 86400 + rest) % 86400 == rest,
        (days * 86400 + rest) % 3600 == rest % 3600,
        (days * 86400 + rest) % 60 == rest % 60,
{
    vstd::arithmetic::div_mod::lemma_fundamental_div_mod_converse(
        days * 86400 + rest,
        86400,
        days,
        rest,
    );
    vstd::arithmetic::div_mod::lemma_mod_multiples_vanish(days * 24, rest, 3600);
    vstd::arithmetic::div_mod::lemma_mod_multiples_vanish(days * 1440, rest, 60);
}

proof fn lemma_split_clock(hour: int, minute: int, second: int)
    requires
        valid_clock(hour, minute, second, 0),
    ensures
        ({
            let rest = hour * 3600 + minute * 60 + second;
            &&& 0 <= rest < 86400
            &&& rest / 3600 == hour
            &&& rest % 3600 / 60 == minute
            &&& rest % 60 == second
        }),
{
    let rest = hour * 3600 + minute * 60 + second;
    vstd::arithmetic::div_mod::lemma_fundamental_div_mod_converse(
        rest,
        3600,
        hour,
        minute * 60 + second,
    );
    vstd::arithmetic::div_mod::lemma_fundamental_div_mod_converse(
        rest,
        60,
        hour * 60 + minute,
        second,
    );
    vstd::arithmetic::div_mod::lemma_fundamental_div_mod_converse(
        minute * 60 + second,
        60,
        minute,
        second,
    );
}

/// A time is what the clock of universal time shows at its own second.
pub proof fn lemma_utc_time(t: CivilTime)
    requires
        valid_time(t),
    ensures
        utc_time(civil_second(t), t.nanosecond) == t,
{
    let days = day_number(t.date) - epoch_day();
    lemma_split_clock(t.hour, t.minute, t.second);
    lemma_split_day(days, t.hour * 3600 + t.minute * 60 + t.second);
    lemma_date_on(t.date);
}

/// Every second that a moment can be at is shown by the clock of universal time.
pub proof fn lemma_utc_shows(second: int, nanosecond: int)
    requires
        MIN_INSTANT <= second <= MAX_INSTANT,
        0 <= nanosecond <= 999_999_999,
    ensures
        valid_time(utc_time(second, nanosecond)),
        civil_second(utc_time(second, nanosecond)) == second,
{
    let n = second / 86400 + epoch_day();
    assert(is_day(n)) by {
        reveal_with_fuel(days_before_month, 13);
    }
    lemma_day_exists(n);
    let rest = second % 86400;
    vstd::arithmetic::div_mod::lemma_fundamental_div_mod(second, 86400);
    lemma_split_day(second / 86400, rest);
    vstd::arithmetic::div_mod::lemma_fundamental_div_mod(rest, 3600);
    let part = rest % 3600;
    vstd::arithmetic::div_mod::lemma_fundamental_div_mod(part, 60);
    vstd::arithmetic::div_mod::lemma_mod_multiples_vanish(rest / 3600 * 60, part, 60);
    assert(rest % 60 == part % 60);
}

/// A date and a time of day.
#[derive(Clone, Copy, Debug, PartialEq, Eq, PartialOrd, Ord, Hash, Structural)]
pub struct DateTime {
    date: Date,
    hour: i8,
    minute: i8,
    second: i8,
    nanosecond: i32,
}

impl View for DateTime {
    type V = CivilTime;

    closed spec fn view(&self) -> CivilTime {
        CivilTime {
            date: self.date@,
            hour: self.hour as int,
            minute: self.minute as int,
            second: self.second as int,
            nanosecond: self.nanosecond as int,
        }
    }
}

pub open spec fn datetime_view(t: Option<DateTime>) -> Option<CivilTime> {
    match t {
        Some(t) => Some(t@),
        None => None,
    }
}

/// The moment of a local time in universal time, where it is one.
pub open spec fn utc_moment(t: CivilTime) -> Option<Moment> {
    if MIN_INSTANT <= civil_second(t) <= MAX_INSTANT {
        Some(Moment { local: t, offset: 0, zone: ZoneModel::Utc })
    } else {
        None
    }
}

/// Whether a local time is a moment in every zone: no offset takes it out of range.
pub open spec fn is_moment_anywhere(t: CivilTime) -> bool {
    MIN_INSTANT + MAX_OFFSET <= civil_second(t) <= MAX_INSTANT - MAX_OFFSET
}

/// Whether `m` is a moment that a local time can stand for in a zone. In universal
/// time there is at most one. In another zone, the clock shows that time, or, where it
/// skips that time, a later one; what it skips is up to the zone. There is none where the
/// moment is out of range.
pub open spec fn placed(t: CivilTime, zone: ZoneModel, m: Option<Moment>) -> bool {
    if zone == ZoneModel::Utc {
        m == utc_moment(t)
    } else {
        match m {
            Some(m) => {
                &&& valid_moment(m)
                &&& m.zone == zone
                &&& m.local.nanosecond == t.nanosecond
                &&& 0 <= civil_second(m.local) - civil_second(t) <= 2 * MAX_OFFSET
            },
            None => !is_moment_anywhere(t),
        }
    }
}

impl DateTime {
    /// Every value of the type is a time that exists.
    #[verifier::type_invariant]
    pub open spec fn exists_in_calendar(self) -> bool {
        valid_time(self@)
    }

    pub fn date(self) -> (r: Date)
        ensures
            r@ == self@.date,
    {
        self.date
    }

    /// The moment at which this is the local time in a zone. The later of the times
    /// around a skip is taken, and the earlier of two moments with one local time.
    pub fn to_zoned(self, zone: Zone) -> (r: Option<Zoned>)
        ensures
            placed(self@, zone@, moment_view(r)),
    {
        proof {
            use_type_invariant(&self);
        }
        place(self, zone)
    }
}

impl Date {
    /// This date with a time of day.
    pub fn at(self, hour: i8, minute: i8, second: i8, nanosecond: i32) -> (r: DateTime)
        requires
            valid_clock(hour as int, minute as int, second as int, nanosecond as int),
        ensures
            r@ == (CivilTime {
                date: self@,
                hour: hour as int,
                minute: minute as int,
                second: second as int,
                nanosecond: nanosecond as int,
            }),
            valid_time(r@),
    {
        proof {
            use_type_invariant(&self);
        }
        DateTime { date: self, hour, minute, second, nanosecond }
    }
}

/// A time in a zone.
#[derive(Debug, PartialEq, Eq)]
pub struct Zoned {
    local: DateTime,
    offset: i32,
    zone: Zone,
}

impl View for Zoned {
    type V = Moment;

    closed spec fn view(&self) -> Moment {
        Moment { local: self.local@, offset: self.offset as int, zone: self.zone@ }
    }
}

pub open spec fn moment_view(z: Option<Zoned>) -> Option<Moment> {
    match z {
        Some(z) => Some(z@),
        None => None,
    }
}

/// Whether `to` is the moment `n` days after `m`, by the local date.
pub open spec fn moved_days(m: Moment, n: int, to: Option<Moment>) -> bool {
    let day = day_number(m.local.date) + n;
    if n == 0 {
        to == Some(m)
    } else if !is_day(day) {
        to is None
    } else {
        placed(CivilTime { date: date_on(day), ..m.local }, m.zone, to)
    }
}

impl Clone for Zoned {
    fn clone(&self) -> (r: Zoned)
        ensures
            r@ == self@,
    {
        proof {
            use_type_invariant(self);
        }
        Zoned { local: self.local, offset: self.offset, zone: self.zone.clone() }
    }
}

impl Zoned {
    /// Every value of the type is a moment that exists.
    #[verifier::type_invariant]
    pub open spec fn exists_in_calendar(self) -> bool {
        valid_moment(self@)
    }

    /// The moment at `second` and `nanosecond` after the start of 1970.
    pub fn utc_at(second: i64, nanosecond: i32) -> (r: Zoned)
        requires
            MIN_INSTANT <= second <= MAX_INSTANT,
            0 <= nanosecond <= 999_999_999,
        ensures
            r@ == in_utc(second as int, nanosecond as int),
            valid_moment(r@),
    {
        let r = at_instant(second, nanosecond, Zone::Utc);
        proof {
            lemma_utc_time(r@.local);
        }
        r
    }

    /// The same moment in the zone of the machine.
    pub fn system_at(second: i64, nanosecond: i32) -> (r: Zoned)
        requires
            MIN_INSTANT <= second <= MAX_INSTANT,
            0 <= nanosecond <= 999_999_999,
        ensures
            is_at(r@, second as int, nanosecond as int, ZoneModel::System),
    {
        at_instant(second, nanosecond, Zone::System)
    }

    pub fn datetime(&self) -> (r: DateTime)
        ensures
            r@ == self@.local,
    {
        self.local
    }

    pub fn date(&self) -> (r: Date)
        ensures
            r@ == self@.local.date,
    {
        self.local.date
    }

    pub fn zone(&self) -> (r: Zone)
        ensures
            r@ == self@.zone,
    {
        self.zone.clone()
    }

    pub fn hour(&self) -> (r: i8)
        ensures
            r == self@.local.hour,
            0 <= r <= 23,
    {
        proof {
            use_type_invariant(self);
        }
        self.local.hour
    }

    pub fn minute(&self) -> (r: i8)
        ensures
            r == self@.local.minute,
            0 <= r <= 59,
    {
        proof {
            use_type_invariant(self);
        }
        self.local.minute
    }

    pub fn second(&self) -> (r: i8)
        ensures
            r == self@.local.second,
            0 <= r <= 59,
    {
        proof {
            use_type_invariant(self);
        }
        self.local.second
    }

    pub fn subsec_nanosecond(&self) -> (r: i32)
        ensures
            r == self@.local.nanosecond,
            0 <= r <= 999_999_999,
    {
        proof {
            use_type_invariant(self);
        }
        self.local.nanosecond
    }

    /// The seconds by which the clock is ahead of universal time.
    pub fn offset(&self) -> (r: i32)
        ensures
            r == self@.offset,
            valid_moment(self@),
    {
        proof {
            use_type_invariant(self);
        }
        self.offset
    }

    /// The whole seconds from the start of 1970 to this moment.
    pub fn unix_second(&self) -> (r: i64)
        ensures
            r == instant(self@),
            MIN_INSTANT <= r <= MAX_INSTANT,
    {
        proof {
            use_type_invariant(self);
        }
        let epoch = Date { year: 1970, month: 1, day: 1 };
        proof {
            reveal_with_fuel(days_before_month, 3);
            assert(day_number(epoch@) == epoch_day());
        }
        let days: i64 = self.local.date.days_since(epoch) as i64;
        days * 86400 + (self.local.hour as i64) * 3600 + (self.local.minute as i64) * 60 + (
        self.local.second as i64) - (self.offset as i64)
    }

    /// This moment in universal time.
    pub fn to_utc(&self) -> (r: Zoned)
        ensures
            r@ == in_utc(instant(self@), self@.local.nanosecond),
            valid_moment(r@),
    {
        let second: i64 = self.unix_second();
        Zoned::utc_at(second, self.subsec_nanosecond())
    }

    /// The moment `n` days later, by the local date.
    pub fn plus_days(&self, n: i32) -> (r: Option<Zoned>)
        requires
            -MAX_STEP_DAYS <= n <= MAX_STEP_DAYS,
        ensures
            moved_days(self@, n as int, moment_view(r)),
    {
        if n == 0 {
            return Some(self.clone());
        }
        proof {
            use_type_invariant(self);
        }
        match self.local.date.plus(Step::Days(n)) {
            None => None,
            Some(date) => {
                let moved = date.at(
                    self.local.hour,
                    self.local.minute,
                    self.local.second,
                    self.local.nanosecond,
                );
                moved.to_zoned(self.zone.clone())
            },
        }
    }

    /// The moment that it is.
    pub fn now() -> (r: Zoned)
        ensures
            r@.zone == ZoneModel::System,
            valid_moment(r@),
    {
        current()
    }

    /// The moment that it is, in a zone.
    pub fn now_in(zone: Zone) -> (r: Zoned)
        ensures
            r@.zone == zone@,
            valid_moment(r@),
    {
        let now = current();
        let second: i64 = now.unix_second();
        at_instant(second, now.subsec_nanosecond(), zone)
    }
}

// ── What jiff computes ─────────────────────────────────────────────

/// `jiff::civil::Date::weekday` and `Weekday::to_monday_zero_offset`: the days from
/// the Monday on or before the date to the date.
#[verifier::external_body]
fn week_offset(d: Date) -> (r: i8)
    requires
        valid_date(d@),
    ensures
        r == offset_in_week(d@),
{
    jiff::civil::date(d.year, d.month, d.day).weekday().to_monday_zero_offset()
}

/// `jiff::civil::Date::checked_add` with a span of one unit: days move along the run
/// of days; months and years keep the day of the month, cut to the month's length; an
/// error where the result is outside the years -9999 to 9999.
#[verifier::external_body]
fn date_plus(d: Date, step: Step) -> (r: Option<Date>)
    requires
        valid_date(d@),
        step_fits(step),
    ensures
        stepped(d@, step, date_view(r)),
{
    let span = match step {
        Step::Days(n) => jiff::Span::new().days(n),
        Step::Months(n) => jiff::Span::new().months(n),
        Step::Years(n) => jiff::Span::new().years(n),
    };
    let moved = jiff::civil::date(d.year, d.month, d.day).checked_add(span);
    moved.ok().map(|e| Date { year: e.year(), month: e.month(), day: e.day() })
}

/// `jiff::civil::Date::since` and `Span::get_days`: the number of days from one date
/// to another, negative when the second comes first.
#[verifier::external_body]
fn days_between(from: Date, to: Date) -> (r: i32)
    requires
        valid_date(from@),
        valid_date(to@),
    ensures
        r == day_number(to@) - day_number(from@),
{
    let until = jiff::civil::date(to.year, to.month, to.day);
    let span = until.since(jiff::civil::date(from.year, from.month, from.day));
    span.map(|s| s.get_days()).unwrap_or(0)
}

/// `jiff::tz::TimeZone::get`: the zone of the time zone database with a name. Which zones there
/// are is up to the database.
#[verifier::external_body]
fn find_zone(name: &str) -> Option<TimeZone> {
    TimeZone::get(name).ok()
}

/// `jiff::tz::TimeZone::clone`: the same zone.
#[verifier::external_body]
fn copy_zone(zone: &TimeZone) -> (r: TimeZone)
    ensures
        r == *zone,
{
    zone.clone()
}

/// `jiff::civil::DateTime::to_zoned`. In universal time the local time is the moment, if it is
/// one. In another zone the local time is kept, or moved forward where the zone skips it;
/// which times a zone skips is up to the time zone database. There always is a zone of the
/// machine, and a moment that is in range in every zone is found.
#[verifier::external_body]
fn place(t: DateTime, zone: Zone) -> (r: Option<Zoned>)
    requires
        valid_time(t@),
    ensures
        placed(t@, zone@, moment_view(r)),
{
    let tz = match &zone {
        Zone::Utc => TimeZone::UTC,
        Zone::System => TimeZone::system(),
        Zone::Named(found) => found.zone.clone(),
    };
    let d = t.date;
    let z = jiff::civil::date(d.year, d.month, d.day).at(t.hour, t.minute, t.second, t.nanosecond);
    let z = z.to_zoned(tz).ok()?;
    let local = DateTime {
        date: Date { year: z.year(), month: z.month(), day: z.day() },
        hour: z.hour(), minute: z.minute(), second: z.second(),
        nanosecond: z.subsec_nanosecond(),
    };
    Some(Zoned { local, offset: z.offset().seconds(), zone })
}

/// `jiff::Timestamp::new` and `to_zoned`: the moment at that second and nanosecond, in a zone.
/// The offset of the zone is up to the time zone database.
#[verifier::external_body]
fn at_instant(second: i64, nanosecond: i32, zone: Zone) -> (r: Zoned)
    requires
        MIN_INSTANT <= second <= MAX_INSTANT,
        0 <= nanosecond <= 999_999_999,
    ensures
        is_at(r@, second as int, nanosecond as int, zone@),
{
    let tz = match &zone {
        Zone::Utc => TimeZone::UTC,
        Zone::System => TimeZone::system(),
        Zone::Named(found) => found.zone.clone(),
    };
    let z = jiff::Timestamp::new(second, nanosecond).unwrap().to_zoned(tz);
    let local = DateTime {
        date: Date { year: z.year(), month: z.month(), day: z.day() },
        hour: z.hour(), minute: z.minute(), second: z.second(),
        nanosecond: z.subsec_nanosecond(),
    };
    Zoned { local, offset: z.offset().seconds(), zone }
}

/// `jiff::Zoned::now`: the time of the machine's clock, in the machine's zone. It has no
/// result where that clock is set outside the range of moments.
#[verifier::external_body]
fn current() -> (r: Zoned)
    ensures
        r@.zone == ZoneModel::System,
        valid_moment(r@),
{
    let z = jiff::Zoned::now();
    let local = DateTime {
        date: Date { year: z.year(), month: z.month(), day: z.day() },
        hour: z.hour(), minute: z.minute(), second: z.second(),
        nanosecond: z.subsec_nanosecond(),
    };
    Zoned { local, offset: z.offset().seconds(), zone: Zone::System }
}

// ── Moments as text ────────────────────────────────────────────────

/// The text of a moment, given by its second and nanosecond, as `jiff::Timestamp` writes
/// it.
pub uninterp spec fn timestamp_text(second: int, nanosecond: int) -> Seq<char>;

/// The moment of universal time that a text writes, as `jiff::Timestamp` reads it.
pub uninterp spec fn timestamp_read(text: Seq<char>) -> Option<Moment>;

/// `jiff::Timestamp::to_string`: the RFC 3339 text of the moment at a second and a
/// nanosecond. It is a function of the two.
#[verifier::external_body]
fn write_timestamp(second: i64, nanosecond: i32) -> (r: String)
    requires
        MIN_INSTANT <= second <= MAX_INSTANT,
        0 <= nanosecond <= 999_999_999,
    ensures
        r@ == timestamp_text(second as int, nanosecond as int),
{
    jiff::Timestamp::new(second, nanosecond).unwrap().to_string()
}

/// `str::parse` to a `jiff::Timestamp`: a function of the text, which gives back a moment
/// from its own text.
#[verifier::external_body]
fn read_timestamp(text: &str) -> (r: Option<Zoned>)
    ensures
        moment_view(r) == timestamp_read(text@),
        r is Some ==> valid_moment(r->0@) && r->0@.zone == ZoneModel::Utc,
        forall|second: int, nanosecond: int|
            text@ == #[trigger] timestamp_text(second, nanosecond) && MIN_INSTANT <= second
                <= MAX_INSTANT && 0 <= nanosecond <= 999_999_999 ==> moment_view(r) == Some(
                in_utc(second, nanosecond),
            ),
{
    let z = text.parse::<jiff::Timestamp>().ok()?.to_zoned(TimeZone::UTC);
    let local = DateTime {
        date: Date { year: z.year(), month: z.month(), day: z.day() },
        hour: z.hour(), minute: z.minute(), second: z.second(),
        nanosecond: z.subsec_nanosecond(),
    };
    Some(Zoned { local, offset: z.offset().seconds(), zone: Zone::Utc })
}

impl Zoned {
    /// The RFC 3339 text of this moment.
    pub fn to_rfc3339(&self) -> (r: String)
        ensures
            r@ == timestamp_text(instant(self@), self@.local.nanosecond),
    {
        let second: i64 = self.unix_second();
        write_timestamp(second, self.subsec_nanosecond())
    }

    /// The moment that a text writes, in universal time.
    pub fn from_rfc3339(text: &str) -> (r: Option<Zoned>)
        ensures
            moment_view(r) == timestamp_read(text@),
            r is Some ==> valid_moment(r->0@) && r->0@.zone == ZoneModel::Utc,
            forall|second: int, nanosecond: int|
                text@ == #[trigger] timestamp_text(second, nanosecond) && MIN_INSTANT <= second
                    <= MAX_INSTANT && 0 <= nanosecond <= 999_999_999 ==> moment_view(r) == Some(
                    in_utc(second, nanosecond),
                ),
    {
        read_timestamp(text)
    }

    /// This moment in the zone of the machine.
    pub fn to_system(&self) -> (r: Zoned)
        ensures
            is_at(r@, instant(self@), self@.local.nanosecond, ZoneModel::System),
    {
        let second: i64 = self.unix_second();
        Zoned::system_at(second, self.subsec_nanosecond())
    }
}

} // verus!
