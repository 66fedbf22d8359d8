//! The dates on which a recurrence rule falls.

use crate::rule::{ByDay, ParsedRRule, RRuleFreq, RuleModel};
use crate::sorting::{in_order, key_of, lemma_sorted, lemma_sorted_map, sort, stable_sorted, Keyed};
use crate::time::{
    before, date_on, date_view, day_number, is_day, lemma_day_exists, lemma_day_numbers_keep_order,
    lemma_first_days, month_length, offset_in_week, step_fits, step_target, valid_date,
    weekday_offset, CivilDate, Date, MAX_STEP_DAYS, MAX_STEP_MONTHS, MAX_STEP_YEARS, Step, Weekday,
};
use vstd::prelude::*;

verus! {

// ── The model ──────────────────────────────────────────────────────

pub open spec fn dates_view(dates: Seq<Date>) -> Seq<CivilDate> {
    dates.map_values(|d: Date| d@)
}

pub open spec fn clamped_month(month: int) -> int {
    if month < 1 {
        1
    } else if month > 12 {
        12
    } else {
        month
    }
}

/// The number of days in a month of the supported range of years; 30 otherwise.
pub open spec fn days_of_month(year: int, month: int) -> int {
    let m = clamped_month(month);
    if -9999 <= year <= 9999 {
        month_length(year, m)
    } else {
        30
    }
}

/// The date as a list of one, or an empty list where there is no such date.
pub open spec fn existing(year: int, month: int, day: int) -> Seq<CivilDate> {
    let d = CivilDate { year, month, day };
    if valid_date(d) {
        seq![d]
    } else {
        Seq::empty()
    }
}

/// The dates of a month up to a day that fall on a weekday.
pub open spec fn matching_days(year: int, month: int, weekday: Weekday, upto: int) -> Seq<CivilDate>
    decreases upto,
{
    if upto <= 0 {
        Seq::empty()
    } else {
        let earlier = matching_days(year, month, weekday, upto - 1);
        let d = CivilDate { year, month, day: upto };
        if valid_date(d) && offset_in_week(d) == weekday_offset(weekday) {
            earlier.push(d)
        } else {
            earlier
        }
    }
}

/// The item of `s` at `i`, as a list of one; an empty list where `i` is out of range.
pub open spec fn item_at(s: Seq<CivilDate>, i: int) -> Seq<CivilDate> {
    if 0 <= i < s.len() {
        seq![s[i]]
    } else {
        Seq::empty()
    }
}

/// The dates of a month that a weekday with an optional number stands for: all of that
/// weekday without a number, otherwise the one that the number counts to, from the end
/// where it is negative. The number 0 counts as 1.
pub open spec fn weekdays_of_month(year: int, month: int, day: ByDay) -> Seq<CivilDate> {
    let all = matching_days(year, month, day.1, days_of_month(year, month));
    match day.0 {
        None => all,
        Some(n) => if n == 0 {
            item_at(all, 0)
        } else if n > 0 {
            item_at(all, n - 1)
        } else {
            item_at(all, all.len() + n)
        },
    }
}

/// The dates of a month that a list of weekdays stands for.
pub open spec fn all_weekdays(year: int, month: int, days: Seq<ByDay>) -> Seq<CivilDate>
    decreases days.len(),
{
    if days.len() == 0 {
        Seq::empty()
    } else {
        all_weekdays(year, month, days.drop_last()) + weekdays_of_month(year, month, days.last())
    }
}

/// The date of a month that a number stands for, from the end where it is negative.
pub open spec fn month_day(year: int, month: int, n: i8) -> Seq<CivilDate> {
    let length = days_of_month(year, month);
    let day = if n > 0 {
        n as int
    } else {
        length + 1 + n
    };
    if day <= length {
        existing(year, month, day)
    } else {
        Seq::empty()
    }
}

/// The dates of a month that a list of numbers stands for.
pub open spec fn all_month_days(year: int, month: int, days: Seq<i8>) -> Seq<CivilDate>
    decreases days.len(),
{
    if days.len() == 0 {
        Seq::empty()
    } else {
        all_month_days(year, month, days.drop_last()) + month_day(year, month, days.last())
    }
}

/// The dates of a month that a rule picks out; `otherwise` where it picks none.
pub open spec fn picked_in_month(
    year: int,
    month: int,
    rule: RuleModel,
    otherwise: Seq<CivilDate>,
) -> Seq<CivilDate> {
    if rule.by_monthday.len() > 0 {
        all_month_days(year, month, rule.by_monthday)
    } else if rule.by_day.len() > 0 {
        all_weekdays(year, month, rule.by_day)
    } else {
        otherwise
    }
}

/// The day of `base` in a month of its year, cut to the length of the month.
pub open spec fn same_day_in(base: CivilDate, month: int) -> Seq<CivilDate> {
    let length = days_of_month(base.year, month);
    existing(base.year, month, if base.day <= length { base.day } else { length })
}

/// The dates that a rule picks out of months of the year of `base`.
pub open spec fn picked_in_months(base: CivilDate, months: Seq<u8>, rule: RuleModel) -> Seq<
    CivilDate,
>
    decreases months.len(),
{
    if months.len() == 0 {
        Seq::empty()
    } else {
        let month = months.last() as int;
        picked_in_months(base, months.drop_last(), rule) + picked_in_month(
            base.year,
            month,
            rule,
            same_day_in(base, month),
        )
    }
}

/// The Monday of the week of `d`, or `d` itself where that Monday is out of range.
pub open spec fn monday_of(d: CivilDate) -> CivilDate {
    let n = day_number(d) - offset_in_week(d);
    if is_day(n) {
        date_on(n)
    } else {
        d
    }
}

/// The weekdays of a list in the week that begins on `monday`.
pub open spec fn picked_in_week(monday: CivilDate, days: Seq<ByDay>) -> Seq<CivilDate>
    decreases days.len(),
{
    if days.len() == 0 {
        Seq::empty()
    } else {
        let earlier = picked_in_week(monday, days.drop_last());
        let n = day_number(monday) + weekday_offset(days.last().1);
        if is_day(n) {
            earlier.push(date_on(n))
        } else {
            earlier
        }
    }
}

/// The months that a yearly rule looks at.
pub open spec fn months_of(base: CivilDate, rule: RuleModel) -> Seq<u8> {
    if rule.by_month.len() > 0 {
        rule.by_month
    } else {
        seq![base.month as u8]
    }
}

/// The dates that a rule picks out of the period of `base`, in the order of the rule.
pub open spec fn picked(base: CivilDate, rule: RuleModel) -> Seq<CivilDate> {
    match rule.freq {
        Some(RRuleFreq::Weekly) => if rule.by_day.len() > 0 {
            picked_in_week(monday_of(base), rule.by_day)
        } else {
            seq![base]
        },
        Some(RRuleFreq::Monthly) => picked_in_month(base.year, base.month, rule, seq![base]),
        Some(RRuleFreq::Yearly) => picked_in_months(base, months_of(base, rule), rule),
        _ => seq![base],
    }
}

pub open spec fn date_key() -> spec_fn(CivilDate) -> int {
    |d: CivilDate| day_number(d)
}

/// The dates that a rule picks out of the period of `base`, from the earliest.
pub open spec fn period_dates(base: CivilDate, rule: RuleModel) -> Seq<CivilDate> {
    stable_sorted(picked(base, rule), date_key())
}

// ── The months ─────────────────────────────────────────────────────

/// The number of days in a month.
pub fn days_in_month(year: i16, month: u8) -> (r: u8)
    ensures
        r == days_of_month(year as int, month as int),
{
    let m: i8 = if month < 1 {
        1
    } else if month > 12 {
        12
    } else {
        month as i8
    };
    if m == 12 {
        return if -9999 <= year && year <= 9999 {
            31
        } else {
            30
        };
    }
    match (Date::new(year, m, 1), Date::new(year, m + 1, 1)) {
        (Some(first), Some(after)) => {
            proof {
                lemma_first_days(year as int, m as int);
            }
            after.days_since(first) as u8
        },
        _ => 30,
    }
}

/// The dates of a month that a weekday with an optional number stands for.
/// `ordinal`: None = all matching days, Some(n) = nth (1-based, negative counts from end).
pub fn nth_weekday_in_month(year: i16, month: u8, weekday: Weekday, ordinal: Option<i8>) -> (r: Vec<
    Date,
>)
    ensures
        dates_view(r@) == weekdays_of_month(year as int, month as int, (ordinal, weekday)),
{
    let length: u8 = days_in_month(year, month);
    let m: i8 = if month <= 12 {
        month as i8
    } else {
        0
    };
    let mut found: Vec<Date> = Vec::new();
    let mut day: u8 = 1;
    proof {
        assert(dates_view(found@) =~= Seq::<CivilDate>::empty());
    }
    while day <= length
        invariant
            1 <= day <= length + 1,
            length <= 31,
            m == (if month <= 12 {
                month as int
            } else {
                0
            }),
            dates_view(found@) == matching_days(year as int, month as int, weekday, day - 1),
            found@.len() < day,
        decreases length + 1 - day,
    {
        let ghost earlier = found@;
        if let Some(d) = Date::new(year, m, day as i8) {
            if d.weekday().to_monday_zero_offset() == weekday.to_monday_zero_offset() {
                found.push(d);
                proof {
                    assert(dates_view(found@) =~= dates_view(earlier).push(d@));
                }
            }
        }
        day = day + 1;
    }
    let ghost all = dates_view(found@);
    let n: i8 = match ordinal {
        None => {
            return found;
        },
        Some(n) => n,
    };
    let at: i64 = if n == 0 {
        0
    } else if n > 0 {
        n as i64 - 1
    } else {
        found.len() as i64 + n as i64
    };
    let mut r: Vec<Date> = Vec::new();
    if 0 <= at && at < found.len() as i64 {
        r.push(found[at as usize]);
    }
    proof {
        assert(dates_view(r@) =~= item_at(all, at as int));
    }
    r
}

fn pick_weekdays(year: i16, month: u8, days: &Vec<ByDay>, dates: &mut Vec<Date>)
    ensures
        dates_view(final(dates)@) == dates_view(old(dates)@) + all_weekdays(
            year as int,
            month as int,
            days@,
        ),
{
    let ghost start = dates_view(dates@);
    let mut i: usize = 0;
    proof {
        assert(days@.take(0) =~= Seq::<ByDay>::empty());
        assert(start =~= start + Seq::<CivilDate>::empty());
    }
    while i < days.len()
        invariant
            i <= days@.len(),
            dates_view(dates@) == start + all_weekdays(
                year as int,
                month as int,
                days@.take(i as int),
            ),
        decreases days@.len() - i,
    {
        let ghost earlier = dates@;
        let mut found = nth_weekday_in_month(year, month, days[i].1, days[i].0);
        let ghost added = found@;
        dates.append(&mut found);
        proof {
            assert(days@.take(i + 1).drop_last() =~= days@.take(i as int));
            assert(dates_view(dates@) =~= dates_view(earlier) + dates_view(added));
            assert(days@.take(i + 1).last() == days@[i as int]);
            assert(dates_view(dates@) =~= start + all_weekdays(
                year as int,
                month as int,
                days@.take(i + 1),
            ));
        }
        i = i + 1;
    }
    proof {
        assert(days@.take(i as int) =~= days@);
    }
}

fn pick_month_days(year: i16, month: u8, days: &Vec<i8>, dates: &mut Vec<Date>)
    ensures
        dates_view(final(dates)@) == dates_view(old(dates)@) + all_month_days(
            year as int,
            month as int,
            days@,
        ),
{
    let ghost start = dates_view(dates@);
    let length: u8 = days_in_month(year, month);
    let m: i8 = if month <= 12 {
        month as i8
    } else {
        0
    };
    let mut i: usize = 0;
    proof {
        assert(days@.take(0) =~= Seq::<i8>::empty());
        assert(start =~= start + Seq::<CivilDate>::empty());
    }
    while i < days.len()
        invariant
            i <= days@.len(),
            length == days_of_month(year as int, month as int),
            28 <= length <= 31,
            m == (if month <= 12 {
                month as int
            } else {
                0
            }),
            dates_view(dates@) == start + all_month_days(
                year as int,
                month as int,
                days@.take(i as int),
            ),
        decreases days@.len() - i,
    {
        let ghost earlier = dates@;
        let n: i16 = days[i] as i16;
        let day: i16 = if n > 0 {
            n
        } else {
            length as i16 + 1 + n
        };
        proof {
            assert(days@.take(i + 1).drop_last() =~= days@.take(i as int));
            assert(days@.take(i + 1).last() == days@[i as int]);
        }
        if 1 <= day && day <= length as i16 {
            if let Some(d) = Date::new(year, m, day as i8) {
                dates.push(d);
                proof {
                    assert(dates_view(dates@) =~= dates_view(earlier) + seq![d@]);
                }
            }
        }
        proof {
            assert(dates_view(dates@) =~= dates_view(earlier) + month_day(
                year as int,
                month as int,
                days@[i as int],
            ));
            assert(dates_view(dates@) =~= start + all_month_days(
                year as int,
                month as int,
                days@.take(i + 1),
            ));
        }
        i = i + 1;
    }
    proof {
        assert(days@.take(i as int) =~= days@);
    }
}

fn pick_week(monday: Date, days: &Vec<ByDay>, dates: &mut Vec<Date>)
    ensures
        dates_view(final(dates)@) == dates_view(old(dates)@) + picked_in_week(monday@, days@),
{
    let ghost start = dates_view(dates@);
    let mut i: usize = 0;
    proof {
        assert(days@.take(0) =~= Seq::<ByDay>::empty());
        assert(start =~= start + Seq::<CivilDate>::empty());
    }
    while i < days.len()
        invariant
            i <= days@.len(),
            dates_view(dates@) == start + picked_in_week(monday@, days@.take(i as int)),
        decreases days@.len() - i,
    {
        let ghost earlier = dates@;
        let offset: i8 = days[i].1.to_monday_zero_offset();
        proof {
            assert(days@.take(i + 1).drop_last() =~= days@.take(i as int));
            assert(days@.take(i + 1).last() == days@[i as int]);
        }
        if let Some(d) = monday.plus(Step::Days(offset as i32)) {
            dates.push(d);
            proof {
                assert(dates_view(dates@) =~= dates_view(earlier).push(d@));
            }
        }
        proof {
            assert(dates_view(dates@) =~= start + picked_in_week(monday@, days@.take(i + 1)));
        }
        i = i + 1;
    }
    proof {
        assert(days@.take(i as int) =~= days@);
    }
}

fn pick_month(year: i16, month: u8, rule: &ParsedRRule, otherwise: Option<Date>, dates: &mut Vec<Date>)
    ensures
        dates_view(final(dates)@) == dates_view(old(dates)@) + picked_in_month(
            year as int,
            month as int,
            rule@,
            match otherwise {
                Some(d) => seq![d@],
                None => Seq::empty(),
            },
        ),
{
    let ghost start = dates@;
    if rule.by_monthday.len() > 0 {
        pick_month_days(year, month, &rule.by_monthday, dates);
    } else if rule.by_day.len() > 0 {
        pick_weekdays(year, month, &rule.by_day, dates);
    } else if let Some(d) = otherwise {
        dates.push(d);
        proof {
            assert(dates_view(dates@) =~= dates_view(start) + seq![d@]);
        }
    } else {
        proof {
            assert(dates_view(dates@) =~= dates_view(start) + Seq::<CivilDate>::empty());
        }
    }
}

impl Keyed for Date {
    open spec fn key(&self) -> int {
        day_number(self@)
    }

    fn is_after(&self, other: &Date) -> (r: bool) {
        proof {
            use_type_invariant(self);
            use_type_invariant(other);
            lemma_day_numbers_keep_order(other@, self@);
        }
        other.is_before(*self)
    }
}

/// Expand BYDAY/BYMONTH/BYMONTHDAY within a single recurrence period starting at `base`.
pub fn expand_by_rules(base: Date, rule: &ParsedRRule) -> (r: Vec<Date>)
    ensures
        dates_view(r@) == period_dates(base@, rule@),
{
    let mut dates: Vec<Date> = Vec::new();
    let year: i16 = base.year();
    let ghost none = Seq::<CivilDate>::empty();
    proof {
        assert(dates_view(dates@) =~= none);
        assert(none + picked(base@, rule@) =~= picked(base@, rule@));
    }
    match rule.freq {
        RRuleFreq::Weekly => {
            if rule.by_day.len() > 0 {
                let offset: i8 = base.weekday().to_monday_zero_offset();
                let monday = match base.plus(Step::Days(-(offset as i32))) {
                    Some(d) => d,
                    None => base,
                };
                pick_week(monday, &rule.by_day, &mut dates);
            } else {
                dates.push(base);
            }
        },
        RRuleFreq::Monthly => {
            pick_month(year, base.month() as u8, rule, Some(base), &mut dates);
        },
        RRuleFreq::Yearly => {
            let mut this_month: Vec<u8> = Vec::new();
            this_month.push(base.month() as u8);
            let months: &Vec<u8> = if rule.by_month.len() > 0 {
                &rule.by_month
            } else {
                &this_month
            };
            proof {
                assert(this_month@ =~= seq![base@.month as u8]);
                assert(months@ =~= months_of(base@, rule@));
                assert(months@.take(0) =~= Seq::<u8>::empty());
            }
            let mut i: usize = 0;
            while i < months.len()
                invariant
                    i <= months@.len(),
                    year == base@.year,
                    valid_date(base@),
                    dates_view(dates@) == picked_in_months(base@, months@.take(i as int), rule@),
                decreases months@.len() - i,
            {
                let month: u8 = months[i];
                let length: i8 = days_in_month(year, month) as i8;
                let day: i8 = if base.day() <= length {
                    base.day()
                } else {
                    length
                };
                let m: i8 = if month <= 12 {
                    month as i8
                } else {
                    0
                };
                let same_day = Date::new(year, m, day);
                let ghost earlier = dates_view(dates@);
                pick_month(year, month, rule, same_day, &mut dates);
                proof {
                    assert(months@.take(i + 1).drop_last() =~= months@.take(i as int));
                    assert(months@.take(i + 1).last() == month);
                }
                i = i + 1;
            }
            proof {
                assert(months@.take(i as int) =~= months@);
            }
        },
        RRuleFreq::Daily => {
            dates.push(base);
        },
    }
    proof {
        assert(dates_view(dates@) =~= picked(base@, rule@));
        let view = |d: Date| d@;
        lemma_sorted_map(dates@, key_of::<Date>(), view, date_key());
    }
    sort(&mut dates);
    dates
}

// ── From period to period ──────────────────────────────────────────

/// The step from one period of a rule to the next; none where it is too long to be taken
/// in one go.
pub open spec fn rule_step(rule: RuleModel) -> Option<Step> {
    let n = rule.interval;
    match rule.freq {
        Some(RRuleFreq::Daily) => if step_fits(Step::Days(n)) {
            Some(Step::Days(n))
        } else {
            None
        },
        Some(RRuleFreq::Weekly) => if -MAX_STEP_DAYS <= 7 * n <= MAX_STEP_DAYS {
            Some(Step::Days((7 * n) as i32))
        } else {
            None
        },
        Some(RRuleFreq::Monthly) => if step_fits(Step::Months(n)) {
            Some(Step::Months(n))
        } else {
            None
        },
        Some(RRuleFreq::Yearly) => if step_fits(Step::Years(n)) {
            Some(Step::Years(n))
        } else {
            None
        },
        None => None,
    }
}

/// The start of the period after the one that starts on `current`.
pub open spec fn next_period(current: CivilDate, rule: RuleModel) -> Option<CivilDate> {
    match rule_step(rule) {
        Some(step) => step_target(current, step),
        None => None,
    }
}

/// The start of the next period of a rule.
pub fn advance_date(current: Date, rule: &ParsedRRule) -> (r: Option<Date>)
    ensures
        date_view(r) == next_period(current@, rule@),
{
    let n: i32 = rule.interval;
    let step = match rule.freq {
        RRuleFreq::Daily => if -MAX_STEP_DAYS <= n && n <= MAX_STEP_DAYS {
            Step::Days(n)
        } else {
            return None;
        },
        RRuleFreq::Weekly => {
            let days: i64 = 7 * (n as i64);
            if -(MAX_STEP_DAYS as i64) <= days && days <= MAX_STEP_DAYS as i64 {
                Step::Days(days as i32)
            } else {
                return None;
            }
        },
        RRuleFreq::Monthly => if -MAX_STEP_MONTHS <= n && n <= MAX_STEP_MONTHS {
            Step::Months(n)
        } else {
            return None;
        },
        RRuleFreq::Yearly => if -MAX_STEP_YEARS <= n && n <= MAX_STEP_YEARS {
            Step::Years(n)
        } else {
            return None;
        },
    };
    current.plus(step)
}

// ── The dates of a rule ────────────────────────────────────────────

/// Which dates are asked for: those from `start` to `end` that are not excluded.
pub struct Selection {
    pub start: CivilDate,
    pub end: CivilDate,
    pub excluded: Seq<CivilDate>,
}

/// Whether a date is asked for, given that it is not past the end.
pub open spec fn is_shown(d: CivilDate, sel: Selection) -> bool {
    !before(d, sel.start) && !sel.excluded.contains(d)
}

/// Whether a date is past the end of the selection or of the rule.
pub open spec fn is_past(d: CivilDate, rule: RuleModel, sel: Selection) -> bool {
    before(sel.end, d) || (rule.until is Some && before(rule.until->0, d))
}

pub open spec fn has_by_rules(rule: RuleModel) -> bool {
    rule.by_day.len() > 0 || rule.by_month.len() > 0 || rule.by_monthday.len() > 0
}

/// The dates of the period that starts on `current`.
pub open spec fn dates_of_period(current: CivilDate, rule: RuleModel) -> Seq<CivilDate> {
    if has_by_rules(rule) {
        period_dates(current, rule)
    } else {
        seq![current]
    }
}

/// How many of the dates count: up to the first that is past the end, and no more than
/// are left.
pub open spec fn number_counted(
    dates: Seq<CivilDate>,
    left: Option<int>,
    rule: RuleModel,
    sel: Selection,
) -> nat
    decreases dates.len(),
{
    if dates.len() == 0 || is_past(dates[0], rule, sel) || (left is Some && left->0 <= 0) {
        0
    } else {
        1 + number_counted(dates.skip(1), less(left, 1), rule, sel)
    }
}

/// What is left of a count when `n` are used.
pub open spec fn less(left: Option<int>, n: nat) -> Option<int> {
    match left {
        Some(k) => Some(k - n),
        None => None,
    }
}

/// The dates that a rule gives in at most `periods` periods from the one that starts on
/// `current`, with `left` still to come. A date counts though it is not shown.
pub open spec fn rule_dates(
    current: CivilDate,
    periods: nat,
    left: Option<int>,
    rule: RuleModel,
    sel: Selection,
) -> Seq<CivilDate>
    decreases periods,
{
    if periods == 0 || is_past(current, rule, sel) {
        Seq::empty()
    } else {
        let dates = dates_of_period(current, rule);
        let n = number_counted(dates, left, rule, sel);
        let here = dates.take(n as int).filter(|d: CivilDate| is_shown(d, sel));
        match next_period(current, rule) {
            Some(next) => here + rule_dates(next, (periods - 1) as nat, less(left, n), rule, sel),
            None => here,
        }
    }
}

/// The number of periods after which an expansion stops.
pub const MAX_PERIODS: u32 = 1000;

pub open spec fn count_of(rule: RuleModel) -> Option<int> {
    match rule.count {
        Some(n) => Some(n as int),
        None => None,
    }
}

/// The dates of a rule for an event on the date `first`.
pub open spec fn recurrence_dates(first: CivilDate, rule: RuleModel, sel: Selection) -> Seq<
    CivilDate,
> {
    rule_dates(first, MAX_PERIODS as nat, count_of(rule), rule, sel)
}

/// The dates of a list that are asked for, other than `first`.
pub open spec fn extra_dates(first: CivilDate, extra: Seq<CivilDate>, sel: Selection) -> Seq<
    CivilDate,
> {
    extra.filter(|d: CivilDate| is_extra(d, first, sel))
}

pub open spec fn is_extra(d: CivilDate, first: CivilDate, sel: Selection) -> bool {
    is_shown(d, sel) && !before(sel.end, d) && d != first
}

/// Whether a date is in a list.
fn is_listed(d: Date, dates: &Vec<Date>) -> (r: bool)
    ensures
        r == dates_view(dates@).contains(d@),
{
    let mut i: usize = 0;
    while i < dates.len()
        invariant
            i <= dates@.len(),
            forall|j: int| 0 <= j < i ==> #[trigger] dates@[j]@ != d@,
        decreases dates@.len() - i,
    {
        if dates[i].is_same(d) {
            proof {
                assert(dates_view(dates@)[i as int] == d@);
            }
            return true;
        }
        i = i + 1;
    }
    proof {
        if dates_view(dates@).contains(d@) {
            let j = choose|j: int|
                0 <= j < dates_view(dates@).len() && dates_view(dates@)[j] == d@;
            assert(dates@[j]@ == d@);
        }
    }
    false
}

pub open spec fn selection(start: Date, end: Date, excluded: Seq<Date>) -> Selection {
    Selection { start: start@, end: end@, excluded: dates_view(excluded) }
}

fn past(d: Date, rule: &ParsedRRule, end: Date, Ghost(sel): Ghost<Selection>) -> (r: bool)
    requires
        sel.end == end@,
    ensures
        r == is_past(d@, rule@, sel),
{
    if end.is_before(d) {
        return true;
    }
    match rule.until {
        Some(until) => until.is_before(d),
        None => false,
    }
}

pub open spec fn left_view(left: Option<i32>) -> Option<int> {
    match left {
        Some(n) => Some(n as int),
        None => None,
    }
}

/// Appends the dates of one period that count and are shown, and takes those that count
/// off what is left.
fn add_period(
    dates: &Vec<Date>,
    left: &mut Option<i32>,
    rule: &ParsedRRule,
    start: Date,
    end: Date,
    excluded: &Vec<Date>,
    out: &mut Vec<Date>,
)
    ensures
        ({
            let sel = selection(start, end, excluded@);
            let n = number_counted(dates_view(dates@), left_view(*old(left)), rule@, sel);
            &&& dates_view(final(out)@) == dates_view(old(out)@) + dates_view(dates@).take(
                n as int,
            ).filter(|d: CivilDate| is_shown(d, sel))
            &&& left_view(*final(left)) == less(left_view(*old(left)), n)
        }),
{
    let ghost sel = selection(start, end, excluded@);
    let ghost all = dates_view(dates@);
    let ghost left0 = left_view(*left);
    let ghost out0 = dates_view(out@);
    let ghost shown = |d: CivilDate| is_shown(d, sel);
    let mut i: usize = 0;
    proof {
        reveal(Seq::filter);
        assert(all.skip(0) =~= all);
        assert(all.take(0) =~= Seq::<CivilDate>::empty());
        assert(all.take(0).filter(shown) =~= Seq::<CivilDate>::empty());
        assert(out0 =~= out0 + Seq::<CivilDate>::empty());
    }
    while i < dates.len()
        invariant_except_break
            i <= dates@.len(),
            number_counted(all, left0, rule@, sel) == i + number_counted(
                all.skip(i as int),
                less(left0, i as nat),
                rule@,
                sel,
            ),
        invariant
            sel == selection(start, end, excluded@),
            all == dates_view(dates@),
            shown == |d: CivilDate| is_shown(d, sel),
            dates_view(out@) == out0 + all.take(i as int).filter(shown),
            left_view(*left) == less(left0, i as nat),
        ensures
            number_counted(all, left0, rule@, sel) == i,
            i <= dates@.len(),
        decreases dates@.len() - i,
    {
        let d = dates[i];
        let ghost rest = all.skip(i as int);
        proof {
            assert(rest[0] == d@);
            assert(rest.skip(1) =~= all.skip(i + 1));
        }
        if past(d, rule, end, Ghost(sel)) {
            break;
        }
        if let Some(n) = *left {
            if n <= 0 {
                break;
            }
            *left = Some(n - 1);
        }
        let ghost out1 = dates_view(out@);
        if !d.is_before(start) && !is_listed(d, excluded) {
            out.push(d);
            proof {
                assert(dates_view(out@) =~= out1.push(d@));
            }
        }
        proof {
            reveal(Seq::filter);
            assert(all.take(i + 1).drop_last() =~= all.take(i as int));
            assert(all.take(i + 1).last() == d@);
            assert(dates_view(out@) =~= out0 + all.take(i + 1).filter(shown));
        }
        i = i + 1;
    }
}

/// The dates on which an event on the date `first` recurs by a rule, among those from
/// `start` to `end` that are not excluded.
pub fn dates_of_rule(first: Date, rule: &ParsedRRule, start: Date, end: Date, excluded: &Vec<Date>)
    -> (r: Vec<Date>)
    ensures
        dates_view(r@) == recurrence_dates(first@, rule@, selection(start, end, excluded@)),
{
    let ghost sel = selection(start, end, excluded@);
    let by_rules = rule.by_day.len() > 0 || rule.by_month.len() > 0 || rule.by_monthday.len() > 0;
    let mut out: Vec<Date> = Vec::new();
    let mut current = first;
    let mut left: Option<i32> = rule.count;
    let mut periods: u32 = MAX_PERIODS;
    let ghost whole = recurrence_dates(first@, rule@, sel);
    proof {
        assert(dates_view(out@) =~= Seq::<CivilDate>::empty());
        assert(dates_view(out@) + whole =~= whole);
    }
    while periods > 0
        invariant_except_break
            whole == dates_view(out@) + rule_dates(
                current@,
                periods as nat,
                left_view(left),
                rule@,
                sel,
            ),
        invariant
            sel == selection(start, end, excluded@),
            by_rules == has_by_rules(rule@),
        ensures
            whole == dates_view(out@),
        decreases periods,
    {
        let ghost before = dates_view(out@);
        if past(current, rule, end, Ghost(sel)) {
            proof {
                assert(before + Seq::<CivilDate>::empty() =~= before);
            }
            break;
        }
        let dates = if by_rules {
            expand_by_rules(current, rule)
        } else {
            let mut one: Vec<Date> = Vec::new();
            one.push(current);
            proof {
                assert(dates_view(one@) =~= seq![current@]);
            }
            one
        };
        add_period(&dates, &mut left, rule, start, end, excluded, &mut out);
        periods = periods - 1;
        match advance_date(current, rule) {
            Some(next) => {
                proof {
                    let here = dates_view(out@);
                    let rest = rule_dates(next@, periods as nat, left_view(left), rule@, sel);
                    assert(whole =~= here + rest);
                }
                current = next;
            },
            None => {
                break;
            },
        }
        proof {
            if periods == 0 {
                assert(dates_view(out@) + Seq::<CivilDate>::empty() =~= dates_view(out@));
            }
        }
    }
    out
}

/// The extra dates of an event on the date `first`, among those from `start` to `end`
/// that are not excluded.
pub fn dates_of_list(
    first: Date,
    extra: &Vec<Date>,
    start: Date,
    end: Date,
    excluded: &Vec<Date>,
) -> (r: Vec<Date>)
    ensures
        dates_view(r@) == extra_dates(
            first@,
            dates_view(extra@),
            selection(start, end, excluded@),
        ),
{
    let ghost sel = selection(start, end, excluded@);
    let ghost all = dates_view(extra@);
    let ghost wanted = |d: CivilDate| is_extra(d, first@, sel);
    let mut out: Vec<Date> = Vec::new();
    let mut i: usize = 0;
    proof {
        reveal(Seq::filter);
        assert(all.take(0) =~= Seq::<CivilDate>::empty());
        assert(dates_view(out@) =~= all.take(0).filter(wanted));
    }
    while i < extra.len()
        invariant
            i <= extra@.len(),
            sel == selection(start, end, excluded@),
            all == dates_view(extra@),
            wanted == |d: CivilDate| is_extra(d, first@, sel),
            dates_view(out@) == all.take(i as int).filter(wanted),
        decreases extra@.len() - i,
    {
        let d = extra[i];
        let ghost out1 = dates_view(out@);
        if !d.is_before(start) && !end.is_before(d) && !is_listed(d, excluded) && !d.is_same(
            first,
        ) {
            out.push(d);
            proof {
                assert(dates_view(out@) =~= out1.push(d@));
            }
        }
        proof {
            reveal(Seq::filter);
            assert(all.take(i + 1).drop_last() =~= all.take(i as int));
            assert(all.take(i + 1).last() == d@);
        }
        i = i + 1;
    }
    proof {
        assert(all.take(i as int) =~= all);
    }
    out
}

// ── What holds of the dates of a rule ──────────────────────────────

pub(crate) proof fn lemma_number_counted(
    dates: Seq<CivilDate>,
    left: Option<int>,
    rule: RuleModel,
    sel: Selection,
)
    ensures
        number_counted(dates, left, rule, sel) <= dates.len(),
        left is Some ==> number_counted(dates, left, rule, sel) <= (if left->0 > 0 {
            left->0
        } else {
            0
        }),
        forall|i: int|
            0 <= i < number_counted(dates, left, rule, sel) ==> !is_past(
                #[trigger] dates[i],
                rule,
                sel,
            ),
    decreases dates.len(),
{
    if !(dates.len() == 0 || is_past(dates[0], rule, sel) || (left is Some && left->0 <= 0)) {
        lemma_number_counted(dates.skip(1), less(left, 1), rule, sel);
        assert forall|i: int| 0 <= i < number_counted(dates, left, rule, sel) implies !is_past(
            #[trigger] dates[i],
            rule,
            sel,
        ) by {
            if i > 0 {
                assert(dates[i] == dates.skip(1)[i - 1]);
            }
        }
    }
}

pub(crate) proof fn lemma_rule_dates(
    current: CivilDate,
    periods: nat,
    left: Option<int>,
    rule: RuleModel,
    sel: Selection,
)
    ensures
        forall|i: int|
            0 <= i < rule_dates(current, periods, left, rule, sel).len() ==> {
                let d = #[trigger] rule_dates(current, periods, left, rule, sel)[i];
                is_shown(d, sel) && !is_past(d, rule, sel)
            },
        left is Some ==> rule_dates(current, periods, left, rule, sel).len() <= (if left->0 > 0 {
            left->0
        } else {
            0
        }),
        !has_by_rules(rule) ==> rule_dates(current, periods, left, rule, sel).len() <= periods,
    decreases periods,
{
    if !(periods == 0 || is_past(current, rule, sel)) {
        let dates = dates_of_period(current, rule);
        let n = number_counted(dates, left, rule, sel);
        lemma_number_counted(dates, left, rule, sel);
        let shown = |d: CivilDate| is_shown(d, sel);
        let counted = dates.take(n as int);
        let here = counted.filter(shown);
        lemma_filter(counted, shown);
        let all = rule_dates(current, periods, left, rule, sel);
        let rest = match next_period(current, rule) {
            Some(next) => {
                lemma_rule_dates(next, (periods - 1) as nat, less(left, n), rule, sel);
                rule_dates(next, (periods - 1) as nat, less(left, n), rule, sel)
            },
            None => Seq::empty(),
        };
        assert(all =~= here + rest);
        assert forall|i: int| 0 <= i < all.len() implies ({
            let d = #[trigger] all[i];
            is_shown(d, sel) && !is_past(d, rule, sel)
        }) by {
            if i < here.len() {
                let k = choose|k: int| 0 <= k < counted.len() && counted[k] == here[i];
                assert(counted[k] == dates[k]);
                assert(shown(here[i]));
            } else {
                assert(all[i] == rest[i - here.len()]);
            }
        }
    }
}

pub(crate) proof fn lemma_filter(s: Seq<CivilDate>, keep: spec_fn(CivilDate) -> bool)
    ensures
        s.filter(keep).len() <= s.len(),
        forall|i: int|
            0 <= i < s.filter(keep).len() ==> keep(#[trigger] s.filter(keep)[i]) && s.contains(
                s.filter(keep)[i],
            ),
    decreases s.len(),
{
    reveal(Seq::filter);
    if s.len() > 0 {
        let front = s.drop_last();
        lemma_filter(front, keep);
        let r = s.filter(keep);
        assert forall|i: int| 0 <= i < r.len() implies keep(#[trigger] r[i]) && s.contains(
            r[i],
        ) by {
            if i < front.filter(keep).len() {
                assert(r[i] == front.filter(keep)[i]);
                let k = choose|k: int| 0 <= k < front.len() && front[k] == r[i];
                assert(s[k] == r[i]);
            } else {
                assert(r[i] == s[s.len() - 1]);
            }
        }
    }
}

/// Whether every item of a list is a date that exists.
pub open spec fn all_exist(dates: Seq<CivilDate>) -> bool {
    forall|i: int| 0 <= i < dates.len() ==> valid_date(#[trigger] dates[i])
}

proof fn lemma_matching_days_exist(year: int, month: int, weekday: Weekday, upto: int)
    ensures
        all_exist(matching_days(year, month, weekday, upto)),
    decreases upto,
{
    if upto > 0 {
        lemma_matching_days_exist(year, month, weekday, upto - 1);
    }
}

proof fn lemma_weekdays_exist(year: int, month: int, days: Seq<ByDay>)
    ensures
        all_exist(all_weekdays(year, month, days)),
    decreases days.len(),
{
    if days.len() > 0 {
        lemma_weekdays_exist(year, month, days.drop_last());
        lemma_matching_days_exist(year, month, days.last().1, days_of_month(year, month));
    }
}

proof fn lemma_month_days_exist(year: int, month: int, days: Seq<i8>)
    ensures
        all_exist(all_month_days(year, month, days)),
    decreases days.len(),
{
    if days.len() > 0 {
        lemma_month_days_exist(year, month, days.drop_last());
    }
}

proof fn lemma_months_exist(base: CivilDate, months: Seq<u8>, rule: RuleModel)
    ensures
        all_exist(picked_in_months(base, months, rule)),
    decreases months.len(),
{
    if months.len() > 0 {
        lemma_months_exist(base, months.drop_last(), rule);
        lemma_month_days_exist(base.year, months.last() as int, rule.by_monthday);
        lemma_weekdays_exist(base.year, months.last() as int, rule.by_day);
    }
}

proof fn lemma_week_exists(monday: CivilDate, days: Seq<ByDay>)
    ensures
        all_exist(picked_in_week(monday, days)),
    decreases days.len(),
{
    if days.len() > 0 {
        lemma_week_exists(monday, days.drop_last());
        let n = day_number(monday) + weekday_offset(days.last().1);
        if is_day(n) {
            lemma_day_exists(n);
        }
    }
}

/// The dates that a rule picks out of a period exist, and come in order.
pub proof fn lemma_period_dates(base: CivilDate, rule: RuleModel)
    requires
        valid_date(base),
    ensures
        all_exist(period_dates(base, rule)),
        in_order(period_dates(base, rule), date_key()),
{
    broadcast use vstd::seq_lib::group_to_multiset_ensures;

    let s = picked(base, rule);
    lemma_weekdays_exist(base.year, base.month, rule.by_day);
    lemma_month_days_exist(base.year, base.month, rule.by_monthday);
    lemma_months_exist(base, months_of(base, rule), rule);
    lemma_week_exists(monday_of(base), rule.by_day);
    assert(all_exist(s));
    lemma_sorted(s, date_key());
    let r = period_dates(base, rule);
    assert forall|i: int| 0 <= i < r.len() implies valid_date(#[trigger] r[i]) by {
        assert(r.to_multiset().count(r[i]) > 0);
        assert(s.contains(r[i]));
    }
}

pub(crate) proof fn lemma_next_exists(current: CivilDate, rule: RuleModel)
    requires
        valid_date(current),
    ensures
        next_period(current, rule) is Some ==> valid_date(next_period(current, rule)->0),
{
    if let Some(Step::Days(n)) = rule_step(rule) {
        if is_day(day_number(current) + n) {
            lemma_day_exists(day_number(current) + n);
        }
    }
}

pub(crate) proof fn lemma_rule_dates_exist(
    current: CivilDate,
    periods: nat,
    left: Option<int>,
    rule: RuleModel,
    sel: Selection,
)
    requires
        valid_date(current),
    ensures
        all_exist(rule_dates(current, periods, left, rule, sel)),
    decreases periods,
{
    if !(periods == 0 || is_past(current, rule, sel)) {
        let dates = dates_of_period(current, rule);
        let n = number_counted(dates, left, rule, sel);
        lemma_number_counted(dates, left, rule, sel);
        if has_by_rules(rule) {
            lemma_period_dates(current, rule);
        }
        let counted = dates.take(n as int);
        lemma_filter(counted, |d: CivilDate| is_shown(d, sel));
        lemma_next_exists(current, rule);
        if let Some(next) = next_period(current, rule) {
            lemma_rule_dates_exist(next, (periods - 1) as nat, less(left, n), rule, sel);
        }
    }
}

/// The dates of a rule exist.
pub proof fn lemma_recurrence_exists(first: CivilDate, rule: RuleModel, sel: Selection)
    requires
        valid_date(first),
    ensures
        all_exist(recurrence_dates(first, rule, sel)),
{
    lemma_rule_dates_exist(first, MAX_PERIODS as nat, count_of(rule), rule, sel);
}

/// Every date of a rule lies in the range that is asked for, on or before the end of the
/// rule, and is not excluded.
pub proof fn lemma_recurrence_in_range(first: CivilDate, rule: RuleModel, sel: Selection, i: int)
    requires
        0 <= i < recurrence_dates(first, rule, sel).len(),
    ensures
        ({
            let d = recurrence_dates(first, rule, sel)[i];
            &&& !before(d, sel.start)
            &&& !before(sel.end, d)
            &&& rule.until is Some ==> !before(rule.until->0, d)
            &&& !sel.excluded.contains(d)
        }),
{
    lemma_rule_dates(first, MAX_PERIODS as nat, count_of(rule), rule, sel);
}

/// A rule with a count gives no more dates than it counts.
pub proof fn lemma_recurrence_counts(first: CivilDate, rule: RuleModel, sel: Selection)
    requires
        rule.count is Some,
    ensures
        recurrence_dates(first, rule, sel).len() <= (if rule.count->0 > 0 {
            rule.count->0 as int
        } else {
            0
        }),
{
    lemma_rule_dates(first, MAX_PERIODS as nat, count_of(rule), rule, sel);
}

/// A rule that picks no dates out of its periods gives no more dates than there are
/// periods to look at.
pub proof fn lemma_recurrence_is_capped(first: CivilDate, rule: RuleModel, sel: Selection)
    requires
        !has_by_rules(rule),
    ensures
        recurrence_dates(first, rule, sel).len() <= MAX_PERIODS,
{
    lemma_rule_dates(first, MAX_PERIODS as nat, count_of(rule), rule, sel);
}

/// An extra date lies in the range that is asked for, is not excluded, and comes from the
/// list.
pub proof fn lemma_extra_in_range(
    first: CivilDate,
    extra: Seq<CivilDate>,
    sel: Selection,
    i: int,
)
    requires
        0 <= i < extra_dates(first, extra, sel).len(),
    ensures
        ({
            let d = extra_dates(first, extra, sel)[i];
            &&& !before(d, sel.start)
            &&& !before(sel.end, d)
            &&& !sel.excluded.contains(d)
            &&& d != first
            &&& extra.contains(d)
        }),
{
    let wanted = |d: CivilDate| is_extra(d, first, sel);
    lemma_filter(extra, wanted);
    assert(extra_dates(first, extra, sel) == extra.filter(wanted));
    assert(wanted(extra.filter(wanted)[i]));
}

/// Whether a date is not before another.
pub open spec fn is_from(start: CivilDate) -> spec_fn(CivilDate) -> bool {
    |d: CivilDate| !before(d, start)
}

/// The selection that starts on a date.
pub open spec fn starting(sel: Selection, start: CivilDate) -> Selection {
    Selection { start, ..sel }
}

proof fn lemma_filtered_twice(
    s: Seq<CivilDate>,
    one: spec_fn(CivilDate) -> bool,
    two: spec_fn(CivilDate) -> bool,
    both: spec_fn(CivilDate) -> bool,
)
    requires
        forall|d: CivilDate| #[trigger] both(d) <==> one(d) && two(d),
    ensures
        s.filter(one).filter(two) == s.filter(both),
    decreases s.len(),
{
    reveal(Seq::filter);
    if s.len() > 0 {
        let front = s.drop_last();
        let d = s.last();
        lemma_filtered_twice(front, one, two, both);
        assert(both(d) <==> one(d) && two(d));
        if one(d) {
            assert(s.filter(one) =~= front.filter(one).push(d));
            assert(front.filter(one).push(d).drop_last() =~= front.filter(one));
        }
    }
}

proof fn lemma_number_counted_from(
    dates: Seq<CivilDate>,
    left: Option<int>,
    rule: RuleModel,
    sel: Selection,
    start: CivilDate,
)
    ensures
        number_counted(dates, left, rule, starting(sel, start)) == number_counted(
            dates,
            left,
            rule,
            sel,
        ),
    decreases dates.len(),
{
    if dates.len() > 0 {
        lemma_number_counted_from(dates.skip(1), less(left, 1), rule, sel, start);
    }
}

proof fn lemma_rule_dates_from(
    current: CivilDate,
    periods: nat,
    left: Option<int>,
    rule: RuleModel,
    sel: Selection,
    start: CivilDate,
)
    requires
        !before(start, sel.start),
    ensures
        rule_dates(current, periods, left, rule, starting(sel, start)) == rule_dates(
            current,
            periods,
            left,
            rule,
            sel,
        ).filter(is_from(start)),
    decreases periods,
{
    let later = starting(sel, start);
    let from = is_from(start);
    if periods == 0 || is_past(current, rule, sel) {
        reveal(Seq::filter);
        assert(Seq::<CivilDate>::empty().filter(from) =~= Seq::<CivilDate>::empty());
    } else {
        let dates = dates_of_period(current, rule);
        let n = number_counted(dates, left, rule, sel);
        lemma_number_counted_from(dates, left, rule, sel, start);
        let shown = |d: CivilDate| is_shown(d, sel);
        let still = |d: CivilDate| is_shown(d, later);
        let counted = dates.take(n as int);
        lemma_filtered_twice(counted, shown, from, still);
        if let Some(next) = next_period(current, rule) {
            lemma_rule_dates_from(next, (periods - 1) as nat, less(left, n), rule, sel, start);
            let rest = rule_dates(next, (periods - 1) as nat, less(left, n), rule, sel);
            Seq::filter_distributes_over_add(counted.filter(shown), rest, from);
        }
    }
}

/// A later start only drops dates of a rule: what comes before it counts all the same, so
/// that no date is added or moved.
pub proof fn lemma_later_start(first: CivilDate, rule: RuleModel, sel: Selection, start: CivilDate)
    requires
        !before(start, sel.start),
    ensures
        recurrence_dates(first, rule, starting(sel, start)) == recurrence_dates(
            first,
            rule,
            sel,
        ).filter(is_from(start)),
{
    lemma_rule_dates_from(first, MAX_PERIODS as nat, count_of(rule), rule, sel, start);
}

/// A later start only drops extra dates.
pub proof fn lemma_later_start_of_extra(
    first: CivilDate,
    extra: Seq<CivilDate>,
    sel: Selection,
    start: CivilDate,
)
    requires
        !before(start, sel.start),
    ensures
        extra_dates(first, extra, starting(sel, start)) == extra_dates(first, extra, sel).filter(
            is_from(start),
        ),
{
    let later = starting(sel, start);
    lemma_filtered_twice(
        extra,
        |d: CivilDate| is_extra(d, first, sel),
        is_from(start),
        |d: CivilDate| is_extra(d, first, later),
    );
}

/// How many days of a daily rule there are from `day` on: up to the last day that is
/// asked for and is in the rule, and no more than are left.
pub open spec fn daily_length(
    day: int,
    periods: nat,
    left: Option<int>,
    interval: int,
    last: int,
) -> nat
    decreases periods,
{
    if periods == 0 || day > last || (left is Some && left->0 <= 0) {
        0
    } else {
        1 + daily_length(day + interval, (periods - 1) as nat, less(left, 1), interval, last)
    }
}

proof fn lemma_daily_dates(
    current: CivilDate,
    periods: nat,
    left: Option<int>,
    rule: RuleModel,
    sel: Selection,
    last: int,
)
    requires
        rule.freq == Some(RRuleFreq::Daily),
        1 <= rule.interval <= MAX_STEP_DAYS,
        !has_by_rules(rule),
        valid_date(current),
        valid_date(sel.start),
        valid_date(sel.end),
        rule.until is Some ==> valid_date(rule.until->0),
        !before(current, sel.start),
        sel.excluded.len() == 0,
        last == (if rule.until is Some && before(rule.until->0, sel.end) {
            day_number(rule.until->0)
        } else {
            day_number(sel.end)
        }),
    ensures
        rule_dates(current, periods, left, rule, sel).len() == daily_length(
            day_number(current),
            periods,
            left,
            rule.interval as int,
            last,
        ),
        forall|i: int|
            0 <= i < rule_dates(current, periods, left, rule, sel).len() ==> day_number(
                #[trigger] rule_dates(current, periods, left, rule, sel)[i],
            ) == day_number(current) + rule.interval * i,
    decreases periods,
{
    let all = rule_dates(current, periods, left, rule, sel);
    lemma_day_numbers_keep_order(sel.end, current);
    if rule.until is Some {
        lemma_day_numbers_keep_order(rule.until->0, current);
        lemma_day_numbers_keep_order(rule.until->0, sel.end);
    }
    assert(is_past(current, rule, sel) <==> day_number(current) > last);
    if !(periods == 0 || is_past(current, rule, sel)) {
        let dates = seq![current];
        assert(dates_of_period(current, rule) == dates);
        let n = number_counted(dates, left, rule, sel);
        let shown = |d: CivilDate| is_shown(d, sel);
        reveal(Seq::filter);
        assert(dates.skip(1) =~= Seq::<CivilDate>::empty());
        assert(number_counted(dates.skip(1), less(left, 1), rule, sel) == 0);
        assert(dates.take(1) =~= dates);
        assert(dates.take(0) =~= Seq::<CivilDate>::empty());
        assert(dates.drop_last() =~= Seq::<CivilDate>::empty());
        let here = dates.take(n as int).filter(shown);
        assert(shown(current));
        assert(here =~= dates.take(n as int));
        let day = day_number(current) + rule.interval;
        lemma_next_day(current, rule);
        let left1 = less(left, n);
        match next_period(current, rule) {
            Some(next) => {
                lemma_day_numbers_keep_order(current, next);
                if before(next, sel.start) {
                    lemma_day_numbers_keep_order(next, sel.start);
                    lemma_day_numbers_keep_order(current, sel.start);
                }
                lemma_daily_dates(next, (periods - 1) as nat, left1, rule, sel, last);
                let rest = rule_dates(next, (periods - 1) as nat, left1, rule, sel);
                assert(all =~= here + rest);
                if n == 0 {
                    assert(left is Some && left->0 <= 0);
                    lemma_rule_dates(next, (periods - 1) as nat, left1, rule, sel);
                } else {
                    assert forall|i: int| 0 <= i < all.len() implies day_number(
                        #[trigger] all[i],
                    ) == day_number(current) + rule.interval * i by {
                        if i > 0 {
                            assert(all[i] == rest[i - 1]);
                            assert(rule.interval * i == rule.interval + rule.interval * (i - 1))
                                by (nonlinear_arith);
                        } else {
                            assert(here[0] == current);
                            assert(all[i] == here[i]);
                            assert(rule.interval * i == 0) by (nonlinear_arith)
                                requires
                                    i == 0,
                            ;
                        }
                    }
                }
            },
            None => {
                assert(all =~= here);
                assert forall|i: int| 0 <= i < all.len() implies day_number(#[trigger] all[i])
                    == day_number(current) + rule.interval * i by {
                    assert(i == 0 && rule.interval * i == 0);
                }
                assert(day > last) by {
                    crate::time::lemma_valid_is_day(sel.end);
                    if rule.until is Some {
                        crate::time::lemma_valid_is_day(rule.until->0);
                    }
                    crate::time::lemma_valid_is_day(current);
                }
                assert(daily_length(
                    day,
                    (periods - 1) as nat,
                    less(left, 1),
                    rule.interval as int,
                    last,
                ) == 0);
            },
        }
    }
}

proof fn lemma_next_day(current: CivilDate, rule: RuleModel)
    requires
        rule.freq == Some(RRuleFreq::Daily),
        1 <= rule.interval <= MAX_STEP_DAYS,
        valid_date(current),
    ensures
        match next_period(current, rule) {
            Some(next) => valid_date(next) && day_number(next) == day_number(current)
                + rule.interval,
            None => !is_day(day_number(current) + rule.interval),
        },
{
    let n = day_number(current) + rule.interval;
    if is_day(n) {
        crate::time::lemma_day_exists(n);
    }
}

/// A daily rule falls on every `interval`-th day from the first, without a gap, as often
/// as it counts and up to the last day that is asked for and is in the rule.
pub proof fn lemma_daily_rule(first: CivilDate, rule: RuleModel, sel: Selection, last: int)
    requires
        rule.freq == Some(RRuleFreq::Daily),
        1 <= rule.interval <= MAX_STEP_DAYS,
        !has_by_rules(rule),
        valid_date(first),
        valid_date(sel.start),
        valid_date(sel.end),
        rule.until is Some ==> valid_date(rule.until->0),
        !before(first, sel.start),
        sel.excluded.len() == 0,
        last == (if rule.until is Some && before(rule.until->0, sel.end) {
            day_number(rule.until->0)
        } else {
            day_number(sel.end)
        }),
    ensures
        recurrence_dates(first, rule, sel).len() == daily_length(
            day_number(first),
            MAX_PERIODS as nat,
            count_of(rule),
            rule.interval as int,
            last,
        ),
        forall|i: int|
            0 <= i < recurrence_dates(first, rule, sel).len() ==> day_number(
                #[trigger] recurrence_dates(first, rule, sel)[i],
            ) == day_number(first) + rule.interval * i,
{
    lemma_daily_dates(first, MAX_PERIODS as nat, count_of(rule), rule, sel, last);
}

} // verus!
