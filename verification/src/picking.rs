//! Which dates a recurrence rule picks out of a period.

use crate::periods::{day_within, month_count};
use crate::recurrence::{
    all_month_days, all_weekdays, date_key, days_of_month, matching_days, monday_of, month_day,
    months_of, period_dates, picked, picked_in_month, picked_in_months, picked_in_week, same_day_in,
    weekdays_of_month,
};
use crate::rule::{ByDay, RRuleFreq, RuleModel};
use crate::sorting::{lemma_sorted, stable_sorted};
use crate::time::{
    date_on, day_number, is_day, lemma_date_on, lemma_day_exists, lemma_valid_is_day, month_length,
    offset_in_week, valid_date, weekday_offset, CivilDate, Weekday,
};
use vstd::prelude::*;

verus! {

// ── The weekdays of a month ────────────────────────────────────────

/// Whether a date falls on a weekday.
pub open spec fn is_on(d: CivilDate, weekday: Weekday) -> bool {
    offset_in_week(d) == weekday_offset(weekday)
}

/// Whether a date is one that a weekday with an optional number stands for in its month: any
/// without a number, the first for 0, the one in the `n`-th seven days of the month for a
/// positive number, and the one in the `n`-th last seven days for a negative one.
pub open spec fn is_picked_weekday(d: CivilDate, day: ByDay) -> bool {
    &&& is_on(d, day.1)
    &&& match day.0 {
        None => true,
        Some(n) => if n == 0 {
            1 <= d.day <= 7
        } else if n > 0 {
            7 * (n - 1) < d.day <= 7 * n
        } else {
            7 * (-n - 1) <= month_length(d.year, d.month) - d.day < 7 * -n
        },
    }
}

/// Whether a date is one that a number stands for in its month, from the end where it is
/// negative: -1 is the last day.
pub open spec fn is_picked_day(d: CivilDate, n: i8) -> bool {
    d.day == n || d.day - month_length(d.year, d.month) - 1 == n
}

proof fn lemma_weekdays_repeat(year: int, month: int, a: int, b: int)
    ensures
        offset_in_week(CivilDate { year, month, day: a }) == offset_in_week(
            CivilDate { year, month, day: b },
        ) <==> (b - a) % 7 == 0,
{
    let x = day_number(CivilDate { year, month, day: a }) - 1;
    let y = day_number(CivilDate { year, month, day: b }) - 1;
    assert(y - x == b - a);
    assert(x % 7 == y % 7 <==> (y - x) % 7 == 0);
}

proof fn lemma_matching(year: int, month: int, weekday: Weekday, upto: int)
    requires
        -9999 <= year <= 9999,
        1 <= month <= 12,
        0 <= upto <= month_length(year, month),
    ensures
        ({
            let m = matching_days(year, month, weekday, upto);
            &&& forall|i: int|
                0 <= i < m.len() ==> {
                    &&& (#[trigger] m[i]).year == year
                    &&& m[i].month == month
                    &&& valid_date(m[i])
                    &&& is_on(m[i], weekday)
                    &&& m[i].day == m[0].day + 7 * i
                    &&& 7 * i < m[i].day <= 7 * (i + 1)
                }
            &&& m.len() > 0 ==> upto - 7 < m.last().day <= upto
            &&& m.len() == 0 ==> upto < 7
            &&& forall|d: CivilDate|
                d.year == year && d.month == month && 1 <= d.day <= upto && is_on(d, weekday)
                    ==> #[trigger] m.contains(d)
        }),
    decreases upto,
{
    let m = matching_days(year, month, weekday, upto);
    let w = weekday_offset(weekday);
    if upto > 0 {
        lemma_matching(year, month, weekday, upto - 1);
        let e = matching_days(year, month, weekday, upto - 1);
        let last = CivilDate { year, month, day: upto };
        if is_on(last, weekday) {
            assert(m == e.push(last));
            if e.len() > 0 {
                lemma_weekdays_repeat(year, month, e.last().day, upto);
                assert(e.last() == CivilDate { year, month, day: e.last().day });
                assert(is_on(e[e.len() - 1], weekday));
                assert(upto == e.last().day + 7);
                assert(m[0] == e[0]);
            }
            assert forall|i: int| 0 <= i < m.len() implies {
                &&& (#[trigger] m[i]).year == year
                &&& m[i].month == month
                &&& valid_date(m[i])
                &&& is_on(m[i], weekday)
                &&& m[i].day == m[0].day + 7 * i
                &&& 7 * i < m[i].day <= 7 * (i + 1)
            } by {
                if i < e.len() {
                    assert(m[i] == e[i]);
                } else if e.len() > 0 {
                    assert(e[e.len() - 1].day == e[0].day + 7 * (e.len() - 1));
                }
            }
            assert forall|d: CivilDate|
                d.year == year && d.month == month && 1 <= d.day <= upto && is_on(
                    d,
                    weekday,
                ) implies #[trigger] m.contains(d) by {
                if d.day < upto {
                    assert(e.contains(d));
                    let i = choose|i: int| 0 <= i < e.len() && e[i] == d;
                    assert(m[i] == d);
                } else {
                    assert(m[e.len() as int] == last);
                }
            }
        } else {
            assert(m == e);
            if e.len() > 0 {
                lemma_weekdays_repeat(year, month, e.last().day, upto);
                assert(e.last() == CivilDate { year, month, day: e.last().day });
                assert(is_on(e[e.len() - 1], weekday));
            } else if upto == 7 {
                lemma_some_day(year, month, w);
                let k = choose|k: int|
                    1 <= k <= 7 && #[trigger] offset_in_week(CivilDate { year, month, day: k }) == w;
                assert(is_on(CivilDate { year, month, day: k }, weekday));
                assert(k < 7 ==> e.contains(CivilDate { year, month, day: k }));
            }
            assert forall|d: CivilDate|
                d.year == year && d.month == month && 1 <= d.day <= upto && is_on(
                    d,
                    weekday,
                ) implies #[trigger] m.contains(d) by {
                if d.day == upto {
                    assert(d == last);
                }
            }
        }
    }
}

proof fn lemma_some_day(year: int, month: int, w: int)
    requires
        0 <= w < 7,
    ensures
        exists|k: int|
            1 <= k <= 7 && #[trigger] offset_in_week(CivilDate { year, month, day: k }) == w,
{
    let a = offset_in_week(CivilDate { year, month, day: 1 });
    let n = day_number(CivilDate { year, month, day: 1 }) - 1;
    let k = 1 + (w - a) % 7;
    assert(day_number(CivilDate { year, month, day: k }) - 1 == n + (w - a) % 7);
    assert((n + (w - a) % 7) % 7 == w);
    assert(offset_in_week(CivilDate { year, month, day: k }) == w);
}

/// A weekday with an optional number stands for the dates of a month that it says.
pub proof fn lemma_weekdays_of_month(year: int, month: int, day: ByDay, d: CivilDate)
    requires
        -9999 <= year <= 9999,
        1 <= month <= 12,
    ensures
        weekdays_of_month(year, month, day).contains(d) <==> d.year == year && d.month == month
            && valid_date(d) && is_picked_weekday(d, day),
{
    let length = month_length(year, month);
    let all = matching_days(year, month, day.1, length);
    lemma_matching(year, month, day.1, length);
    assert(days_of_month(year, month) == length);
    let r = weekdays_of_month(year, month, day);
    let right = d.year == year && d.month == month && valid_date(d) && is_picked_weekday(d, day);
    if right {
        assert(all.contains(d));
        let i = choose|i: int| 0 <= i < all.len() && all[i] == d;
        assert(7 * i < all[i].day <= 7 * (i + 1));
        assert(all[all.len() - 1].day == all[0].day + 7 * (all.len() - 1));
        if day.0 is Some {
            let n = day.0->0;
            if n > 0 {
                assert(i == n - 1);
                assert(r[0] == d);
            } else if n == 0 {
                assert(i == 0);
                assert(r[0] == d);
            } else {
                assert(all.last().day - d.day == 7 * (all.len() - 1 - i));
                assert(i == all.len() + n);
                assert(r[0] == d);
            }
        }
    }
    if r.contains(d) {
        let j = choose|j: int| 0 <= j < r.len() && r[j] == d;
        if day.0 is Some {
            let n = day.0->0;
            let i = if n == 0 {
                0
            } else if n > 0 {
                n - 1
            } else {
                all.len() + n
            };
            assert(0 <= i < all.len());
            assert(d == all[i]);
            assert(7 * i < all[i].day <= 7 * (i + 1));
            assert(all[all.len() - 1].day == all[0].day + 7 * (all.len() - 1));
        } else {
            assert(d == all[j]);
        }
    }
}

proof fn lemma_all_weekdays(year: int, month: int, days: Seq<ByDay>, d: CivilDate)
    requires
        -9999 <= year <= 9999,
        1 <= month <= 12,
    ensures
        all_weekdays(year, month, days).contains(d) <==> d.year == year && d.month == month
            && valid_date(d) && exists|j: int|
            0 <= j < days.len() && is_picked_weekday(d, #[trigger] days[j]),
    decreases days.len(),
{
    let r = all_weekdays(year, month, days);
    if days.len() > 0 {
        let front = days.drop_last();
        let a = all_weekdays(year, month, front);
        let b = weekdays_of_month(year, month, days.last());
        lemma_all_weekdays(year, month, front, d);
        lemma_weekdays_of_month(year, month, days.last(), d);
        lemma_contains_concat(a, b, d);
        if exists|j: int| 0 <= j < front.len() && is_picked_weekday(d, #[trigger] front[j]) {
            let j = choose|j: int| 0 <= j < front.len() && is_picked_weekday(d, #[trigger] front[j]);
            assert(days[j] == front[j]);
        }
        if exists|j: int| 0 <= j < days.len() && is_picked_weekday(d, #[trigger] days[j]) {
            let j = choose|j: int| 0 <= j < days.len() && is_picked_weekday(d, #[trigger] days[j]);
            if j < front.len() {
                assert(front[j] == days[j]);
            }
        }
        assert(is_picked_weekday(d, days.last()) ==> is_picked_weekday(d, days[days.len() - 1]));
    }
}

proof fn lemma_contains_concat(a: Seq<CivilDate>, b: Seq<CivilDate>, d: CivilDate)
    ensures
        (a + b).contains(d) <==> a.contains(d) || b.contains(d),
{
    if a.contains(d) {
        let i = choose|i: int| 0 <= i < a.len() && a[i] == d;
        assert((a + b)[i] == d);
    }
    if b.contains(d) {
        let i = choose|i: int| 0 <= i < b.len() && b[i] == d;
        assert((a + b)[a.len() + i] == d);
    }
    if (a + b).contains(d) {
        let i = choose|i: int| 0 <= i < (a + b).len() && (a + b)[i] == d;
        if i < a.len() {
            assert(a[i] == d);
        } else {
            assert(b[i - a.len()] == d);
        }
    }
}

proof fn lemma_all_month_days(year: int, month: int, days: Seq<i8>, d: CivilDate)
    requires
        -9999 <= year <= 9999,
        1 <= month <= 12,
        forall|j: int| 0 <= j < days.len() ==> #[trigger] days[j] != 0,
    ensures
        all_month_days(year, month, days).contains(d) <==> d.year == year && d.month == month
            && valid_date(d) && exists|j: int|
            0 <= j < days.len() && is_picked_day(d, #[trigger] days[j]),
    decreases days.len(),
{
    if days.len() > 0 {
        let front = days.drop_last();
        let n = days.last();
        let a = all_month_days(year, month, front);
        let b = month_day(year, month, n);
        assert(days[days.len() - 1] != 0);
        assert forall|j: int| 0 <= j < front.len() implies #[trigger] front[j] != 0 by {
            assert(front[j] == days[j]);
        }
        lemma_all_month_days(year, month, front, d);
        lemma_contains_concat(a, b, d);
        assert(days_of_month(year, month) == month_length(year, month));
        assert(b.contains(d) <==> d.year == year && d.month == month && valid_date(d)
            && is_picked_day(d, n)) by {
            if b.contains(d) {
                let i = choose|i: int| 0 <= i < b.len() && b[i] == d;
                assert(i == 0);
            }
            if d.year == year && d.month == month && valid_date(d) && is_picked_day(d, n) {
                assert(b.len() == 1);
                assert(b[0] == d);
            }
        }
        if exists|j: int| 0 <= j < front.len() && is_picked_day(d, #[trigger] front[j]) {
            let j = choose|j: int| 0 <= j < front.len() && is_picked_day(d, #[trigger] front[j]);
            assert(days[j] == front[j]);
        }
        if exists|j: int| 0 <= j < days.len() && is_picked_day(d, #[trigger] days[j]) {
            let j = choose|j: int| 0 <= j < days.len() && is_picked_day(d, #[trigger] days[j]);
            if j < front.len() {
                assert(front[j] == days[j]);
            }
        }
        assert(is_picked_day(d, n) ==> is_picked_day(d, days[days.len() - 1]));
    }
}

// ── The dates of a period ──────────────────────────────────────────

/// Whether a rule picks a date out of its month: by its number where the rule lists numbers,
/// else by its weekday where it lists weekdays.
pub open spec fn is_picked(d: CivilDate, rule: RuleModel) -> bool {
    if rule.by_monthday.len() > 0 {
        exists|j: int|
            0 <= j < rule.by_monthday.len() && is_picked_day(d, #[trigger] rule.by_monthday[j])
    } else {
        exists|j: int|
            0 <= j < rule.by_day.len() && is_picked_weekday(d, #[trigger] rule.by_day[j])
    }
}

/// Whether the numbers of a rule are what can be read: months from 1 to 12, and no day 0.
pub open spec fn has_good_numbers(rule: RuleModel) -> bool {
    &&& forall|j: int| 0 <= j < rule.by_monthday.len() ==> #[trigger] rule.by_monthday[j] != 0
    &&& forall|j: int| 0 <= j < rule.by_month.len() ==> 1 <= #[trigger] rule.by_month[j] <= 12
}

proof fn lemma_sorted_contains(s: Seq<CivilDate>, d: CivilDate)
    ensures
        stable_sorted(s, date_key()).contains(d) <==> s.contains(d),
{
    broadcast use vstd::seq_lib::group_to_multiset_ensures;

    lemma_sorted(s, date_key());
    let r = stable_sorted(s, date_key());
    if r.contains(d) {
        assert(r.to_multiset().count(d) > 0);
        assert(s.to_multiset().count(d) > 0);
    }
    if s.contains(d) {
        assert(s.to_multiset().count(d) > 0);
        assert(r.to_multiset().count(d) > 0);
    }
}

/// A monthly rule with numbers or weekdays picks exactly the days of the month that these
/// stand for, each month being that of its period.
pub proof fn lemma_monthly_period(base: CivilDate, rule: RuleModel, d: CivilDate)
    requires
        valid_date(base),
        rule.freq == Some(RRuleFreq::Monthly),
        rule.by_monthday.len() > 0 || rule.by_day.len() > 0,
        has_good_numbers(rule),
    ensures
        period_dates(base, rule).contains(d) <==> valid_date(d) && month_count(d) == month_count(
            base,
        ) && is_picked(d, rule),
{
    lemma_sorted_contains(picked(base, rule), d);
    if rule.by_monthday.len() > 0 {
        lemma_all_month_days(base.year, base.month, rule.by_monthday, d);
    } else {
        lemma_all_weekdays(base.year, base.month, rule.by_day, d);
    }
    assert(valid_date(d) ==> (month_count(d) == month_count(base) <==> d.year == base.year
        && d.month == base.month));
}

/// Whether a yearly rule looks at a month: one that it lists, or that of its start where it
/// lists none.
pub open spec fn is_looked_at(base: CivilDate, rule: RuleModel, month: int) -> bool {
    if rule.by_month.len() > 0 {
        exists|j: int| 0 <= j < rule.by_month.len() && #[trigger] rule.by_month[j] == month
    } else {
        month == base.month
    }
}

proof fn lemma_picked_in_months(base: CivilDate, months: Seq<u8>, rule: RuleModel, d: CivilDate)
    requires
        valid_date(base),
        has_good_numbers(rule),
        forall|j: int| 0 <= j < months.len() ==> 1 <= #[trigger] months[j] <= 12,
    ensures
        picked_in_months(base, months, rule).contains(d) <==> valid_date(d) && d.year == base.year
            && (exists|j: int| 0 <= j < months.len() && #[trigger] months[j] == d.month) && (if
        rule.by_monthday.len() > 0 || rule.by_day.len() > 0 {
            is_picked(d, rule)
        } else {
            d.day == day_within(base.day, d.year, d.month)
        }),
    decreases months.len(),
{
    if months.len() > 0 {
        let front = months.drop_last();
        let m = months.last() as int;
        assert(1 <= months[months.len() - 1] <= 12);
        assert forall|j: int| 0 <= j < front.len() implies 1 <= #[trigger] front[j] <= 12 by {
            assert(front[j] == months[j]);
        }
        lemma_picked_in_months(base, front, rule, d);
        let a = picked_in_months(base, front, rule);
        let same = same_day_in(base, m);
        let b = picked_in_month(base.year, m, rule, same);
        lemma_contains_concat(a, b, d);
        lemma_all_month_days(base.year, m, rule.by_monthday, d);
        lemma_all_weekdays(base.year, m, rule.by_day, d);
        assert(days_of_month(base.year, m) == month_length(base.year, m));
        let that = CivilDate {
            year: base.year,
            month: m,
            day: day_within(base.day, base.year, m),
        };
        assert(valid_date(that));
        assert(same =~= seq![that]);
        assert(seq![that].contains(d) <==> d == that) by {
            assert(seq![that][0] == that);
        }
        if exists|j: int| 0 <= j < front.len() && #[trigger] front[j] == d.month {
            let j = choose|j: int| 0 <= j < front.len() && #[trigger] front[j] == d.month;
            assert(months[j] == d.month);
        }
        if exists|j: int| 0 <= j < months.len() && #[trigger] months[j] == d.month {
            let j = choose|j: int| 0 <= j < months.len() && #[trigger] months[j] == d.month;
            if j < front.len() {
                assert(front[j] == d.month);
            }
        }
        assert(d.month == m ==> months[months.len() - 1] == d.month);
    }
}

/// A yearly rule picks, in each month that it looks at, exactly the days that its numbers or
/// weekdays stand for; without those the day of its start, as far as the month has it.
pub proof fn lemma_yearly_period(base: CivilDate, rule: RuleModel, d: CivilDate)
    requires
        valid_date(base),
        rule.freq == Some(RRuleFreq::Yearly),
        has_good_numbers(rule),
    ensures
        period_dates(base, rule).contains(d) <==> valid_date(d) && d.year == base.year
            && is_looked_at(base, rule, d.month) && (if rule.by_monthday.len() > 0
            || rule.by_day.len() > 0 {
            is_picked(d, rule)
        } else {
            d.day == day_within(base.day, d.year, d.month)
        }),
{
    let months = months_of(base, rule);
    lemma_sorted_contains(picked(base, rule), d);
    if rule.by_month.len() == 0 {
        assert(months[0] == base.month);
    }
    lemma_picked_in_months(base, months, rule, d);
    if rule.by_month.len() == 0 && d.month == base.month {
        assert(months[0] == d.month);
    }
}

/// The day number of the Monday of the week of a date.
pub open spec fn monday_number(d: CivilDate) -> int {
    day_number(d) - (day_number(d) - 1) % 7
}

proof fn lemma_picked_in_week(monday: CivilDate, days: Seq<ByDay>, d: CivilDate)
    requires
        valid_date(monday),
        offset_in_week(monday) == 0,
    ensures
        picked_in_week(monday, days).contains(d) <==> valid_date(d) && day_number(monday)
            <= day_number(d) < day_number(monday) + 7 && exists|j: int|
            0 <= j < days.len() && is_on(d, (#[trigger] days[j]).1),
    decreases days.len(),
{
    if days.len() > 0 {
        let front = days.drop_last();
        let w = days.last().1;
        lemma_picked_in_week(monday, front, d);
        let a = picked_in_week(monday, front);
        let n = day_number(monday) + weekday_offset(w);
        let here = valid_date(d) && day_number(monday) <= day_number(d) < day_number(monday) + 7;
        if is_day(n) {
            lemma_day_exists(n);
            lemma_contains_concat(a, seq![date_on(n)], d);
            assert(a.push(date_on(n)) =~= a + seq![date_on(n)]);
            assert(seq![date_on(n)].contains(d) <==> d == date_on(n)) by {
                assert(seq![date_on(n)][0] == date_on(n));
            }
            if here && is_on(d, w) {
                assert(day_number(d) == n);
                lemma_date_on(d);
            }
        } else if here && is_on(d, w) {
            assert(day_number(d) == n);
            lemma_valid_is_day(d);
        }
        if exists|j: int| 0 <= j < front.len() && is_on(d, (#[trigger] front[j]).1) {
            let j = choose|j: int| 0 <= j < front.len() && is_on(d, (#[trigger] front[j]).1);
            assert(days[j] == front[j]);
        }
        if exists|j: int| 0 <= j < days.len() && is_on(d, (#[trigger] days[j]).1) {
            let j = choose|j: int| 0 <= j < days.len() && is_on(d, (#[trigger] days[j]).1);
            if j < front.len() {
                assert(front[j] == days[j]);
            }
        }
        assert(is_on(d, w) ==> is_on(d, days[days.len() - 1].1));
    }
}

/// A weekly rule with weekdays picks exactly the days of the week of its start, from Monday
/// to Sunday, that fall on one of them.
pub proof fn lemma_weekly_period(base: CivilDate, rule: RuleModel, d: CivilDate)
    requires
        valid_date(base),
        rule.freq == Some(RRuleFreq::Weekly),
        rule.by_day.len() > 0,
        is_day(monday_number(base)),
    ensures
        period_dates(base, rule).contains(d) <==> valid_date(d) && monday_number(d)
            == monday_number(base) && exists|j: int|
            0 <= j < rule.by_day.len() && is_on(d, (#[trigger] rule.by_day[j]).1),
{
    let monday = monday_of(base);
    lemma_day_exists(monday_number(base));
    lemma_sorted_contains(picked(base, rule), d);
    lemma_picked_in_week(monday, rule.by_day, d);
}

/// A daily rule, and a weekly one without weekdays, falls on its start alone, whatever other
/// parts it has.
pub proof fn lemma_single_period(base: CivilDate, rule: RuleModel)
    requires
        rule.freq == Some(RRuleFreq::Daily) || rule.freq == Some(RRuleFreq::Weekly)
            && rule.by_day.len() == 0 || rule.freq == Some(RRuleFreq::Monthly)
            && rule.by_day.len() == 0 && rule.by_monthday.len() == 0,
    ensures
        period_dates(base, rule) == seq![base],
{
    let s = seq![base];
    crate::sorting::lemma_sorted_already(s, date_key());
}

} // verus!
