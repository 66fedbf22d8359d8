//! How a recurrence rule goes from period to period.

use crate::recurrence::{
    count_of, dates_of_period, has_by_rules, is_past, is_shown, lemma_rule_dates, less, next_period,
    number_counted, recurrence_dates, rule_dates, MAX_PERIODS, Selection,
};
use crate::rule::{RRuleFreq, RuleModel};
use crate::time::{
    before, day_number, is_day, lemma_day_exists, lemma_day_numbers_keep_order, lemma_valid_is_day,
    month_length, valid_date, CivilDate,
};
use vstd::prelude::*;

verus! {

// ── One period ─────────────────────────────────────────────────────

/// The months from the start of the year 0 to the month of a date.
pub open spec fn month_count(d: CivilDate) -> int {
    12 * d.year + d.month - 1
}

/// A day of the month, or the last one where the month is too short for it.
pub open spec fn day_within(day: int, year: int, month: int) -> int {
    if day <= month_length(year, month) {
        day
    } else {
        month_length(year, month)
    }
}

/// Whether `b` is `k` days, weeks, months or years after `a`.
pub open spec fn is_later_by(freq: RRuleFreq, k: int, a: CivilDate, b: CivilDate) -> bool {
    &&& valid_date(b)
    &&& match freq {
        RRuleFreq::Daily => day_number(b) == day_number(a) + k,
        RRuleFreq::Weekly => day_number(b) == day_number(a) + 7 * k,
        RRuleFreq::Monthly => month_count(b) == month_count(a) + k && b.day == day_within(
            a.day,
            b.year,
            b.month,
        ),
        RRuleFreq::Yearly => b.year == a.year + k && b.month == a.month && b.day == day_within(
            a.day,
            b.year,
            b.month,
        ),
    }
}

/// Whether the calendar has a date `k` days, weeks, months or years after `a`, and the rule
/// can be followed that far in one step.
pub open spec fn has_later(freq: RRuleFreq, k: int, a: CivilDate) -> bool {
    match freq {
        RRuleFreq::Daily => is_day(day_number(a) + k),
        RRuleFreq::Weekly => is_day(day_number(a) + 7 * k),
        RRuleFreq::Monthly => k <= 239_976 && month_count(a) + k < 120_000,
        RRuleFreq::Yearly => a.year + k <= 9999,
    }
}

/// A rule goes from one period to the next by its interval, in days, weeks, months or years;
/// it ends only where the calendar does.
pub proof fn lemma_next_period(current: CivilDate, rule: RuleModel)
    requires
        rule.freq is Some,
        rule.interval >= 1,
        valid_date(current),
    ensures
        match next_period(current, rule) {
            Some(next) => is_later_by(rule.freq->0, rule.interval as int, current, next)
                && has_later(rule.freq->0, rule.interval as int, current),
            None => !has_later(rule.freq->0, rule.interval as int, current),
        },
{
    let k = rule.interval as int;
    lemma_valid_is_day(current);
    reveal_with_fuel(crate::time::days_before_month, 13);
    assert(day_number(CivilDate { year: 9999, month: 12, day: 31 }) == 3652059);
    assert(day_number(CivilDate { year: -9999, month: 1, day: 1 }) == -3652424);
    match rule.freq->0 {
        RRuleFreq::Daily => {
            if is_day(day_number(current) + k) {
                lemma_day_exists(day_number(current) + k);
            }
        },
        RRuleFreq::Weekly => {
            if is_day(day_number(current) + 7 * k) {
                lemma_day_exists(day_number(current) + 7 * k);
            }
        },
        RRuleFreq::Monthly => {},
        RRuleFreq::Yearly => {},
    }
}

// ── Rules without parts ────────────────────────────────────────────

/// The last day that is asked for and is in the rule.
pub open spec fn is_over(rule: RuleModel, sel: Selection, d: CivilDate) -> bool {
    before(sel.end, d) || (rule.until is Some && before(rule.until->0, d))
}

/// Whether dates go on by the interval of a rule, from a first one on.
pub open spec fn goes_by(freq: RRuleFreq, k: int, first: CivilDate, dates: Seq<CivilDate>) -> bool {
    &&& dates.len() > 0 ==> dates[0] == first
    &&& forall|i: int|
        0 < i < dates.len() ==> is_later_by(freq, k, dates[i - 1], #[trigger] dates[i])
}

/// Whether dates stop for a reason: as many as may be were found, as many as the rule counts,
/// or the next one is over or not in the calendar.
pub open spec fn stops_rightly(
    rule: RuleModel,
    sel: Selection,
    first: CivilDate,
    dates: Seq<CivilDate>,
    most: nat,
    left: Option<int>,
) -> bool {
    ||| dates.len() == most
    ||| left is Some && dates.len() >= left->0
    ||| dates.len() == 0 && is_over(rule, sel, first)
    ||| dates.len() > 0 && !has_later(rule.freq->0, rule.interval as int, dates.last())
    ||| dates.len() > 0 && exists|d: CivilDate|
        is_later_by(rule.freq->0, rule.interval as int, dates.last(), d) && #[trigger] is_over(
            rule,
            sel,
            d,
        )
}

pub open spec fn is_plain_rule(rule: RuleModel) -> bool {
    &&& rule.freq is Some
    &&& rule.interval >= 1
    &&& rule.by_day.len() == 0
    &&& rule.by_month.len() == 0
    &&& rule.by_monthday.len() == 0
}

pub(crate) proof fn lemma_later_is_after(freq: RRuleFreq, k: int, a: CivilDate, b: CivilDate)
    requires
        valid_date(a),
        k >= 1,
        is_later_by(freq, k, a, b),
    ensures
        before(a, b),
{
    lemma_day_numbers_keep_order(a, b);
}

proof fn lemma_before_chain(a: CivilDate, b: CivilDate, c: CivilDate)
    requires
        !before(b, a),
        before(b, c),
    ensures
        !before(c, a),
{
}

proof fn lemma_plain_dates(
    current: CivilDate,
    periods: nat,
    left: Option<int>,
    rule: RuleModel,
    sel: Selection,
)
    requires
        is_plain_rule(rule),
        valid_date(current),
        !before(current, sel.start),
        sel.excluded.len() == 0,
    ensures
        goes_by(
            rule.freq->0,
            rule.interval as int,
            current,
            rule_dates(current, periods, left, rule, sel),
        ),
        stops_rightly(
            rule,
            sel,
            current,
            rule_dates(current, periods, left, rule, sel),
            periods,
            left,
        ),
    decreases periods,
{
    let all = rule_dates(current, periods, left, rule, sel);
    let freq = rule.freq->0;
    let k = rule.interval as int;
    lemma_rule_dates(current, periods, left, rule, sel);
    if !(periods == 0 || is_past(current, rule, sel)) {
        let dates = seq![current];
        assert(!has_by_rules(rule));
        assert(dates_of_period(current, rule) == dates);
        let n = number_counted(dates, left, rule, sel);
        let shown = |d: CivilDate| is_shown(d, sel);
        reveal(Seq::filter);
        assert(dates.skip(1) =~= Seq::<CivilDate>::empty());
        assert(number_counted(dates.skip(1), less(left, 1), rule, sel) == 0);
        assert(dates.take(1) =~= dates);
        assert(dates.take(0) =~= Seq::<CivilDate>::empty());
        assert(dates.drop_last() =~= Seq::<CivilDate>::empty());
        let here = dates.take(n as int).filter(shown);
        assert(shown(current));
        assert(here =~= dates.take(n as int));
        lemma_next_period(current, rule);
        let left1 = less(left, n);
        match next_period(current, rule) {
            Some(next) => {
                lemma_later_is_after(freq, k, current, next);
                lemma_before_chain(sel.start, current, next);
                lemma_plain_dates(next, (periods - 1) as nat, left1, rule, sel);
                lemma_rule_dates(next, (periods - 1) as nat, left1, rule, sel);
                let rest = rule_dates(next, (periods - 1) as nat, left1, rule, sel);
                assert(all =~= here + rest);
                if n == 0 {
                    assert(left is Some && left->0 <= 0);
                    assert(all.len() == 0);
                } else {
                    assert(n == 1);
                    assert(all[0] == current);
                    assert forall|i: int| 0 < i < all.len() implies is_later_by(
                        freq,
                        k,
                        all[i - 1],
                        #[trigger] all[i],
                    ) by {
                        assert(all[i] == rest[i - 1]);
                        if i > 1 {
                            assert(all[i - 1] == rest[i - 2]);
                        } else {
                            assert(all[i - 1] == current);
                        }
                    }
                    if rest.len() > 0 {
                        assert(all.last() == rest.last());
                    } else {
                        assert(all.last() == current);
                        if is_over(rule, sel, next) {
                            assert(is_later_by(freq, k, all.last(), next) && is_over(
                                rule,
                                sel,
                                next,
                            ));
                        }
                    }
                }
            },
            None => {
                assert(all =~= here);
                if n > 0 {
                    assert(all.last() == current);
                }
            },
        }
    }
}

/// A rule without parts falls on the first date, and from each of its dates goes on by its
/// interval: that many days, weeks, months or years, the day of the month being kept as far
/// as the month has it. It leaves none out, and ends with its count, with the range or the
/// limit of the rule, or with the calendar.
pub proof fn lemma_plain_rule(first: CivilDate, rule: RuleModel, sel: Selection)
    requires
        is_plain_rule(rule),
        valid_date(first),
        !before(first, sel.start),
        sel.excluded.len() == 0,
    ensures
        goes_by(
            rule.freq->0,
            rule.interval as int,
            first,
            recurrence_dates(first, rule, sel),
        ),
        stops_rightly(
            rule,
            sel,
            first,
            recurrence_dates(first, rule, sel),
            1000,
            count_of(rule),
        ),
        rule.count is Some ==> count_of(rule) == Some(rule.count->0 as int),
{
    lemma_plain_dates(first, MAX_PERIODS as nat, count_of(rule), rule, sel);
}

pub(crate) proof fn lemma_distance(freq: RRuleFreq, k: int, first: CivilDate, dates: Seq<CivilDate>, i: int)
    requires
        goes_by(freq, k, first, dates),
        valid_date(first),
        0 <= i < dates.len(),
    ensures
        valid_date(dates[i]),
        freq == RRuleFreq::Daily ==> day_number(dates[i]) == day_number(first) + k * i,
        freq == RRuleFreq::Weekly ==> day_number(dates[i]) == day_number(first) + 7 * k * i,
        freq == RRuleFreq::Monthly ==> month_count(dates[i]) == month_count(first) + k * i,
        freq == RRuleFreq::Yearly ==> dates[i].year == first.year + k * i && dates[i].month
            == first.month,
        (freq == RRuleFreq::Monthly || freq == RRuleFreq::Yearly) && first.day <= 28
            ==> dates[i].day == first.day,
    decreases i,
{
    if i > 0 {
        lemma_distance(freq, k, first, dates, i - 1);
        assert(is_later_by(freq, k, dates[i - 1], dates[i]));
        assert(k * i == k * (i - 1) + k) by (nonlinear_arith);
        assert(7 * k * i == 7 * k * (i - 1) + 7 * k) by (nonlinear_arith);
    } else {
        assert(k * i == 0 && 7 * k * i == 0) by (nonlinear_arith)
            requires
                i == 0,
        ;
    }
}

/// The `i`-th date of a rule without parts is `i` intervals after the first: for a weekly
/// rule that is seven days for each week of the interval, for a monthly and a yearly one the
/// same day of the month, where every month has it.
pub proof fn lemma_plain_rule_date(first: CivilDate, rule: RuleModel, sel: Selection, i: int)
    requires
        is_plain_rule(rule),
        valid_date(first),
        !before(first, sel.start),
        sel.excluded.len() == 0,
        0 <= i < recurrence_dates(first, rule, sel).len(),
    ensures
        ({
            let d = recurrence_dates(first, rule, sel)[i];
            let k = rule.interval as int;
            &&& rule.freq == Some(RRuleFreq::Daily) ==> day_number(d) == day_number(first) + k * i
            &&& rule.freq == Some(RRuleFreq::Weekly) ==> day_number(d) == day_number(first) + 7 * k
                * i
            &&& rule.freq == Some(RRuleFreq::Monthly) ==> month_count(d) == month_count(first) + k
                * i
            &&& rule.freq == Some(RRuleFreq::Yearly) ==> d.year == first.year + k * i && d.month
                == first.month
            &&& (rule.freq == Some(RRuleFreq::Monthly) || rule.freq == Some(RRuleFreq::Yearly))
                && first.day <= 28 ==> d.day == first.day
        }),
{
    lemma_plain_rule(first, rule, sel);
    lemma_distance(
        rule.freq->0,
        rule.interval as int,
        first,
        recurrence_dates(first, rule, sel),
        i,
    );
}

} // verus!
