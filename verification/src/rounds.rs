//! The dates of a recurrence rule as a whole: all rounds of its periods together.

use crate::periods::{
    day_within, goes_by, has_later, is_later_by, is_over, lemma_distance, lemma_later_is_after,
    lemma_next_period, month_count,
};
use crate::picking::{
    has_good_numbers, is_looked_at, is_on, is_picked, lemma_monthly_period, lemma_weekly_period,
    lemma_yearly_period, monday_number,
};
use crate::recurrence::{
    all_exist, count_of, date_key, dates_of_period, has_by_rules, is_past, is_shown, lemma_filter,
    lemma_next_exists, lemma_number_counted, lemma_period_dates, lemma_rule_dates, less,
    next_period, number_counted, period_dates, picked, picked_in_months, recurrence_dates,
    rule_dates, MAX_PERIODS, Selection,
};
use crate::rule::{RRuleFreq, RuleModel};
use crate::sorting::in_order;
use crate::time::{
    before, day_number, is_day, lemma_day_exists, lemma_day_numbers_keep_order, valid_date,
    CivilDate,
};
use vstd::prelude::*;

verus! {

// ── Dates that are left out ────────────────────────────────────────

/// Whether a date is not in a list.
pub open spec fn is_none_of(dates: Seq<CivilDate>) -> spec_fn(CivilDate) -> bool {
    |d: CivilDate| !dates.contains(d)
}

/// The selection that excludes nothing.
pub open spec fn with_all(sel: Selection) -> Selection {
    Selection { excluded: Seq::empty(), ..sel }
}

proof fn lemma_same_count(
    dates: Seq<CivilDate>,
    left: Option<int>,
    rule: RuleModel,
    a: Selection,
    b: Selection,
)
    requires
        a.end == b.end,
    ensures
        number_counted(dates, left, rule, a) == number_counted(dates, left, rule, b),
    decreases dates.len(),
{
    if dates.len() > 0 {
        lemma_same_count(dates.skip(1), less(left, 1), rule, a, b);
    }
}

proof fn lemma_filter_twice(
    s: Seq<CivilDate>,
    one: spec_fn(CivilDate) -> bool,
    two: spec_fn(CivilDate) -> bool,
    both: spec_fn(CivilDate) -> bool,
)
    requires
        forall|d: CivilDate| #[trigger] both(d) <==> one(d) && two(d),
    ensures
        s.filter(one).filter(two) == s.filter(both),
    decreases s.len(),
{
    reveal(Seq::filter);
    if s.len() > 0 {
        let front = s.drop_last();
        let d = s.last();
        lemma_filter_twice(front, one, two, both);
        assert(both(d) <==> one(d) && two(d));
        if one(d) {
            assert(s.filter(one) =~= front.filter(one).push(d));
            assert(front.filter(one).push(d).drop_last() =~= front.filter(one));
        }
    }
}

proof fn lemma_without_excluded(
    current: CivilDate,
    periods: nat,
    left: Option<int>,
    rule: RuleModel,
    sel: Selection,
)
    ensures
        rule_dates(current, periods, left, rule, sel) == rule_dates(
            current,
            periods,
            left,
            rule,
            with_all(sel),
        ).filter(is_none_of(sel.excluded)),
    decreases periods,
{
    let open = with_all(sel);
    let keep = is_none_of(sel.excluded);
    if periods == 0 || is_past(current, rule, sel) {
        reveal(Seq::filter);
        assert(Seq::<CivilDate>::empty().filter(keep) =~= Seq::<CivilDate>::empty());
    } else {
        let dates = dates_of_period(current, rule);
        let n = number_counted(dates, left, rule, sel);
        lemma_same_count(dates, left, rule, sel, open);
        let shown = |d: CivilDate| is_shown(d, open);
        let kept = |d: CivilDate| is_shown(d, sel);
        let counted = dates.take(n as int);
        lemma_filter_twice(counted, shown, keep, kept);
        if let Some(next) = next_period(current, rule) {
            lemma_without_excluded(next, (periods - 1) as nat, less(left, n), rule, sel);
            let rest = rule_dates(next, (periods - 1) as nat, less(left, n), rule, open);
            Seq::filter_distributes_over_add(counted.filter(shown), rest, keep);
        }
    }
}

/// An excluded date is left out, and nothing else changes: it counts all the same, and no
/// other date takes its place.
pub proof fn lemma_excluded(first: CivilDate, rule: RuleModel, sel: Selection)
    ensures
        recurrence_dates(first, rule, sel) == recurrence_dates(first, rule, with_all(sel)).filter(
            is_none_of(sel.excluded),
        ),
{
    lemma_without_excluded(first, MAX_PERIODS as nat, count_of(rule), rule, sel);
}

// ── Limits ─────────────────────────────────────────────────────────

/// The earlier of two dates.
pub open spec fn earlier_of(a: CivilDate, b: CivilDate) -> CivilDate {
    if before(a, b) {
        a
    } else {
        b
    }
}

/// A rule without its limit.
pub open spec fn unlimited(rule: RuleModel) -> RuleModel {
    RuleModel { until: None, ..rule }
}

proof fn lemma_same_months(base: CivilDate, months: Seq<u8>, rule: RuleModel, other: RuleModel)
    requires
        rule.by_day == other.by_day,
        rule.by_monthday == other.by_monthday,
    ensures
        picked_in_months(base, months, rule) == picked_in_months(base, months, other),
    decreases months.len(),
{
    if months.len() > 0 {
        lemma_same_months(base, months.drop_last(), rule, other);
    }
}

/// Neither the limit nor the count of a rule has a say in where its periods start and what
/// it picks out of them.
pub proof fn lemma_same_periods(base: CivilDate, rule: RuleModel, other: RuleModel)
    requires
        other == (RuleModel { until: other.until, count: other.count, ..rule }),
    ensures
        dates_of_period(base, rule) == dates_of_period(base, other),
        next_period(base, rule) == next_period(base, other),
{
    lemma_same_months(base, crate::recurrence::months_of(base, rule), rule, other);
    assert(picked(base, rule) == picked(base, other));
}

proof fn lemma_limited_count(
    dates: Seq<CivilDate>,
    left: Option<int>,
    rule: RuleModel,
    sel: Selection,
    end: CivilDate,
)
    requires
        rule.until is Some,
        end == earlier_of(rule.until->0, sel.end),
    ensures
        number_counted(dates, left, rule, sel) == number_counted(
            dates,
            left,
            unlimited(rule),
            Selection { end, ..sel },
        ),
    decreases dates.len(),
{
    if dates.len() > 0 {
        lemma_limited_count(dates.skip(1), less(left, 1), rule, sel, end);
    }
}

proof fn lemma_limited(
    current: CivilDate,
    periods: nat,
    left: Option<int>,
    rule: RuleModel,
    sel: Selection,
    end: CivilDate,
)
    requires
        rule.until is Some,
        end == earlier_of(rule.until->0, sel.end),
    ensures
        rule_dates(current, periods, left, rule, sel) == rule_dates(
            current,
            periods,
            left,
            unlimited(rule),
            Selection { end, ..sel },
        ),
    decreases periods,
{
    let cut = Selection { end, ..sel };
    if !(periods == 0 || is_past(current, rule, sel)) {
        lemma_same_periods(current, rule, unlimited(rule));
        let dates = dates_of_period(current, rule);
        lemma_limited_count(dates, left, rule, sel, end);
        let n = number_counted(dates, left, rule, sel);
        let shown = |d: CivilDate| is_shown(d, sel);
        let cut_shown = |d: CivilDate| is_shown(d, cut);
        assert(forall|d: CivilDate| #[trigger] shown(d) == cut_shown(d));
        lemma_same_filter(dates.take(n as int), shown, cut_shown);
        if let Some(next) = next_period(current, rule) {
            lemma_limited(next, (periods - 1) as nat, less(left, n), rule, sel, end);
        }
    }
}

proof fn lemma_same_filter(
    s: Seq<CivilDate>,
    one: spec_fn(CivilDate) -> bool,
    two: spec_fn(CivilDate) -> bool,
)
    requires
        forall|d: CivilDate| #[trigger] one(d) == two(d),
    ensures
        s.filter(one) == s.filter(two),
    decreases s.len(),
{
    reveal(Seq::filter);
    if s.len() > 0 {
        lemma_same_filter(s.drop_last(), one, two);
        assert(one(s.last()) == two(s.last()));
    }
}

/// A rule with a limit falls on the dates of the rule without it in the range that ends on
/// the limit, where that is earlier: the limit itself is still in the rule.
pub proof fn lemma_until(first: CivilDate, rule: RuleModel, sel: Selection)
    requires
        rule.until is Some,
    ensures
        recurrence_dates(first, rule, sel) == recurrence_dates(
            first,
            unlimited(rule),
            Selection { end: earlier_of(rule.until->0, sel.end), ..sel },
        ),
{
    let end = earlier_of(rule.until->0, sel.end);
    lemma_limited(first, MAX_PERIODS as nat, count_of(rule), rule, sel, end);
}

// ── Counts ─────────────────────────────────────────────────────────

/// The first `n` of some dates.
pub open spec fn first_of(dates: Seq<CivilDate>, n: int) -> Seq<CivilDate> {
    if n <= 0 {
        Seq::empty()
    } else if dates.len() <= n {
        dates
    } else {
        dates.take(n)
    }
}

/// A rule without its count.
pub open spec fn uncounted(rule: RuleModel) -> RuleModel {
    RuleModel { count: None, ..rule }
}

/// Whether a selection drops nothing that is not past its end.
pub open spec fn drops_nothing(sel: Selection) -> bool {
    &&& sel.excluded.len() == 0
    &&& forall|d: CivilDate| valid_date(d) ==> !before(d, sel.start)
}

proof fn lemma_counted_is_least(
    dates: Seq<CivilDate>,
    n: int,
    rule: RuleModel,
    sel: Selection,
)
    ensures
        number_counted(dates, Some(n), rule, sel) == (if n <= 0 {
            0
        } else if number_counted(dates, None, uncounted(rule), sel) <= n {
            number_counted(dates, None, uncounted(rule), sel) as int
        } else {
            n
        }),
    decreases dates.len(),
{
    if dates.len() > 0 {
        lemma_counted_is_least(dates.skip(1), n - 1, rule, sel);
    }
}

proof fn lemma_keeps_all(s: Seq<CivilDate>, keep: spec_fn(CivilDate) -> bool)
    requires
        forall|i: int| 0 <= i < s.len() ==> keep(#[trigger] s[i]),
    ensures
        s.filter(keep) == s,
    decreases s.len(),
{
    reveal(Seq::filter);
    if s.len() > 0 {
        let front = s.drop_last();
        assert forall|i: int| 0 <= i < front.len() implies keep(#[trigger] front[i]) by {
            assert(front[i] == s[i]);
        }
        lemma_keeps_all(front, keep);
        assert(keep(s[s.len() - 1]));
        assert(s =~= front.push(s.last()));
    } else {
        assert(s.filter(keep) =~= s);
    }
}

proof fn lemma_first_dates(
    current: CivilDate,
    periods: nat,
    left: int,
    rule: RuleModel,
    sel: Selection,
)
    requires
        valid_date(current),
        drops_nothing(sel),
    ensures
        rule_dates(current, periods, Some(left), rule, sel) == first_of(
            rule_dates(current, periods, None, uncounted(rule), sel),
            left,
        ),
    decreases periods,
{
    let plain = uncounted(rule);
    let all = rule_dates(current, periods, None, plain, sel);
    let some = rule_dates(current, periods, Some(left), rule, sel);
    if periods == 0 || is_past(current, rule, sel) {
        assert(some =~= first_of(all, left));
    } else {
        lemma_same_periods(current, rule, plain);
        let dates = dates_of_period(current, rule);
        if has_by_rules(rule) {
            lemma_period_dates(current, rule);
        }
        let m = number_counted(dates, None, plain, sel);
        let n = number_counted(dates, Some(left), rule, sel);
        lemma_counted_is_least(dates, left, rule, sel);
        lemma_number_counted(dates, None, plain, sel);
        lemma_number_counted(dates, Some(left), rule, sel);
        let shown = |d: CivilDate| is_shown(d, sel);
        let a = dates.take(m as int);
        let b = dates.take(n as int);
        assert forall|i: int| 0 <= i < a.len() implies shown(#[trigger] a[i]) by {
            assert(a[i] == dates[i] && valid_date(dates[i]));
        }
        assert forall|i: int| 0 <= i < b.len() implies shown(#[trigger] b[i]) by {
            assert(b[i] == dates[i] && valid_date(dates[i]));
        }
        lemma_keeps_all(a, shown);
        lemma_keeps_all(b, shown);
        match next_period(current, rule) {
            Some(next) => {
                lemma_next_exists(current, rule);
                lemma_first_dates(next, (periods - 1) as nat, left - n, rule, sel);
                let rest = rule_dates(next, (periods - 1) as nat, None, plain, sel);
                assert(all == a + rest);
                assert(some == b + first_of(rest, left - n));
                if left > 0 && m <= left {
                    assert(a == b);
                    assert(some =~= first_of(all, left));
                } else {
                    assert(b =~= first_of(a, left));
                    assert(some =~= first_of(all, left));
                }
            },
            None => {
                assert(some =~= first_of(all, left));
            },
        }
    }
}

/// A rule with a count falls on the first dates of the rule without one, as many as it
/// counts.
pub proof fn lemma_count(first: CivilDate, rule: RuleModel, sel: Selection)
    requires
        valid_date(first),
        rule.count is Some,
        drops_nothing(sel),
    ensures
        recurrence_dates(first, rule, sel) == first_of(
            recurrence_dates(first, uncounted(rule), sel),
            rule.count->0 as int,
        ),
{
    lemma_first_dates(first, MAX_PERIODS as nat, rule.count->0 as int, rule, sel);
}

// ── What is in a rule ──────────────────────────────────────────────

/// Whether a date is in the period that starts on another.
pub open spec fn is_in_period(start: CivilDate, rule: RuleModel, d: CivilDate) -> bool {
    if has_by_rules(rule) {
        period_dates(start, rule).contains(d)
    } else {
        d == start
    }
}

/// Whether a date is asked for.
pub open spec fn is_wanted(rule: RuleModel, sel: Selection, d: CivilDate) -> bool {
    !before(d, sel.start) && !is_over(rule, sel, d) && !sel.excluded.contains(d)
}

proof fn lemma_counts_to(dates: Seq<CivilDate>, rule: RuleModel, sel: Selection, i: int)
    requires
        all_exist(dates),
        in_order(dates, date_key()),
        0 <= i < dates.len(),
        !is_over(rule, sel, dates[i]),
    ensures
        number_counted(dates, None, rule, sel) > i,
    decreases i,
{
    assert(valid_date(dates[0]) && valid_date(dates[i]));
    assert(date_key()(dates[0]) <= date_key()(dates[i]));
    lemma_day_numbers_keep_order(dates[i], dates[0]);
    assert(!is_past(dates[0], rule, sel));
    if i > 0 {
        let rest = dates.skip(1);
        assert forall|k: int| 0 <= k < rest.len() implies valid_date(#[trigger] rest[k]) by {
            assert(rest[k] == dates[k + 1]);
        }
        assert forall|a: int, b: int| 0 <= a <= b < rest.len() implies date_key()(
            #[trigger] rest[a],
        ) <= date_key()(#[trigger] rest[b]) by {
            assert(rest[a] == dates[a + 1] && rest[b] == dates[b + 1]);
        }
        assert(rest[i - 1] == dates[i]);
        lemma_counts_to(rest, rule, sel, i - 1);
    }
}

proof fn lemma_filter_has(s: Seq<CivilDate>, keep: spec_fn(CivilDate) -> bool, i: int)
    requires
        0 <= i < s.len(),
        keep(s[i]),
    ensures
        s.filter(keep).contains(s[i]),
    decreases s.len(),
{
    reveal(Seq::filter);
    let front = s.drop_last();
    if i < front.len() {
        lemma_filter_has(front, keep, i);
        let r = front.filter(keep);
        let k = choose|k: int| 0 <= k < r.len() && r[k] == s[i];
        assert(s.filter(keep)[k] == s[i]);
    } else {
        let r = front.filter(keep);
        assert(s.filter(keep)[r.len() as int] == s[i]);
    }
}

proof fn lemma_later_is_unique(
    freq: RRuleFreq,
    k: int,
    a: CivilDate,
    b: CivilDate,
    c: CivilDate,
)
    requires
        is_later_by(freq, k, a, b),
        is_later_by(freq, k, a, c),
    ensures
        b == c,
{
    lemma_day_numbers_keep_order(b, c);
}

proof fn lemma_later_exists(freq: RRuleFreq, k: int, a: CivilDate, b: CivilDate)
    requires
        valid_date(a),
        is_later_by(freq, k, a, b),
        freq == RRuleFreq::Monthly ==> k <= 239_976,
    ensures
        has_later(freq, k, a),
{
    crate::time::lemma_valid_is_day(b);
}

proof fn lemma_has_member(
    current: CivilDate,
    periods: nat,
    rule: RuleModel,
    sel: Selection,
    starts: Seq<CivilDate>,
    d: CivilDate,
)
    requires
        rule.freq is Some,
        1 <= rule.interval,
        rule.freq == Some(RRuleFreq::Monthly) ==> rule.interval <= 239_976,
        valid_date(current),
        0 < starts.len() <= periods,
        goes_by(rule.freq->0, rule.interval as int, current, starts),
        !is_over(rule, sel, starts.last()),
        is_in_period(starts.last(), rule, d),
        is_wanted(rule, sel, d),
    ensures
        rule_dates(current, periods, None, rule, sel).contains(d),
    decreases periods,
{
    let freq = rule.freq->0;
    let k = rule.interval as int;
    let all = rule_dates(current, periods, None, rule, sel);
    let dates = dates_of_period(current, rule);
    lemma_distance(freq, k, current, starts, starts.len() - 1);
    lemma_starts_in_order(freq, k, current, starts, starts.len() - 1);
    assert(starts[0] == current);
    assert(!is_past(current, rule, sel)) by {
        lemma_day_numbers_keep_order(starts.last(), current);
    }
    let n = number_counted(dates, None, rule, sel);
    let shown = |d: CivilDate| is_shown(d, sel);
    let here = dates.take(n as int).filter(shown);
    lemma_number_counted(dates, None, rule, sel);
    if starts.len() == 1 {
        if has_by_rules(rule) {
            lemma_period_dates(current, rule);
        } else {
            assert(dates[0] == current);
        }
        assert(dates.contains(d)) by {
            if !has_by_rules(rule) {
                assert(dates[0] == d);
            }
        }
        let i = choose|i: int| 0 <= i < dates.len() && dates[i] == d;
        lemma_counts_to(dates, rule, sel, i);
        lemma_filter_has(dates.take(n as int), shown, i);
        assert(here.contains(d));
        let j = choose|j: int| 0 <= j < here.len() && here[j] == d;
        assert(all[j] == d);
    } else {
        let next = starts[1];
        assert(is_later_by(freq, k, starts[0], starts[1]));
        lemma_later_exists(freq, k, current, next);
        lemma_next_period(current, rule);
        lemma_later_is_unique(freq, k, current, next, next_period(current, rule)->0);
        let rest = starts.skip(1);
        assert forall|i: int| 0 < i < rest.len() implies is_later_by(
            freq,
            k,
            rest[i - 1],
            #[trigger] rest[i],
        ) by {
            assert(rest[i] == starts[i + 1] && rest[i - 1] == starts[i]);
        }
        assert(rest.last() == starts.last());
        lemma_has_member(next, (periods - 1) as nat, rule, sel, rest, d);
        let more = rule_dates(next, (periods - 1) as nat, None, rule, sel);
        let j = choose|j: int| 0 <= j < more.len() && more[j] == d;
        assert(all[here.len() + j] == d);
    }
}

proof fn lemma_starts_in_order(
    freq: RRuleFreq,
    k: int,
    first: CivilDate,
    starts: Seq<CivilDate>,
    i: int,
)
    requires
        goes_by(freq, k, first, starts),
        valid_date(first),
        k >= 1,
        0 <= i < starts.len(),
    ensures
        valid_date(starts[i]),
        day_number(first) <= day_number(starts[i]),
    decreases i,
{
    if i > 0 {
        lemma_starts_in_order(freq, k, first, starts, i - 1);
        assert(is_later_by(freq, k, starts[i - 1], starts[i]));
        lemma_later_is_after(freq, k, starts[i - 1], starts[i]);
        lemma_day_numbers_keep_order(starts[i - 1], starts[i]);
    }
}

proof fn lemma_member_has(
    current: CivilDate,
    periods: nat,
    left: Option<int>,
    rule: RuleModel,
    sel: Selection,
    d: CivilDate,
) -> (starts: Seq<CivilDate>)
    requires
        rule.freq is Some,
        1 <= rule.interval,
        valid_date(current),
        rule_dates(current, periods, left, rule, sel).contains(d),
    ensures
        0 < starts.len() <= periods,
        goes_by(rule.freq->0, rule.interval as int, current, starts),
        !is_over(rule, sel, starts.last()),
        is_in_period(starts.last(), rule, d),
        is_wanted(rule, sel, d),
    decreases periods,
{
    let freq = rule.freq->0;
    let k = rule.interval as int;
    let all = rule_dates(current, periods, left, rule, sel);
    let at = choose|i: int| 0 <= i < all.len() && all[i] == d;
    lemma_rule_dates(current, periods, left, rule, sel);
    assert(is_shown(all[at], sel) && !is_past(all[at], rule, sel));
    let dates = dates_of_period(current, rule);
    let n = number_counted(dates, left, rule, sel);
    lemma_number_counted(dates, left, rule, sel);
    let shown = |d: CivilDate| is_shown(d, sel);
    let counted = dates.take(n as int);
    let here = counted.filter(shown);
    lemma_filter(counted, shown);
    if at < here.len() {
        assert(all[at] == here[at]);
        let j = choose|j: int| 0 <= j < counted.len() && counted[j] == here[at];
        assert(dates[j] == d);
        assert(is_in_period(current, rule, d));
        seq![current]
    } else {
        lemma_next_period(current, rule);
        lemma_next_exists(current, rule);
        let next = next_period(current, rule)->0;
        let rest = rule_dates(next, (periods - 1) as nat, less(left, n), rule, sel);
        assert(all =~= here + rest);
        assert(rest[at - here.len()] == d);
        let tail = lemma_member_has(next, (periods - 1) as nat, less(left, n), rule, sel, d);
        let starts = seq![current] + tail;
        assert forall|i: int| 0 < i < starts.len() implies is_later_by(
            freq,
            k,
            starts[i - 1],
            #[trigger] starts[i],
        ) by {
            assert(starts[i] == tail[i - 1]);
            if i > 1 {
                assert(starts[i - 1] == tail[i - 2]);
            }
        }
        assert(starts.last() == tail.last());
        starts
    }
}

/// Every date of a rule is asked for, and lies in a period that starts a number of intervals
/// after the first date.
pub proof fn lemma_dates_of_rule(first: CivilDate, rule: RuleModel, sel: Selection, d: CivilDate)
    -> (starts: Seq<CivilDate>)
    requires
        rule.freq is Some,
        1 <= rule.interval,
        valid_date(first),
        recurrence_dates(first, rule, sel).contains(d),
    ensures
        0 < starts.len() <= 1000,
        goes_by(rule.freq->0, rule.interval as int, first, starts),
        !is_over(rule, sel, starts.last()),
        is_in_period(starts.last(), rule, d),
        is_wanted(rule, sel, d),
{
    lemma_member_has(first, MAX_PERIODS as nat, count_of(rule), rule, sel, d)
}

/// No date of a rule without a count is left out: each one that is asked for, in a period
/// that starts a number of intervals after the first date and in the range, is found.
pub proof fn lemma_finds_dates(
    first: CivilDate,
    rule: RuleModel,
    sel: Selection,
    starts: Seq<CivilDate>,
    d: CivilDate,
)
    requires
        rule.freq is Some,
        1 <= rule.interval,
        rule.freq == Some(RRuleFreq::Monthly) ==> rule.interval <= 239_976,
        rule.count is None,
        valid_date(first),
        0 < starts.len() <= 1000,
        goes_by(rule.freq->0, rule.interval as int, first, starts),
        !is_over(rule, sel, starts.last()),
        is_in_period(starts.last(), rule, d),
        is_wanted(rule, sel, d),
    ensures
        recurrence_dates(first, rule, sel).contains(d),
{
    lemma_has_member(first, MAX_PERIODS as nat, rule, sel, starts, d);
}

/// Whether a date is in a week that is `i` intervals after that of the first, on a weekday of
/// the rule, and whether the rule gets there: the day of that week that is whole weeks after
/// the first is not over.
pub open spec fn is_weekly_date(
    first: CivilDate,
    rule: RuleModel,
    sel: Selection,
    d: CivilDate,
    i: int,
) -> bool {
    &&& 0 <= i < 1000
    &&& valid_date(d)
    &&& monday_number(d) == monday_number(first) + 7 * rule.interval * i
    &&& exists|j: int| 0 <= j < rule.by_day.len() && is_on(d, (#[trigger] rule.by_day[j]).1)
    &&& is_day(day_number(first) + 7 * rule.interval * i)
    &&& !is_over(rule, sel, crate::time::date_on(day_number(first) + 7 * rule.interval * i))
}

proof fn lemma_week_starts(first: CivilDate, k: int, i: int) -> (starts: Seq<CivilDate>)
    requires
        valid_date(first),
        k >= 1,
        0 <= i,
        is_day(day_number(first) + 7 * k * i),
    ensures
        starts.len() == i + 1,
        goes_by(RRuleFreq::Weekly, k, first, starts),
        day_number(starts.last()) == day_number(first) + 7 * k * i,
        valid_date(starts.last()),
    decreases i,
{
    if i == 0 {
        assert(7 * k * i == 0) by (nonlinear_arith)
            requires
                i == 0,
        ;
        seq![first]
    } else {
        assert(7 * k * i == 7 * k * (i - 1) + 7 * k) by (nonlinear_arith);
        assert(7 * k * (i - 1) >= 0) by (nonlinear_arith)
            requires
                k >= 1,
                i >= 1,
        ;
        crate::time::lemma_valid_is_day(first);
        let front = lemma_week_starts(first, k, i - 1);
        let n = day_number(first) + 7 * k * i;
        lemma_day_exists(n);
        let last = crate::time::date_on(n);
        let starts = front.push(last);
        assert forall|j: int| 0 < j < starts.len() implies is_later_by(
            RRuleFreq::Weekly,
            k,
            starts[j - 1],
            #[trigger] starts[j],
        ) by {
            if j < front.len() {
                assert(starts[j] == front[j] && starts[j - 1] == front[j - 1]);
            } else {
                assert(starts[j - 1] == front.last());
            }
        }
        assert(starts[0] == front[0]);
        starts
    }
}

proof fn lemma_mondays(a: int, b: int, n: int)
    requires
        b == a + 7 * n,
    ensures
        (b - 1) % 7 == (a - 1) % 7,
{
}

/// A weekly rule with weekdays and without a count falls exactly on those weekdays of every
/// week that is a number of intervals after the week of the first date.
pub proof fn lemma_weekly_rule(first: CivilDate, rule: RuleModel, sel: Selection, d: CivilDate)
    requires
        rule.freq == Some(RRuleFreq::Weekly),
        1 <= rule.interval,
        rule.by_day.len() > 0,
        rule.count is None,
        valid_date(first),
        is_day(monday_number(first)),
    ensures
        recurrence_dates(first, rule, sel).contains(d) <==> is_wanted(rule, sel, d) && exists|
            i: int,
        | #[trigger] is_weekly_date(first, rule, sel, d, i),
{
    let k = rule.interval as int;
    if recurrence_dates(first, rule, sel).contains(d) {
        let starts = lemma_dates_of_rule(first, rule, sel, d);
        let i = starts.len() - 1;
        lemma_distance(RRuleFreq::Weekly, k, first, starts, i);
        let s = starts.last();
        lemma_starts_in_order(RRuleFreq::Weekly, k, first, starts, i);
        assert(day_number(s) == day_number(first) + 7 * k * i);
        assert(7 * k * i == 7 * (k * i)) by (nonlinear_arith);
        lemma_mondays(day_number(first), day_number(s), k * i);
        crate::time::lemma_valid_is_day(s);
        crate::time::lemma_date_on(s);
        assert(monday_number(s) >= monday_number(first));
        lemma_weekly_period(s, rule, d);
        assert(is_weekly_date(first, rule, sel, d, i));
    }
    if is_wanted(rule, sel, d) && exists|i: int| #[trigger]
        is_weekly_date(first, rule, sel, d, i) {
        let i = choose|i: int| #[trigger] is_weekly_date(first, rule, sel, d, i);
        let starts = lemma_week_starts(first, k, i);
        let s = starts.last();
        crate::time::lemma_date_on(s);
        assert(7 * k * i == 7 * (k * i)) by (nonlinear_arith);
        assert(7 * k * i >= 0) by (nonlinear_arith)
            requires
                k >= 1,
                i >= 0,
        ;
        lemma_mondays(day_number(first), day_number(s), k * i);
        crate::time::lemma_valid_is_day(s);
        lemma_weekly_period(s, rule, d);
        lemma_finds_dates(first, rule, sel, starts, d);
    }
}

/// Every date of a monthly rule with parts is in a month that is a number of intervals after
/// that of the first date, and is one that its numbers or weekdays pick there.
pub proof fn lemma_monthly_rule(first: CivilDate, rule: RuleModel, sel: Selection, d: CivilDate)
    requires
        rule.freq == Some(RRuleFreq::Monthly),
        1 <= rule.interval,
        rule.by_monthday.len() > 0 || rule.by_day.len() > 0,
        has_good_numbers(rule),
        valid_date(first),
        recurrence_dates(first, rule, sel).contains(d),
    ensures
        is_wanted(rule, sel, d),
        is_picked(d, rule),
        exists|i: int|
            0 <= i < 1000 && month_count(d) == month_count(first) + #[trigger] (rule.interval * i),
{
    let k = rule.interval as int;
    let starts = lemma_dates_of_rule(first, rule, sel, d);
    let i = starts.len() - 1;
    lemma_distance(RRuleFreq::Monthly, k, first, starts, i);
    lemma_monthly_period(starts.last(), rule, d);
    assert(month_count(d) == month_count(first) + rule.interval * i);
}

proof fn lemma_month_starts(first: CivilDate, k: int, i: int) -> (starts: Seq<CivilDate>)
    requires
        valid_date(first),
        k >= 1,
        0 <= i,
        month_count(first) + k * i < 120_000,
    ensures
        starts.len() == i + 1,
        goes_by(RRuleFreq::Monthly, k, first, starts),
        valid_date(starts.last()),
        month_count(starts.last()) == month_count(first) + k * i,
    decreases i,
{
    if i == 0 {
        assert(k * i == 0) by (nonlinear_arith)
            requires
                i == 0,
        ;
        seq![first]
    } else {
        assert(k * i == k * (i - 1) + k) by (nonlinear_arith);
        let front = lemma_month_starts(first, k, i - 1);
        let c = month_count(first) + k * i;
        assert(k * i >= 0) by (nonlinear_arith)
            requires
                k >= 1,
                i >= 1,
        ;
        let year = c / 12;
        let month = c % 12 + 1;
        let last = CivilDate { year, month, day: day_within(front.last().day, year, month) };
        assert(valid_date(last));
        let starts = front.push(last);
        assert forall|j: int| 0 < j < starts.len() implies is_later_by(
            RRuleFreq::Monthly,
            k,
            starts[j - 1],
            #[trigger] starts[j],
        ) by {
            if j < front.len() {
                assert(starts[j] == front[j] && starts[j - 1] == front[j - 1]);
            } else {
                assert(starts[j - 1] == front.last());
            }
        }
        assert(starts[0] == front[0]);
        starts
    }
}

/// No date of a monthly rule with parts and without a count is left out in a month before
/// the last one: each that its numbers or weekdays pick in a month that is a number of
/// intervals after that of the first date is found.
pub proof fn lemma_monthly_rule_finds(
    first: CivilDate,
    rule: RuleModel,
    sel: Selection,
    d: CivilDate,
    i: int,
)
    requires
        rule.freq == Some(RRuleFreq::Monthly),
        1 <= rule.interval <= 239_976,
        rule.by_monthday.len() > 0 || rule.by_day.len() > 0,
        rule.count is None,
        has_good_numbers(rule),
        valid_date(first),
        valid_date(d),
        0 <= i < 1000,
        month_count(d) == month_count(first) + rule.interval * i,
        is_picked(d, rule),
        is_wanted(rule, sel, d),
        valid_date(sel.end),
        month_count(d) < month_count(sel.end),
        rule.until is Some ==> valid_date(rule.until->0) && month_count(d) < month_count(
            rule.until->0,
        ),
    ensures
        recurrence_dates(first, rule, sel).contains(d),
{
    let starts = lemma_month_starts(first, rule.interval as int, i);
    lemma_monthly_period(starts.last(), rule, d);
    lemma_finds_dates(first, rule, sel, starts, d);
}

/// Every date of a yearly rule with parts is in a year that is a number of intervals after
/// that of the first date, in a month that the rule looks at; its numbers or weekdays pick
/// it there, or it is the day of the first date, as far as the months have it.
pub proof fn lemma_yearly_rule(first: CivilDate, rule: RuleModel, sel: Selection, d: CivilDate)
    requires
        rule.freq == Some(RRuleFreq::Yearly),
        1 <= rule.interval,
        has_by_rules(rule),
        has_good_numbers(rule),
        valid_date(first),
        recurrence_dates(first, rule, sel).contains(d),
    ensures
        is_wanted(rule, sel, d),
        is_looked_at(first, rule, d.month),
        rule.by_monthday.len() > 0 || rule.by_day.len() > 0 ==> is_picked(d, rule),
        rule.by_monthday.len() == 0 && rule.by_day.len() == 0 && first.day <= 28 ==> d.day
            == first.day,
        exists|i: int| 0 <= i < 1000 && d.year == first.year + #[trigger] (rule.interval * i),
{
    let k = rule.interval as int;
    let starts = lemma_dates_of_rule(first, rule, sel, d);
    let i = starts.len() - 1;
    lemma_distance(RRuleFreq::Yearly, k, first, starts, i);
    lemma_yearly_period(starts.last(), rule, d);
    assert(d.year == first.year + rule.interval * i);
}

proof fn lemma_year_starts(first: CivilDate, k: int, i: int) -> (starts: Seq<CivilDate>)
    requires
        valid_date(first),
        k >= 1,
        0 <= i,
        first.year + k * i <= 9999,
    ensures
        starts.len() == i + 1,
        goes_by(RRuleFreq::Yearly, k, first, starts),
        valid_date(starts.last()),
        starts.last().year == first.year + k * i,
        starts.last().month == first.month,
        first.day <= 28 ==> starts.last().day == first.day,
    decreases i,
{
    if i == 0 {
        assert(k * i == 0) by (nonlinear_arith)
            requires
                i == 0,
        ;
        seq![first]
    } else {
        assert(k * i == k * (i - 1) + k) by (nonlinear_arith);
        assert(k * i >= 0) by (nonlinear_arith)
            requires
                k >= 1,
                i >= 1,
        ;
        let front = lemma_year_starts(first, k, i - 1);
        let year = first.year + k * i;
        let last = CivilDate {
            year,
            month: first.month,
            day: day_within(front.last().day, year, first.month),
        };
        assert(valid_date(last));
        let starts = front.push(last);
        assert forall|j: int| 0 < j < starts.len() implies is_later_by(
            RRuleFreq::Yearly,
            k,
            starts[j - 1],
            #[trigger] starts[j],
        ) by {
            if j < front.len() {
                assert(starts[j] == front[j] && starts[j - 1] == front[j - 1]);
            } else {
                assert(starts[j - 1] == front.last());
            }
        }
        assert(starts[0] == front[0]);
        starts
    }
}

/// No date of a yearly rule with parts and without a count is left out in a year before the
/// last one.
pub proof fn lemma_yearly_rule_finds(
    first: CivilDate,
    rule: RuleModel,
    sel: Selection,
    d: CivilDate,
    i: int,
)
    requires
        rule.freq == Some(RRuleFreq::Yearly),
        1 <= rule.interval,
        has_by_rules(rule),
        rule.count is None,
        has_good_numbers(rule),
        valid_date(first),
        valid_date(d),
        0 <= i < 1000,
        d.year == first.year + rule.interval * i,
        is_looked_at(first, rule, d.month),
        if rule.by_monthday.len() > 0 || rule.by_day.len() > 0 {
            is_picked(d, rule)
        } else {
            first.day <= 28 && d.day == first.day
        },
        is_wanted(rule, sel, d),
        d.year < sel.end.year,
        rule.until is Some ==> d.year < rule.until->0.year,
    ensures
        recurrence_dates(first, rule, sel).contains(d),
{
    let starts = lemma_year_starts(first, rule.interval as int, i);
    lemma_yearly_period(starts.last(), rule, d);
    lemma_finds_dates(first, rule, sel, starts, d);
}

} // verus!
