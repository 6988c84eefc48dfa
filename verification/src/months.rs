//! Spreading a position's gain and bound capital over the calendar months it spans.
//!
//! A position spans the days from the opening of its first leg to the close of its
//! last leg, or to that leg's expiry while it has no close. Each month that holds one
//! of those days receives a fragment. Its investment is the position's investment once
//! for every day of the span that lies in the month. Its gain follows one of two
//! policies: in proportion to those days, or all of it in the month the span ends in.

use crate::calendar::{
    chrono_days_between, lemma_date_within_month, lemma_day_number_bounds,
    lemma_month_start_increases, lemma_month_step, month_of_index, month_start_day,
    year_of_index, Date,
};
use crate::model::{
    chain_gain, chain_investment, chain_wf, lemma_amount_bounds, ContractView, Position,
    MAX_GAIN,
};
use crate::money::{div_round, divide_rounded, lemma_div_round_bound};
use vstd::prelude::*;

verus! {

/// How a position's gain is laid on the months it spans.
#[derive(Clone, Copy, Debug, PartialEq, Eq, Structural)]
pub enum GainPolicy {
    /// Every month receives the gain in proportion to its days of the span.
    Distributed,
    /// The month in which the span ends receives all of the gain.
    Taxable,
}

/// One month's fragment of a position.
#[derive(Debug, PartialEq, Eq)]
pub struct PositionMonth {
    pub year: i32,
    pub month: u32,
    /// A copy of the position the fragment comes from.
    pub position: Position,
    /// Gain laid on this month, in ticks.
    pub gain: i64,
    /// The position's investment in ticks, once for each of its days in this month.
    pub investment: i64,
}

impl PositionMonth {
    pub fn clone(&self) -> (r: PositionMonth)
        ensures
            r.year == self.year,
            r.month == self.month,
            r.position@ == self.position@,
            r.gain == self.gain,
            r.investment == self.investment,
    {
        PositionMonth {
            year: self.year,
            month: self.month,
            position: self.position.clone(),
            gain: self.gain,
            investment: self.investment,
        }
    }
}

/// First day of the span: the day the first leg was opened.
pub open spec fn span_start(chain: Seq<ContractView>) -> Date {
    chain.first().open.date.date
}

/// Last day of the span: the day the final leg was closed, or its expiry while open.
pub open spec fn span_end(chain: Seq<ContractView>) -> Date {
    match chain.last().close {
        Some(c) => c.date.date,
        None => chain.last().open.expiry,
    }
}

/// Days of the span, both ends counted.
pub open spec fn total_days(chain: Seq<ContractView>) -> int {
    span_end(chain).day_number() - span_start(chain).day_number() + 1
}

/// Number of months the span touches; none where it ends before it starts.
pub open spec fn month_count(chain: Seq<ContractView>) -> int {
    if total_days(chain) <= 0 {
        0
    } else {
        span_end(chain).month_number() - span_start(chain).month_number() + 1
    }
}

pub open spec fn min_int(a: int, b: int) -> int {
    if a <= b {
        a
    } else {
        b
    }
}

pub open spec fn max_int(a: int, b: int) -> int {
    if a >= b {
        a
    } else {
        b
    }
}

/// Days that the month at `index` shares with the days `first_day` to `last_day`.
pub open spec fn overlap_days(index: int, first_day: int, last_day: int) -> int {
    min_int(month_start_day(index + 1) - 1, last_day) - max_int(month_start_day(index), first_day)
        + 1
}

/// Index of the `k`-th month of the span.
pub open spec fn fragment_index(chain: Seq<ContractView>, k: int) -> int {
    span_start(chain).month_number() + k
}

/// Days of the span in its `k`-th month.
pub open spec fn fragment_days(chain: Seq<ContractView>, k: int) -> int {
    overlap_days(
        fragment_index(chain, k),
        span_start(chain).day_number(),
        span_end(chain).day_number(),
    )
}

/// Investment of the `k`-th fragment: the capital once for each day.
pub open spec fn fragment_investment(chain: Seq<ContractView>, k: int) -> int {
    chain_investment(chain) * fragment_days(chain, k)
}

/// Gain of the `k`-th fragment under `policy`.
pub open spec fn fragment_gain(chain: Seq<ContractView>, k: int, policy: GainPolicy) -> int {
    match policy {
        GainPolicy::Distributed => div_round(
            chain_gain(chain) * fragment_days(chain, k),
            total_days(chain),
        ),
        GainPolicy::Taxable => if fragment_index(chain, k) == span_end(chain).month_number() {
            chain_gain(chain)
        } else {
            0
        },
    }
}

/// Whether `fragment` is the `k`-th fragment of `chain` under `policy`.
pub open spec fn is_fragment(
    fragment: PositionMonth,
    chain: Seq<ContractView>,
    k: int,
    policy: GainPolicy,
) -> bool {
    &&& fragment.year == year_of_index(fragment_index(chain, k))
    &&& fragment.month == month_of_index(fragment_index(chain, k))
    &&& fragment.position@ == chain
    &&& fragment.gain == fragment_gain(chain, k, policy)
    &&& fragment.investment == fragment_investment(chain, k)
}

/// Whether `fragments` are all the fragments of `chain` under `policy`, month by month.
pub open spec fn are_fragments(
    fragments: Seq<PositionMonth>,
    chain: Seq<ContractView>,
    policy: GainPolicy,
) -> bool {
    &&& fragments.len() == month_count(chain)
    &&& forall|k: int|
        0 <= k < fragments.len() ==> is_fragment(#[trigger] fragments[k], chain, k, policy)
}

/// Sum of the days of the first `n` fragments.
pub open spec fn fragment_days_sum(chain: Seq<ContractView>, n: int) -> int
    decreases n,
{
    if n <= 0 {
        0
    } else {
        fragment_days_sum(chain, n - 1) + fragment_days(chain, n - 1)
    }
}

/// Sum of the investments of the first `n` fragments.
pub open spec fn fragment_investment_sum(chain: Seq<ContractView>, n: int) -> int
    decreases n,
{
    if n <= 0 {
        0
    } else {
        fragment_investment_sum(chain, n - 1) + fragment_investment(chain, n - 1)
    }
}

/// Sum of the gains of the first `n` fragments under `policy`.
pub open spec fn fragment_gain_sum(chain: Seq<ContractView>, n: int, policy: GainPolicy) -> int
    decreases n,
{
    if n <= 0 {
        0
    } else {
        fragment_gain_sum(chain, n - 1, policy) + fragment_gain(chain, n - 1, policy)
    }
}

/// Where the span does not end before it starts, the month it starts in is not later
/// than the month it ends in, and a month starts within the span exactly if it is one
/// of the span's months after the first.
pub proof fn lemma_span_months(start: Date, end: Date, index: int)
    requires
        is_date(start),
        is_date(end),
        start.day_number() <= end.day_number(),
        start.month_number() <= index,
    ensures
        start.month_number() <= end.month_number(),
        month_start_day(index + 1) > start.day_number(),
        month_start_day(index) <= end.day_number() <==> index <= end.month_number(),
{
    let s = start.month_number();
    let e = end.month_number();
    lemma_date_within_month(start.year as int, start.month as int, start.day as int);
    lemma_date_within_month(end.year as int, end.month as int, end.day as int);
    if s > e {
        lemma_month_start_increases(e + 1, s);
    }
    lemma_month_start_increases(s + 1, index + 1);
    if index <= e {
        lemma_month_start_increases(index, e);
    } else {
        lemma_month_start_increases(e + 1, index);
    }
}

pub open spec fn is_date(date: Date) -> bool {
    crate::calendar::is_calendar_date(date.year as int, date.month as int, date.day as int)
}

/// Every fragment of a span holds at least one day, at most a month's worth, and the
/// fragments up to the `n`-th hold all days of the span before the next month starts.
pub proof fn lemma_fragment_days(chain: Seq<ContractView>, n: int)
    requires
        is_date(span_start(chain)),
        is_date(span_end(chain)),
        0 <= n <= month_count(chain),
    ensures
        forall|k: int| 0 <= k < n ==> 1 <= #[trigger] fragment_days(chain, k) <= 31,
        forall|k: int| 0 <= k < n ==> #[trigger] fragment_days(chain, k) <= total_days(chain),
        n < month_count(chain) ==> fragment_days_sum(chain, n) == max_int(
            month_start_day(fragment_index(chain, n)),
            span_start(chain).day_number(),
        ) - span_start(chain).day_number(),
        n == month_count(chain) ==> fragment_days_sum(chain, n) == max_int(0, total_days(chain)),
    decreases n,
{
    let start = span_start(chain);
    let end = span_end(chain);
    let sd = start.day_number();
    let ed = end.day_number();
    if n > 0 {
        lemma_fragment_days(chain, n - 1);
        let index = fragment_index(chain, n - 1);
        lemma_span_months(start, end, index);
        lemma_span_months(start, end, index + 1);
        lemma_month_step(index);
        lemma_date_within_month(start.year as int, start.month as int, start.day as int);
        if n - 1 > 0 {
            lemma_span_months(start, end, index - 1);
        }
        assert(1 <= fragment_days(chain, n - 1) <= 31);
        assert(fragment_days(chain, n - 1) <= total_days(chain));
    } else {
        lemma_date_within_month(start.year as int, start.month as int, start.day as int);
        if total_days(chain) > 0 {
            lemma_span_months(start, end, start.month_number());
        }
    }
}

/// The investments of the first `n` fragments sum to the investment times their days.
pub proof fn lemma_investment_sum(chain: Seq<ContractView>, n: int)
    requires
        0 <= n,
    ensures
        fragment_investment_sum(chain, n) == chain_investment(chain) * fragment_days_sum(chain, n),
    decreases n,
{
    if n > 0 {
        lemma_investment_sum(chain, n - 1);
        let i = chain_investment(chain);
        let a = fragment_days_sum(chain, n - 1);
        let b = fragment_days(chain, n - 1);
        assert(i * (a + b) == i * a + i * b) by (nonlinear_arith);
    }
}

/// Under the taxable policy the first `n` fragments hold no gain until the month in
/// which the span ends is among them, and all of it from then on.
pub proof fn lemma_taxable_gain_sum(chain: Seq<ContractView>, n: int)
    requires
        0 <= n <= month_count(chain),
    ensures
        fragment_gain_sum(chain, n, GainPolicy::Taxable) == if n == month_count(chain) && n > 0 {
            chain_gain(chain)
        } else {
            0
        },
    decreases n,
{
    if n > 0 {
        lemma_taxable_gain_sum(chain, n - 1);
    }
}

/// Sum of the investments of a list of fragments.
pub open spec fn investment_total(fragments: Seq<PositionMonth>) -> int
    decreases fragments.len(),
{
    if fragments.len() == 0 {
        0
    } else {
        investment_total(fragments.drop_last()) + fragments.last().investment
    }
}

/// Sum of the gains of a list of fragments.
pub open spec fn gain_total(fragments: Seq<PositionMonth>) -> int
    decreases fragments.len(),
{
    if fragments.len() == 0 {
        0
    } else {
        gain_total(fragments.drop_last()) + fragments.last().gain
    }
}

/// The totals over the first `n` fragments of a position are the sums of what each of
/// its first `n` months is owed.
proof fn lemma_totals_of_prefix(
    fragments: Seq<PositionMonth>,
    chain: Seq<ContractView>,
    policy: GainPolicy,
    n: int,
)
    requires
        are_fragments(fragments, chain, policy),
        0 <= n <= fragments.len(),
    ensures
        investment_total(fragments.take(n)) == fragment_investment_sum(chain, n),
        gain_total(fragments.take(n)) == fragment_gain_sum(chain, n, policy),
    decreases n,
{
    if n > 0 {
        lemma_totals_of_prefix(fragments, chain, policy, n - 1);
        assert(fragments.take(n).drop_last() =~= fragments.take(n - 1));
        assert(fragments.take(n).last() == fragments[n - 1]);
        assert(is_fragment(fragments[n - 1], chain, n - 1, policy));
    }
}

/// Day accounting is exact: the investments of a position's fragments, under either
/// policy, sum to its investment times the days of its span. Every day of the span is
/// counted in exactly one month. The span must not end more than a day before it
/// starts.
pub proof fn law_investment_days_are_exact(
    fragments: Seq<PositionMonth>,
    chain: Seq<ContractView>,
    policy: GainPolicy,
)
    requires
        chain_wf(chain),
        are_fragments(fragments, chain, policy),
        total_days(chain) >= 0,
    ensures
        investment_total(fragments) == chain_investment(chain) * total_days(chain),
{
    let n = fragments.len() as int;
    assert(chain.first() == chain[0] && chain.last() == chain[chain.len() - 1]);
    assert(chain[0].wf() && chain[chain.len() - 1].wf());
    lemma_totals_of_prefix(fragments, chain, policy, n);
    assert(fragments.take(n) =~= fragments);
    lemma_investment_sum(chain, n);
    lemma_fragment_days(chain, n);
}

/// Under the taxable policy all gain lands in one month: the gains of the fragments of
/// a position whose span does not end before it starts sum to its gain.
pub proof fn law_taxable_gain_is_whole(fragments: Seq<PositionMonth>, chain: Seq<ContractView>)
    requires
        chain_wf(chain),
        are_fragments(fragments, chain, GainPolicy::Taxable),
        total_days(chain) >= 1,
    ensures
        gain_total(fragments) == chain_gain(chain),
        forall|k: int|
            0 <= k < fragments.len() - 1 ==> (#[trigger] fragments[k]).gain == 0,
        fragments.len() >= 1,
        fragments.last().gain == chain_gain(chain),
{
    let n = fragments.len() as int;
    assert(chain.first() == chain[0] && chain.last() == chain[chain.len() - 1]);
    assert(chain[0].wf() && chain[chain.len() - 1].wf());
    lemma_span_months(span_start(chain), span_end(chain), span_start(chain).month_number());
    lemma_totals_of_prefix(fragments, chain, GainPolicy::Taxable, n);
    assert(fragments.take(n) =~= fragments);
    lemma_taxable_gain_sum(chain, n);
    assert forall|k: int| 0 <= k < fragments.len() - 1 implies (#[trigger] fragments[k]).gain
        == 0 by {
        assert(is_fragment(fragments[k], chain, k, GainPolicy::Taxable));
    }
    assert(is_fragment(fragments[n - 1], chain, n - 1, GainPolicy::Taxable));
}

/// Twice the gains that the first `n` fragments hold under the distributed policy,
/// taken times the days of the span, differ from twice the gain times the days of
/// those fragments by no more than the days of the span for each fragment.
proof fn lemma_distributed_gain_sum(chain: Seq<ContractView>, n: int)
    requires
        total_days(chain) >= 1,
        0 <= n,
    ensures
        -(n * total_days(chain)) <= 2 * total_days(chain) * fragment_gain_sum(
            chain,
            n,
            GainPolicy::Distributed,
        ) - 2 * chain_gain(chain) * fragment_days_sum(chain, n) <= n * total_days(chain),
    decreases n,
{
    let t = total_days(chain);
    let g = chain_gain(chain);
    if n > 0 {
        lemma_distributed_gain_sum(chain, n - 1);
        let d = fragment_days(chain, n - 1);
        let share = fragment_gain(chain, n - 1, GainPolicy::Distributed);
        crate::money::lemma_div_round_error(g * d, t);
        let before = fragment_gain_sum(chain, n - 1, GainPolicy::Distributed);
        let days_before = fragment_days_sum(chain, n - 1);
        assert(2 * t * (before + share) - 2 * g * (days_before + d) == (2 * t * before - 2 * g
            * days_before) + (2 * t * share - 2 * (g * d))) by (nonlinear_arith);
        assert(n * t == (n - 1) * t + t) by (nonlinear_arith);
    } else {
        assert(2 * t * 0 - 2 * g * 0 == 0) by (nonlinear_arith);
        assert(0 * t == 0) by (nonlinear_arith);
    }
}

/// Under the distributed policy the gain is spread whole but for rounding: the gains of
/// the fragments of a position whose span does not end before it starts sum to its
/// gain, give or take half a tick for each fragment.
pub proof fn law_distributed_gain_is_whole_but_for_rounding(
    fragments: Seq<PositionMonth>,
    chain: Seq<ContractView>,
)
    requires
        chain_wf(chain),
        are_fragments(fragments, chain, GainPolicy::Distributed),
        total_days(chain) >= 1,
    ensures
        -fragments.len() <= 2 * (gain_total(fragments) - chain_gain(chain)) <= fragments.len(),
{
    let n = fragments.len() as int;
    let t = total_days(chain);
    let g = chain_gain(chain);
    assert(chain.first() == chain[0] && chain.last() == chain[chain.len() - 1]);
    assert(chain[0].wf() && chain[chain.len() - 1].wf());
    lemma_totals_of_prefix(fragments, chain, GainPolicy::Distributed, n);
    assert(fragments.take(n) =~= fragments);
    lemma_fragment_days(chain, n);
    lemma_distributed_gain_sum(chain, n);
    let sum = gain_total(fragments);
    assert(fragment_days_sum(chain, n) == t);
    assert(2 * t * sum - 2 * g * t == t * (2 * (sum - g))) by (nonlinear_arith);
    let x = 2 * (sum - g);
    assert(-n <= x <= n) by (nonlinear_arith)
        requires
            t >= 1,
            -(n * t) <= t * x <= n * t,
    ;
}

impl Position {
    /// First and last day of the span of the position.
    fn span(&self) -> (r: (Date, Date))
        requires
            self.wf(),
        ensures
            r.0 == span_start(self@),
            r.1 == span_end(self@),
            r.0.wf(),
            r.1.wf(),
    {
        let n: usize = self.contracts.len();
        assert(self@.first() == self@[0] && self@.last() == self@[n - 1]);
        assert(self@[0].wf() && self@[n - 1].wf());
        let start: Date = self.contracts[0].open.date.date;
        let last = &self.contracts[n - 1];
        let end: Date = match last.close {
            Some(close) => close.date.date,
            None => last.open.expiry,
        };
        (start, end)
    }

    /// The fragments of the position under `policy`, one for each month of its span, in
    /// order of time.
    pub fn generate_months(&self, policy: GainPolicy) -> (months: Vec<PositionMonth>)
        requires
            self.wf(),
        ensures
            are_fragments(months@, self@, policy),
    {
        let (start, end) = self.span();
        let gain: i64 = self.gain();
        let investment: i64 = self.investment();
        let mut months: Vec<PositionMonth> = Vec::new();
        proof {
            lemma_day_number_bounds(start);
            lemma_day_number_bounds(end);
        }
        let last_offset: i64 = end.days_since(&start);
        if last_offset < 0 {
            return months;
        }
        let total: i64 = last_offset + 1;
        let ghost chain = self@;
        let ghost first_day = start.day_number();
        let ghost last_day = end.day_number();
        let ghost first_index = start.month_number();
        let ghost last_index = end.month_number();
        let mut year: i32 = start.year;
        let mut month: u32 = start.month;
        let mut range_start: i64 = 0;
        proof {
            lemma_date_within_month(start.year as int, start.month as int, start.day as int);
            lemma_span_months(start, end, first_index);
        }
        while range_start <= last_offset
            invariant
                self.wf(),
                chain == self@,
                start == span_start(chain),
                end == span_end(chain),
                start.wf(),
                end.wf(),
                first_day == start.day_number(),
                last_day == end.day_number(),
                first_index == start.month_number(),
                last_index == end.month_number(),
                last_offset == last_day - first_day,
                total == last_offset + 1,
                1 <= total <= 7_304_484,
                gain == chain_gain(chain),
                investment == chain_investment(chain),
                first_index <= first_index + months.len() <= last_index + 1,
                year == year_of_index(first_index + months.len()),
                month == month_of_index(first_index + months.len()),
                range_start == max_int(month_start_day(first_index + months.len()), first_day)
                    - first_day,
                range_start <= last_offset <==> first_index + months.len() <= last_index,
                forall|k: int|
                    0 <= k < months.len() ==> is_fragment(#[trigger] months@[k], chain, k, policy),
            decreases last_index + 1 - (first_index + months.len()),
        {
            let ghost k = months.len() as int;
            let ghost index = first_index + k;
            proof {
                lemma_month_step(index);
                lemma_span_months(start, end, index);
                lemma_span_months(start, end, index + 1);
                lemma_amount_bounds(chain);
                assert(year <= end.year);
            }
            let next: Date = if month == 12 {
                Date { year: year + 1, month: 1, day: 1 }
            } else {
                Date { year, month: month + 1, day: 1 }
            };
            assert(next.year == year_of_index(index + 1) && next.month == month_of_index(
                index + 1,
            ));
            let next_offset: i64 = chrono_days_between(next, start);
            let range_end: i64 = if next_offset - 1 < last_offset {
                next_offset - 1
            } else {
                last_offset
            };
            let days: i64 = range_end - range_start + 1;
            assert(days == fragment_days(chain, k));
            assert(1 <= days <= 31 && days <= total);
            let share: i64 = match policy {
                GainPolicy::Distributed => {
                    proof {
                        let g = gain as int;
                        let d = days as int;
                        let t = total as int;
                        assert(-(MAX_GAIN * t) <= g * d <= MAX_GAIN * t) by (nonlinear_arith)
                            requires
                                -MAX_GAIN <= g <= MAX_GAIN,
                                1 <= d <= t,
                        ;
                        assert(-(MAX_GAIN * 31) <= g * d <= MAX_GAIN * 31) by (nonlinear_arith)
                            requires
                                -MAX_GAIN <= g <= MAX_GAIN,
                                1 <= d <= 31,
                        ;
                        lemma_div_round_bound(g * d, t, MAX_GAIN as int);
                    }
                    divide_rounded(gain as i128 * days as i128, total as i128) as i64
                },
                GainPolicy::Taxable => {
                    if year == end.year && month == end.month {
                        gain
                    } else {
                        0
                    }
                },
            };
            proof {
                let i = investment as int;
                let d = days as int;
                assert(0 < i * d <= 6_553_500_000_000_000 * 31) by (nonlinear_arith)
                    requires
                        0 < i <= 6_553_500_000_000_000,
                        1 <= d <= 31,
                ;
            }
            let fragment = PositionMonth {
                year,
                month,
                position: self.clone(),
                gain: share,
                investment: investment * days,
            };
            assert(is_fragment(fragment, chain, k, policy));
            months.push(fragment);
            year = next.year;
            month = next.month;
            range_start = next_offset;
        }
        months
    }

    /// The fragments of the position with its gain spread over the months in proportion
    /// to the days each month holds of the span.
    pub fn generate_distributed_months(&self) -> (months: Vec<PositionMonth>)
        requires
            self.wf(),
        ensures
            are_fragments(months@, self@, GainPolicy::Distributed),
    {
        self.generate_months(GainPolicy::Distributed)
    }

    /// The fragments of the position with all of its gain in the month the span ends in.
    pub fn generate_taxable_months(&self) -> (months: Vec<PositionMonth>)
        requires
            self.wf(),
        ensures
            are_fragments(months@, self@, GainPolicy::Taxable),
    {
        self.generate_months(GainPolicy::Taxable)
    }
}

} // verus!
