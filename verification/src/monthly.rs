//! The report by month: what the closed positions of a ledger gained and bound in each
//! calendar month, under both gain policies, and how the months rank.

use crate::calendar::{month_index, month_of_index, year_of_index};
use crate::lifecycle::portfolio;
use crate::model::{chain_wf, lemma_amount_bounds, ContractView, Position};
use crate::months::{
    are_fragments, fragment_gain, fragment_index, fragment_investment, is_fragment,
    lemma_fragment_days, month_count, GainPolicy, PositionMonth,
};
use crate::ratio::{is_ranking, rank, Ratio};
use crate::report::{check_ledger, counts_as_closed, is_ledger_error, ledger_ok, ReportError};
use crate::tradingmonth::{
    gather_months, gathers, has_month, holds_month, month_gain, month_investment, TradingMonth,
};
use vstd::prelude::*;

verus! {

/// Which of a position's months the month `year`-`month` is, counted from the first.
pub open spec fn month_offset(chain: Seq<ContractView>, year: i32, month: u32) -> int {
    month_index(year as int, month as int) - fragment_index(chain, 0)
}

/// Whether the span of a position touches the month `year`-`month`.
pub open spec fn touches_month(chain: Seq<ContractView>, year: i32, month: u32) -> bool {
    &&& 1 <= month <= 12
    &&& 0 <= month_offset(chain, year, month) < month_count(chain)
}

/// Gain that a position lays on the month `year`-`month` under `policy`.
pub open spec fn chain_month_gain(
    chain: Seq<ContractView>,
    policy: GainPolicy,
    year: i32,
    month: u32,
) -> int {
    if touches_month(chain, year, month) {
        fragment_gain(chain, month_offset(chain, year, month), policy)
    } else {
        0
    }
}

/// Investment that a position lays on the month `year`-`month`.
pub open spec fn chain_month_investment(chain: Seq<ContractView>, year: i32, month: u32) -> int {
    if touches_month(chain, year, month) {
        fragment_investment(chain, month_offset(chain, year, month))
    } else {
        0
    }
}

/// Gain that the closed positions of a ledger lay on the month `year`-`month`.
pub open spec fn ledger_month_gain(
    chains: Seq<Seq<ContractView>>,
    policy: GainPolicy,
    year: i32,
    month: u32,
) -> int
    decreases chains.len(),
{
    if chains.len() == 0 {
        0
    } else {
        ledger_month_gain(chains.drop_last(), policy, year, month) + if counts_as_closed(
            chains.last(),
        ) {
            chain_month_gain(chains.last(), policy, year, month)
        } else {
            0
        }
    }
}

/// Investment that the closed positions of a ledger lay on the month `year`-`month`.
pub open spec fn ledger_month_investment(chains: Seq<Seq<ContractView>>, year: i32, month: u32) -> int
    decreases chains.len(),
{
    if chains.len() == 0 {
        0
    } else {
        ledger_month_investment(chains.drop_last(), year, month) + if counts_as_closed(
            chains.last(),
        ) {
            chain_month_investment(chains.last(), year, month)
        } else {
            0
        }
    }
}

/// Whether the span of a closed position of the ledger touches the month `year`-`month`.
pub open spec fn ledger_touches_month(chains: Seq<Seq<ContractView>>, year: i32, month: u32) -> bool {
    exists|i: int|
        0 <= i < chains.len() && counts_as_closed(#[trigger] chains[i]) && touches_month(
            chains[i],
            year,
            month,
        )
}

/// Whether `months` are the months of trading of the ledger under `policy`: one for
/// every month that the span of a closed position touches and no other, in order of
/// time, each with what the closed positions lay on it.
pub open spec fn are_trading_months(
    months: Seq<TradingMonth>,
    chains: Seq<Seq<ContractView>>,
    policy: GainPolicy,
) -> bool {
    &&& forall|a: int, b: int|
        0 <= a < b < months.len() ==> crate::tradingmonth::month_precedes(
            (#[trigger] months[a]).year,
            months[a].month,
            (#[trigger] months[b]).year,
            months[b].month,
        )
    &&& forall|b: int|
        0 <= b < months.len() ==> {
            &&& ledger_touches_month(chains, (#[trigger] months[b]).year, months[b].month)
            &&& months[b].gain == ledger_month_gain(chains, policy, months[b].year, months[b].month)
            &&& months[b].investment == ledger_month_investment(
                chains,
                months[b].year,
                months[b].month,
            )
            &&& months[b].wf()
        }
    &&& forall|year: i32, month: u32| #[trigger]
        ledger_touches_month(chains, year, month) ==> holds_month(months, year, month)
}

/// Keys that rank months by time.
pub open spec fn time_keys(months: Seq<TradingMonth>) -> Seq<Ratio> {
    Seq::new(
        months.len(),
        |i: int| Ratio { numerator: (months[i].year * 12 + months[i].month) as i128, denominator: 1 },
    )
}

/// Keys that rank months by gain.
pub open spec fn gain_keys(months: Seq<TradingMonth>) -> Seq<Ratio> {
    Seq::new(months.len(), |i: int| Ratio { numerator: months[i].gain, denominator: 1 })
}

/// Keys that rank months by gain per unit of capital and day.
pub open spec fn rate_keys(months: Seq<TradingMonth>) -> Seq<Ratio> {
    Seq::new(
        months.len(),
        |i: int| Ratio { numerator: months[i].gain, denominator: months[i].investment },
    )
}

/// The report by month.
#[derive(Debug, PartialEq, Eq)]
pub struct MonthReport {
    /// Months of trading with the gain spread over each position's days.
    pub distributed: Vec<TradingMonth>,
    /// Months of trading with each position's gain in the month it ended in.
    pub taxable: Vec<TradingMonth>,
    /// Places of `distributed`, latest month first.
    pub chronological: Vec<usize>,
    /// Places of `distributed`, highest daily return first.
    pub by_daily_return: Vec<usize>,
    /// Places of `distributed`, highest gain first.
    pub by_gain: Vec<usize>,
    /// Places of `taxable`, latest month first.
    pub taxable_chronological: Vec<usize>,
    /// Places of `taxable`, highest gain first.
    pub taxable_by_gain: Vec<usize>,
}

impl MonthReport {
    /// Every month can be shown and every ranking names months of the report.
    pub open spec fn wf(&self) -> bool {
        &&& forall|b: int| 0 <= b < self.distributed@.len() ==> (#[trigger] self.distributed@[b]).wf()
        &&& forall|b: int| 0 <= b < self.taxable@.len() ==> (#[trigger] self.taxable@[b]).wf()
        &&& names_places(self.chronological@, self.distributed@.len())
        &&& names_places(self.by_daily_return@, self.distributed@.len())
        &&& names_places(self.by_gain@, self.distributed@.len())
        &&& names_places(self.taxable_chronological@, self.taxable@.len())
        &&& names_places(self.taxable_by_gain@, self.taxable@.len())
    }

    /// Whether every month can be shown and every ranking names months of the report.
    pub fn is_well_formed(&self) -> (r: bool)
        ensures
            r == self.wf(),
    {
        all_well_formed(&self.distributed) && all_well_formed(&self.taxable) && all_below(
            &self.chronological,
            self.distributed.len(),
        ) && all_below(&self.by_daily_return, self.distributed.len()) && all_below(
            &self.by_gain,
            self.distributed.len(),
        ) && all_below(&self.taxable_chronological, self.taxable.len()) && all_below(
            &self.taxable_by_gain,
            self.taxable.len(),
        )
    }
}

/// Whether every month can be shown.
fn all_well_formed(months: &Vec<TradingMonth>) -> (r: bool)
    ensures
        r == forall|b: int| 0 <= b < months@.len() ==> (#[trigger] months@[b]).wf(),
{
    let mut b: usize = 0;
    while b < months.len()
        invariant
            b <= months.len(),
            forall|a: int| 0 <= a < b ==> (#[trigger] months@[a]).wf(),
        decreases months.len() - b,
    {
        if !months[b].is_well_formed() {
            return false;
        }
        b += 1;
    }
    true
}

/// Whether every entry of a ranking is a place below `length`.
fn all_below(ranking: &Vec<usize>, length: usize) -> (r: bool)
    ensures
        r == names_places(ranking@, length as nat),
{
    let mut i: usize = 0;
    while i < ranking.len()
        invariant
            i <= ranking.len(),
            forall|a: int| 0 <= a < i ==> (#[trigger] ranking@[a]) < length,
        decreases ranking.len() - i,
    {
        if ranking[i] >= length {
            return false;
        }
        i += 1;
    }
    true
}

/// Whether every entry of `ranking` is a place below `length`.
pub open spec fn names_places(ranking: Seq<usize>, length: nat) -> bool {
    forall|i: int| 0 <= i < ranking.len() ==> (#[trigger] ranking[i]) < length
}

/// Whether `report` is the report by month of the ledger.
pub open spec fn is_month_report(report: MonthReport, chains: Seq<Seq<ContractView>>) -> bool {
    &&& report.wf()
    &&& are_trading_months(report.distributed@, chains, GainPolicy::Distributed)
    &&& are_trading_months(report.taxable@, chains, GainPolicy::Taxable)
    &&& is_ranking(report.chronological@, time_keys(report.distributed@), true)
    &&& is_ranking(report.by_daily_return@, rate_keys(report.distributed@), true)
    &&& is_ranking(report.by_gain@, gain_keys(report.distributed@), true)
    &&& is_ranking(report.taxable_chronological@, time_keys(report.taxable@), true)
    &&& is_ranking(report.taxable_by_gain@, gain_keys(report.taxable@), true)
}

/// The sums over the months of two lists of fragments add up over the joined list.
proof fn lemma_month_sums_of_joined(
    first: Seq<PositionMonth>,
    second: Seq<PositionMonth>,
    year: i32,
    month: u32,
)
    ensures
        month_gain(first + second, year, month) == month_gain(first, year, month) + month_gain(
            second,
            year,
            month,
        ),
        month_investment(first + second, year, month) == month_investment(first, year, month)
            + month_investment(second, year, month),
    decreases second.len(),
{
    if second.len() == 0 {
        assert(first + second =~= first);
    } else {
        lemma_month_sums_of_joined(first, second.drop_last(), year, month);
        assert((first + second).drop_last() =~= first + second.drop_last());
        assert((first + second).last() == second.last());
    }
}

/// The first `n` fragments of a position lay on a month what the position lays on it,
/// as far as the month is among the first `n` of its span.
proof fn lemma_month_sums_of_fragments(
    fragments: Seq<PositionMonth>,
    chain: Seq<ContractView>,
    policy: GainPolicy,
    year: i32,
    month: u32,
    n: int,
)
    requires
        are_fragments(fragments, chain, policy),
        0 <= n <= fragments.len(),
    ensures
        month_gain(fragments.take(n), year, month) == if touches_month(chain, year, month)
            && month_offset(chain, year, month) < n {
            chain_month_gain(chain, policy, year, month)
        } else {
            0
        },
        month_investment(fragments.take(n), year, month) == if touches_month(chain, year, month)
            && month_offset(chain, year, month) < n {
            chain_month_investment(chain, year, month)
        } else {
            0
        },
    decreases n,
{
    if n > 0 {
        lemma_month_sums_of_fragments(fragments, chain, policy, year, month, n - 1);
        assert(fragments.take(n).drop_last() =~= fragments.take(n - 1));
        assert(fragments.take(n).last() == fragments[n - 1]);
        assert(is_fragment(fragments[n - 1], chain, n - 1, policy));
    }
}

/// The fragments of a position lie in exactly the months its span touches.
proof fn lemma_months_of_fragments(
    fragments: Seq<PositionMonth>,
    chain: Seq<ContractView>,
    policy: GainPolicy,
    year: i32,
    month: u32,
)
    requires
        are_fragments(fragments, chain, policy),
    ensures
        has_month(fragments, year, month) <==> touches_month(chain, year, month),
{
    if has_month(fragments, year, month) {
        let k = choose|k: int|
            0 <= k < fragments.len() && (#[trigger] fragments[k]).year == year && fragments[k].month
                == month;
        assert(is_fragment(fragments[k], chain, k, policy));
    }
    if touches_month(chain, year, month) {
        let k = month_offset(chain, year, month);
        assert(is_fragment(fragments[k], chain, k, policy));
        assert(fragments[k].year == year && fragments[k].month == month);
    }
}

/// What ties a list of fragments to the positions it was drawn from.
spec fn drawn_from(
    fragments: Seq<PositionMonth>,
    chains: Seq<Seq<ContractView>>,
    policy: GainPolicy,
) -> bool {
    &&& forall|year: i32, month: u32| #[trigger]
        month_gain(fragments, year, month) == ledger_month_gain(chains, policy, year, month)
    &&& forall|year: i32, month: u32| #[trigger]
        month_investment(fragments, year, month) == ledger_month_investment(chains, year, month)
    &&& forall|year: i32, month: u32| #[trigger]
        has_month(fragments, year, month) <==> ledger_touches_month(chains, year, month)
    &&& forall|k: int| 0 <= k < fragments.len() ==> (#[trigger] fragments[k]).investment > 0
}

/// Joining the fragments of one more position to a list keeps the list tied to the
/// positions it was drawn from.
proof fn lemma_drawn_from_one_more(
    fragments: Seq<PositionMonth>,
    added: Seq<PositionMonth>,
    chains: Seq<Seq<ContractView>>,
    policy: GainPolicy,
    i: int,
)
    requires
        0 <= i < chains.len(),
        chain_wf(chains[i]),
        drawn_from(fragments, chains.take(i), policy),
        counts_as_closed(chains[i]) ==> are_fragments(added, chains[i], policy),
        !counts_as_closed(chains[i]) ==> added.len() == 0,
    ensures
        drawn_from(fragments + added, chains.take(i + 1), policy),
{
    let chain = chains[i];
    let joined = fragments + added;
    let before = chains.take(i);
    let after = chains.take(i + 1);
    assert(after.drop_last() =~= before);
    assert(after.last() == chain);
    assert(chain.first() == chain[0] && chain.last() == chain[chain.len() - 1]);
    assert(chain[0].wf() && chain[chain.len() - 1].wf());
    assert forall|year: i32, month: u32| #[trigger]
        month_gain(joined, year, month) == ledger_month_gain(after, policy, year, month) by {
        lemma_month_sums_of_joined(fragments, added, year, month);
        if counts_as_closed(chain) {
            lemma_month_sums_of_fragments(added, chain, policy, year, month, added.len() as int);
            assert(added.take(added.len() as int) =~= added);
        } else {
            assert(added =~= Seq::<PositionMonth>::empty());
        }
        assert(month_gain(fragments, year, month) == ledger_month_gain(
            before,
            policy,
            year,
            month,
        ));
    }
    assert forall|year: i32, month: u32| #[trigger]
        month_investment(joined, year, month) == ledger_month_investment(after, year, month) by {
        lemma_month_sums_of_joined(fragments, added, year, month);
        if counts_as_closed(chain) {
            lemma_month_sums_of_fragments(added, chain, policy, year, month, added.len() as int);
            assert(added.take(added.len() as int) =~= added);
        } else {
            assert(added =~= Seq::<PositionMonth>::empty());
        }
        assert(month_investment(fragments, year, month) == ledger_month_investment(
            before,
            year,
            month,
        ));
    }
    assert forall|year: i32, month: u32| #[trigger]
        has_month(joined, year, month) <==> ledger_touches_month(after, year, month) by {
        assert(has_month(fragments, year, month) <==> ledger_touches_month(before, year, month));
        if counts_as_closed(chain) {
            lemma_months_of_fragments(added, chain, policy, year, month);
        }
        if has_month(joined, year, month) {
            let k = choose|k: int|
                0 <= k < joined.len() && (#[trigger] joined[k]).year == year && joined[k].month
                    == month;
            if k < fragments.len() {
                assert(fragments[k] == joined[k]);
                assert(has_month(fragments, year, month));
                let j = choose|j: int|
                    0 <= j < before.len() && counts_as_closed(#[trigger] before[j])
                        && touches_month(before[j], year, month);
                assert(after[j] == before[j]);
            } else {
                assert(added[k - fragments.len()] == joined[k]);
                assert(has_month(added, year, month));
                assert(after[i] == chain);
            }
        }
        if ledger_touches_month(after, year, month) {
            let j = choose|j: int|
                0 <= j < after.len() && counts_as_closed(#[trigger] after[j]) && touches_month(
                    after[j],
                    year,
                    month,
                );
            if j < i {
                assert(before[j] == after[j]);
                assert(ledger_touches_month(before, year, month));
                let k = choose|k: int|
                    0 <= k < fragments.len() && (#[trigger] fragments[k]).year == year
                        && fragments[k].month == month;
                assert(joined[k] == fragments[k]);
            } else {
                assert(has_month(added, year, month));
                let k = choose|k: int|
                    0 <= k < added.len() && (#[trigger] added[k]).year == year && added[k].month
                        == month;
                assert(joined[fragments.len() + k] == added[k]);
            }
        }
    }
    assert forall|k: int| 0 <= k < joined.len() implies (#[trigger] joined[k]).investment > 0 by {
        if k < fragments.len() {
            assert(joined[k] == fragments[k]);
        } else {
            let j = k - fragments.len();
            assert(joined[k] == added[j]);
            assert(is_fragment(added[j], chain, j, policy));
            lemma_fragment_days(chain, added.len() as int);
            lemma_amount_bounds(chain);
            let inv = crate::model::chain_investment(chain);
            let days = crate::months::fragment_days(chain, j);
            assert(inv * days > 0) by (nonlinear_arith)
                requires
                    inv > 0,
                    days >= 1,
            ;
        }
    }
}

/// What one position lays on a month stays within the limits of a single position.
proof fn lemma_chain_month_bounds(chain: Seq<ContractView>, policy: GainPolicy, year: i32, month: u32)
    requires
        chain_wf(chain),
    ensures
        -crate::model::MAX_GAIN <= chain_month_gain(chain, policy, year, month)
            <= crate::model::MAX_GAIN,
        0 <= chain_month_investment(chain, year, month) <= 31 * crate::model::MAX_INVESTMENT,
{
    if touches_month(chain, year, month) {
        let k = month_offset(chain, year, month);
        assert(chain.first() == chain[0] && chain.last() == chain[chain.len() - 1]);
        assert(chain[0].wf() && chain[chain.len() - 1].wf());
        lemma_fragment_days(chain, month_count(chain));
        lemma_amount_bounds(chain);
        let g = crate::model::chain_gain(chain);
        let inv = crate::model::chain_investment(chain);
        let d = crate::months::fragment_days(chain, k);
        let t = crate::months::total_days(chain);
        assert(1 <= d <= 31 && d <= t);
        assert(0 <= inv * d <= 31 * crate::model::MAX_INVESTMENT) by (nonlinear_arith)
            requires
                0 < inv <= crate::model::MAX_INVESTMENT,
                1 <= d <= 31,
        ;
        assert(-(crate::model::MAX_GAIN * t) <= g * d <= crate::model::MAX_GAIN * t)
            by (nonlinear_arith)
            requires
                -crate::model::MAX_GAIN <= g <= crate::model::MAX_GAIN,
                1 <= d <= t,
        ;
        crate::money::lemma_div_round_bound(g * d, t, crate::model::MAX_GAIN as int);
    }
}

/// What a ledger lays on a month is bounded by the number of its positions.
proof fn lemma_ledger_month_bounds(
    chains: Seq<Seq<ContractView>>,
    policy: GainPolicy,
    year: i32,
    month: u32,
)
    requires
        forall|i: int| 0 <= i < chains.len() ==> chain_wf(#[trigger] chains[i]),
    ensures
        -(chains.len() * crate::model::MAX_GAIN) <= ledger_month_gain(chains, policy, year, month)
            <= chains.len() * crate::model::MAX_GAIN,
        0 <= ledger_month_investment(chains, year, month) <= chains.len() * (31
            * crate::model::MAX_INVESTMENT),
    decreases chains.len(),
{
    if chains.len() > 0 {
        let init = chains.drop_last();
        assert forall|i: int| 0 <= i < init.len() implies chain_wf(#[trigger] init[i]) by {
            assert(init[i] == chains[i]);
        }
        lemma_ledger_month_bounds(init, policy, year, month);
        assert(chains.last() == chains[chains.len() - 1]);
        lemma_chain_month_bounds(chains.last(), policy, year, month);
        let n = chains.len() as int;
        assert((n - 1) * crate::model::MAX_GAIN + crate::model::MAX_GAIN == n
            * crate::model::MAX_GAIN) by (nonlinear_arith);
        assert((n - 1) * (31 * crate::model::MAX_INVESTMENT) + 31 * crate::model::MAX_INVESTMENT
            == n * (31 * crate::model::MAX_INVESTMENT)) by (nonlinear_arith);
    }
}

/// A month in which fragments lie, all with a positive investment, has a positive one.
proof fn lemma_month_investment_positive(fragments: Seq<PositionMonth>, year: i32, month: u32)
    requires
        has_month(fragments, year, month),
        forall|k: int| 0 <= k < fragments.len() ==> (#[trigger] fragments[k]).investment > 0,
    ensures
        month_investment(fragments, year, month) > 0,
    decreases fragments.len(),
{
    let init = fragments.drop_last();
    let last = fragments.last();
    assert(last == fragments[fragments.len() - 1]);
    assert forall|k: int| 0 <= k < init.len() implies (#[trigger] init[k]).investment > 0 by {
        assert(init[k] == fragments[k]);
    }
    if has_month(init, year, month) {
        lemma_month_investment_positive(init, year, month);
    } else {
        crate::tradingmonth::lemma_month_without_fragments(init, year, month);
        let k = choose|k: int|
            0 <= k < fragments.len() && (#[trigger] fragments[k]).year == year && fragments[k].month
                == month;
        if k < init.len() {
            assert(init[k] == fragments[k]);
        }
    }
}

/// The fragments of the closed positions of the ledger under `policy`, position by
/// position.
fn collect_fragments(positions: &Vec<Position>, policy: GainPolicy) -> (fragments: Vec<
    PositionMonth,
>)
    requires
        ledger_ok(portfolio(positions@)),
    ensures
        drawn_from(fragments@, portfolio(positions@), policy),
{
    let ghost chains = portfolio(positions@);
    let n: usize = positions.len();
    let mut fragments: Vec<PositionMonth> = Vec::new();
    let mut i: usize = 0;
    proof {
        assert forall|year: i32, month: u32| #[trigger]
            has_month(fragments@, year, month) <==> ledger_touches_month(
                chains.take(0),
                year,
                month,
            ) by {}
    }
    while i < n
        invariant
            n == positions.len(),
            chains == portfolio(positions@),
            ledger_ok(chains),
            i <= n,
            drawn_from(fragments@, chains.take(i as int), policy),
        decreases n - i,
    {
        proof {
            assert(chains[i as int] == positions@[i as int]@);
            assert(chain_wf(chains[i as int]));
        }
        let ghost before = fragments@;
        let mut added: Vec<PositionMonth> = if positions[i].is_closed() {
            positions[i].generate_months(policy)
        } else {
            Vec::new()
        };
        let ghost joined = added@;
        fragments.append(&mut added);
        proof {
            lemma_drawn_from_one_more(before, joined, chains, policy, i as int);
        }
        i += 1;
    }
    assert(chains.take(n as int) =~= chains);
    fragments
}

/// The months of trading of the ledger under `policy`.
fn trading_months(positions: &Vec<Position>, policy: GainPolicy) -> (months: Vec<TradingMonth>)
    requires
        ledger_ok(portfolio(positions@)),
    ensures
        are_trading_months(months@, portfolio(positions@), policy),
{
    let fragments = collect_fragments(positions, policy);
    let months = gather_months(&fragments);
    proof {
        let chains = portfolio(positions@);
        assert forall|b: int| 0 <= b < months.len() implies {
            &&& ledger_touches_month(chains, (#[trigger] months@[b]).year, months@[b].month)
            &&& months@[b].gain == ledger_month_gain(
                chains,
                policy,
                months@[b].year,
                months@[b].month,
            )
            &&& months@[b].investment == ledger_month_investment(
                chains,
                months@[b].year,
                months@[b].month,
            )
            &&& months@[b].wf()
        } by {
            let y = months@[b].year;
            let m = months@[b].month;
            assert(has_month(fragments@, y, m));
            assert(month_gain(fragments@, y, m) == ledger_month_gain(chains, policy, y, m));
            assert(month_investment(fragments@, y, m) == ledger_month_investment(chains, y, m));
            lemma_month_investment_positive(fragments@, y, m);
            lemma_ledger_month_bounds(chains, policy, y, m);
            let n = chains.len() as int;
            assert(n * crate::model::MAX_GAIN <= 2_147_483_647 * crate::model::MAX_GAIN)
                by (nonlinear_arith)
                requires
                    n <= 2_147_483_647,
            ;
            assert(n * (31 * crate::model::MAX_INVESTMENT) <= 2_147_483_647 * (31
                * crate::model::MAX_INVESTMENT)) by (nonlinear_arith)
                requires
                    n <= 2_147_483_647,
            ;
        }
        assert forall|year: i32, month: u32| #[trigger]
            ledger_touches_month(chains, year, month) implies holds_month(months@, year, month) by {
            assert(has_month(fragments@, year, month));
            let k = choose|k: int|
                0 <= k < fragments.len() && (#[trigger] fragments@[k]).year == year
                    && fragments@[k].month == month;
            assert(holds_month(months@, fragments@[k].year, fragments@[k].month));
        }
    }
    months
}

/// Ranks months by time, latest first.
fn rank_by_time(months: &Vec<TradingMonth>) -> (ranking: Vec<usize>)
    ensures
        is_ranking(ranking@, time_keys(months@), true),
{
    let n: usize = months.len();
    let mut keys: Vec<Ratio> = Vec::new();
    let mut i: usize = 0;
    while i < n
        invariant
            n == months.len(),
            i <= n,
            keys.len() == i,
            forall|j: int| 0 <= j < i ==> #[trigger] keys@[j] == time_keys(months@)[j],
        decreases n - i,
    {
        let key: i128 = months[i].year as i128 * 12 + months[i].month as i128;
        keys.push(Ratio::whole(key));
        i += 1;
    }
    assert(keys@ =~= time_keys(months@));
    rank(&keys, true)
}

/// Ranks months by gain, highest first.
fn rank_by_gain(months: &Vec<TradingMonth>) -> (ranking: Vec<usize>)
    ensures
        is_ranking(ranking@, gain_keys(months@), true),
{
    let n: usize = months.len();
    let mut keys: Vec<Ratio> = Vec::new();
    let mut i: usize = 0;
    while i < n
        invariant
            n == months.len(),
            i <= n,
            keys.len() == i,
            forall|j: int| 0 <= j < i ==> #[trigger] keys@[j] == gain_keys(months@)[j],
        decreases n - i,
    {
        keys.push(Ratio::whole(months[i].gain));
        i += 1;
    }
    assert(keys@ =~= gain_keys(months@));
    rank(&keys, true)
}

/// Ranks months by gain per unit of capital and day, highest first.
fn rank_by_rate(months: &Vec<TradingMonth>) -> (ranking: Vec<usize>)
    requires
        forall|b: int| 0 <= b < months.len() ==> (#[trigger] months@[b]).wf(),
    ensures
        is_ranking(ranking@, rate_keys(months@), true),
{
    let n: usize = months.len();
    let mut keys: Vec<Ratio> = Vec::new();
    let mut i: usize = 0;
    while i < n
        invariant
            n == months.len(),
            i <= n,
            keys.len() == i,
            forall|b: int| 0 <= b < months.len() ==> (#[trigger] months@[b]).wf(),
            forall|j: int| 0 <= j < i ==> #[trigger] keys@[j] == rate_keys(months@)[j],
        decreases n - i,
    {
        keys.push(Ratio { numerator: months[i].gain, denominator: months[i].investment });
        i += 1;
    }
    assert(keys@ =~= rate_keys(months@));
    rank(&keys, true)
}

/// Draws up the report by month from the closed positions of the ledger.
pub fn month(positions: &Vec<Position>) -> (r: Result<MonthReport, ReportError>)
    ensures
        match r {
            Ok(report) => ledger_ok(portfolio(positions@)) && is_month_report(
                report,
                portfolio(positions@),
            ),
            Err(e) => is_ledger_error(portfolio(positions@), e),
        },
{
    match check_ledger(positions) {
        Ok(_) => {},
        Err(e) => {
            return Err(e);
        },
    }
    let distributed = trading_months(positions, GainPolicy::Distributed);
    let taxable = trading_months(positions, GainPolicy::Taxable);
    let chronological = rank_by_time(&distributed);
    let by_daily_return = rank_by_rate(&distributed);
    let by_gain = rank_by_gain(&distributed);
    let taxable_chronological = rank_by_time(&taxable);
    let taxable_by_gain = rank_by_gain(&taxable);
    Ok(
        MonthReport {
            distributed,
            taxable,
            chronological,
            by_daily_return,
            by_gain,
            taxable_chronological,
            taxable_by_gain,
        },
    )
}

} // verus!
