//! Figures drawn from a whole list of positions: totals, listings and rankings.
//!
//! A report reads every position of the list, so it first makes sure that each is a
//! well-formed chain of contracts and refuses the list otherwise.

use crate::calendar::{lemma_day_number_bounds, Date, Timestamp};
use crate::lifecycle::portfolio;
use crate::model::{
    chain_gain, chain_investment, chain_is_closed, chain_time, chain_wf, lemma_amount_bounds,
    ContractView, LegStatus, OptionKind, Position, MAX_GAIN, ROLLED_COUNTS_AS_CLOSED,
};
use crate::ratio::{is_ranking, rank, Order, Ratio};
use vstd::prelude::*;

verus! {

/// The most positions a list may hold for a report: as many as a cursor can tell apart.
pub const MAX_POSITIONS: usize = 2_147_483_647;

/// The best positions a ranking of positions shows.
pub const BEST_SHOWN: usize = 3;

/// Why a report was refused.
#[derive(Clone, Copy, Debug, PartialEq, Eq, Structural)]
pub enum ReportError {
    /// The list holds more positions than a cursor can tell apart.
    TooManyPositions,
    /// The position at this place breaks the rules of a chain of contracts.
    CorruptPosition(usize),
}

/// Whether every position of the list can be reported on.
pub open spec fn ledger_ok(chains: Seq<Seq<ContractView>>) -> bool {
    &&& chains.len() <= MAX_POSITIONS
    &&& forall|i: int| 0 <= i < chains.len() ==> chain_wf(#[trigger] chains[i])
}

/// Whether `error` is the reason for which the list cannot be reported on: it is too
/// long, or `error` names the first position that is not well formed.
pub open spec fn is_ledger_error(chains: Seq<Seq<ContractView>>, error: ReportError) -> bool {
    match error {
        ReportError::TooManyPositions => chains.len() > MAX_POSITIONS,
        ReportError::CorruptPosition(place) => {
            &&& chains.len() <= MAX_POSITIONS
            &&& place < chains.len()
            &&& !chain_wf(chains[place as int])
            &&& forall|i: int| 0 <= i < place ==> chain_wf(#[trigger] chains[i])
        },
    }
}

/// Makes sure that a report can read every position of the list.
pub fn check_ledger(positions: &Vec<Position>) -> (r: Result<(), ReportError>)
    ensures
        r is Ok <==> ledger_ok(portfolio(positions@)),
        r matches Err(e) ==> is_ledger_error(portfolio(positions@), e),
{
    let n: usize = positions.len();
    if n > MAX_POSITIONS {
        return Err(ReportError::TooManyPositions);
    }
    let mut i: usize = 0;
    while i < n
        invariant
            n == positions.len(),
            n <= MAX_POSITIONS,
            i <= n,
            forall|j: int| 0 <= j < i ==> chain_wf(#[trigger] portfolio(positions@)[j]),
        decreases n - i,
    {
        assert(portfolio(positions@)[i as int] == positions@[i as int]@);
        if !positions[i].is_well_formed() {
            return Err(ReportError::CorruptPosition(i));
        }
        i += 1;
    }
    Ok(())
}

/// Whether a position counts as closed in reports.
pub open spec fn counts_as_closed(chain: Seq<ContractView>) -> bool {
    chain_is_closed(chain, ROLLED_COUNTS_AS_CLOSED)
}

/// Sum of the gains of the positions that are closed, or of those that are not.
pub open spec fn gain_sum(chains: Seq<Seq<ContractView>>, closed: bool) -> int
    decreases chains.len(),
{
    if chains.len() == 0 {
        0
    } else {
        gain_sum(chains.drop_last(), closed) + if counts_as_closed(chains.last()) == closed {
            chain_gain(chains.last())
        } else {
            0
        }
    }
}

/// Gains over all positions, in ticks.
#[derive(Clone, Copy, Debug, PartialEq, Eq, Structural)]
pub struct Stats {
    /// Sum of the gains of the closed positions.
    pub realized: i128,
    /// Sum of the gains of the positions still open.
    pub unrealized: i128,
}

/// Adds up the gains of the closed positions and of the open ones.
pub fn stats(positions: &Vec<Position>) -> (r: Result<Stats, ReportError>)
    ensures
        match r {
            Ok(s) => {
                &&& ledger_ok(portfolio(positions@))
                &&& s.realized == gain_sum(portfolio(positions@), true)
                &&& s.unrealized == gain_sum(portfolio(positions@), false)
            },
            Err(e) => is_ledger_error(portfolio(positions@), e),
        },
{
    match check_ledger(positions) {
        Ok(_) => {},
        Err(e) => {
            return Err(e);
        },
    }
    let ghost chains = portfolio(positions@);
    let n: usize = positions.len();
    let mut realized: i128 = 0;
    let mut unrealized: i128 = 0;
    let mut i: usize = 0;
    while i < n
        invariant
            n == positions.len(),
            chains == portfolio(positions@),
            ledger_ok(chains),
            i <= n,
            realized == gain_sum(chains.take(i as int), true),
            unrealized == gain_sum(chains.take(i as int), false),
            -(i * MAX_GAIN) <= realized <= i * MAX_GAIN,
            -(i * MAX_GAIN) <= unrealized <= i * MAX_GAIN,
        decreases n - i,
    {
        proof {
            assert(chains[i as int] == positions@[i as int]@);
            assert(chain_wf(chains[i as int]));
            assert(chains.take(i + 1).drop_last() =~= chains.take(i as int));
            assert(chains.take(i + 1).last() == chains[i as int]);
            assert((i + 1) * MAX_GAIN == i * MAX_GAIN + MAX_GAIN) by (nonlinear_arith);
            assert(i * MAX_GAIN <= 2_147_483_647 * MAX_GAIN) by (nonlinear_arith)
                requires
                    i <= 2_147_483_647,
            ;
        }
        let gain: i64 = positions[i].gain();
        if positions[i].is_closed() {
            realized = realized + gain as i128;
        } else {
            unrealized = unrealized + gain as i128;
        }
        i += 1;
    }
    assert(chains.take(n as int) =~= chains);
    Ok(Stats { realized, unrealized })
}

/// A position still open, with its place in the list.
#[derive(Debug, PartialEq, Eq)]
pub struct OpenPosition {
    pub id: usize,
    pub pos: Position,
}

/// Whether the leg in force of a position has the status open.
pub open spec fn has_open_status(chain: Seq<ContractView>) -> bool {
    chain.last().open.status == LegStatus::Open
}

/// Whether `listed` holds copies of exactly those positions of `chains` that satisfy
/// `wanted`, each with its place, in the order of the list.
pub open spec fn lists_exactly(
    listed: Seq<OpenPosition>,
    chains: Seq<Seq<ContractView>>,
    wanted: spec_fn(Seq<ContractView>) -> bool,
) -> bool {
    &&& forall|k: int|
        0 <= k < listed.len() ==> {
            &&& (#[trigger] listed[k]).id < chains.len()
            &&& listed[k].pos@ == chains[listed[k].id as int]
            &&& wanted(chains[listed[k].id as int])
        }
    &&& forall|j: int, k: int|
        0 <= j < k < listed.len() ==> (#[trigger] listed[j]).id < (#[trigger] listed[k]).id
    &&& forall|i: int|
        0 <= i < chains.len() && wanted(#[trigger] chains[i]) ==> exists|k: int|
            0 <= k < listed.len() && (#[trigger] listed[k]).id == i
}

/// Lists the positions whose leg in force is open, each with its place in the list.
pub fn view(positions: &Vec<Position>) -> (r: Result<Vec<OpenPosition>, ReportError>)
    ensures
        match r {
            Ok(listed) => {
                &&& ledger_ok(portfolio(positions@))
                &&& lists_exactly(
                    listed@,
                    portfolio(positions@),
                    |chain: Seq<ContractView>| has_open_status(chain),
                )
            },
            Err(e) => is_ledger_error(portfolio(positions@), e),
        },
{
    match check_ledger(positions) {
        Ok(_) => {},
        Err(e) => {
            return Err(e);
        },
    }
    let ghost chains = portfolio(positions@);
    let ghost wanted = |chain: Seq<ContractView>| has_open_status(chain);
    let n: usize = positions.len();
    let mut listed: Vec<OpenPosition> = Vec::new();
    let mut i: usize = 0;
    while i < n
        invariant
            n == positions.len(),
            chains == portfolio(positions@),
            wanted == (|chain: Seq<ContractView>| has_open_status(chain)),
            ledger_ok(chains),
            i <= n,
            forall|k: int| 0 <= k < listed.len() ==> (#[trigger] listed@[k]).id < i,
            lists_exactly(listed@, chains.take(i as int), wanted),
        decreases n - i,
    {
        let ghost before = listed@;
        proof {
            assert(chains[i as int] == positions@[i as int]@);
            assert(chain_wf(chains[i as int]));
        }
        let open: bool = positions[i].get_status() == LegStatus::Open;
        if open {
            listed.push(OpenPosition { id: i, pos: positions[i].clone() });
        }
        proof {
            let now = listed@;
            let prefix = chains.take(i as int);
            let next = chains.take(i + 1);
            assert forall|k: int| 0 <= k < now.len() implies {
                &&& (#[trigger] now[k]).id < next.len()
                &&& now[k].pos@ == next[now[k].id as int]
                &&& wanted(next[now[k].id as int])
            } by {
                if k < before.len() {
                    assert(now[k] == before[k]);
                    assert(prefix[before[k].id as int] == next[before[k].id as int]);
                }
            }
            assert forall|j: int| 0 <= j < next.len() && wanted(#[trigger] next[j]) implies exists|
                k: int,
            | 0 <= k < now.len() && (#[trigger] now[k]).id == j by {
                if j < i {
                    assert(prefix[j] == next[j]);
                    let k = choose|k: int| 0 <= k < before.len() && (#[trigger] before[k]).id == j;
                    assert(now[k].id == j);
                } else {
                    assert(now[now.len() - 1].id == j);
                }
            }
        }
        i += 1;
    }
    assert(chains.take(n as int) =~= chains);
    Ok(listed)
}

/// The expiry of each position's leg in force, as a day number.
pub open spec fn expiry_keys(chains: Seq<Seq<ContractView>>) -> Seq<Ratio> {
    Seq::new(
        chains.len(),
        |i: int|
            Ratio {
                numerator: chains[i].last().open.expiry.day_number() as i128,
                denominator: 1,
            },
    )
}

/// Orders all positions by the expiry of their leg in force, soonest first; positions
/// that expire on the same day keep the order of the list. The result names the
/// positions by their places.
pub fn all(positions: &Vec<Position>) -> (r: Result<Vec<usize>, ReportError>)
    ensures
        match r {
            Ok(order) => {
                &&& ledger_ok(portfolio(positions@))
                &&& is_ranking(order@, expiry_keys(portfolio(positions@)), false)
            },
            Err(e) => is_ledger_error(portfolio(positions@), e),
        },
{
    match check_ledger(positions) {
        Ok(_) => {},
        Err(e) => {
            return Err(e);
        },
    }
    let ghost chains = portfolio(positions@);
    let n: usize = positions.len();
    let mut keys: Vec<Ratio> = Vec::new();
    let mut i: usize = 0;
    while i < n
        invariant
            n == positions.len(),
            chains == portfolio(positions@),
            ledger_ok(chains),
            i <= n,
            keys.len() == i,
            forall|j: int| 0 <= j < i ==> #[trigger] keys@[j] == expiry_keys(chains)[j],
        decreases n - i,
    {
        proof {
            let chain = chains[i as int];
            assert(chain == positions@[i as int]@);
            assert(chain_wf(chain));
            assert(chain.last() == chain[chain.len() - 1]);
            assert(chain[chain.len() - 1].wf());
            lemma_day_number_bounds(chain.last().open.expiry);
        }
        let expiry: Date = positions[i].final_contract().expiry();
        let epoch = Date { year: 1970, month: 1, day: 1 };
        assert(epoch.day_number() == 0) by {
            reveal_with_fuel(crate::calendar::days_before_month, 2);
        }
        let days: i64 = expiry.days_since(&epoch);
        keys.push(Ratio::whole(days as i128));
        i += 1;
    }
    assert(keys@ =~= expiry_keys(chains));
    Ok(rank(&keys, false))
}

/// Return per day held: the gain over the investment times the days held.
pub open spec fn daily_return(chain: Seq<ContractView>, now: Timestamp) -> Ratio {
    Ratio {
        numerator: chain_gain(chain) as i128,
        denominator: (chain_investment(chain) * chain_time(chain, now)) as i128,
    }
}

/// Whether the position at `p` comes ahead of the one at `q` when positions are ranked
/// by return per day: its return is higher, or equal with `p` the earlier place.
pub open spec fn is_better(chains: Seq<Seq<ContractView>>, now: Timestamp, p: int, q: int) -> bool {
    let order = daily_return(chains[p], now).order(daily_return(chains[q], now));
    order == Order::Greater || (order == Order::Equal && p < q)
}

/// The day a ranking shows for a position: the day its final leg was closed, or the
/// day its first leg was opened where the final leg has no close.
pub open spec fn shown_date(chain: Seq<ContractView>) -> Date {
    match chain.last().close {
        Some(c) => c.date.date,
        None => chain.first().open.date.date,
    }
}

/// One line of the ranking of best positions.
#[derive(Debug, PartialEq, Eq)]
pub struct BestEntry {
    /// Place of the position in the list.
    pub index: usize,
    pub ticker: String,
    pub date: Date,
    pub gain: i64,
    pub investment: i64,
    /// Days the position was held.
    pub days: i64,
    /// Gain over investment times days held.
    pub daily_return: Ratio,
}

impl BestEntry {
    /// The return per day is a fraction that can be shown as a percentage.
    pub open spec fn wf(&self) -> bool {
        &&& 0 < self.daily_return.denominator <= 1_000_000_000_000_000_000_000_000_000_000
        &&& -1_000_000_000_000_000_000_000_000_000_000 <= self.daily_return.numerator
            <= 1_000_000_000_000_000_000_000_000_000_000
    }

    /// Whether the return per day can be shown as a percentage.
    pub fn is_well_formed(&self) -> (r: bool)
        ensures
            r == self.wf(),
    {
        0 < self.daily_return.denominator && self.daily_return.denominator
            <= 1_000_000_000_000_000_000_000_000_000_000
            && -1_000_000_000_000_000_000_000_000_000_000 <= self.daily_return.numerator
            && self.daily_return.numerator <= 1_000_000_000_000_000_000_000_000_000_000
    }
}

/// Whether `entry` shows the figures of the position at its place.
pub open spec fn is_entry_of(entry: BestEntry, chains: Seq<Seq<ContractView>>, now: Timestamp) -> bool {
    let chain = chains[entry.index as int];
    &&& entry.index < chains.len()
    &&& counts_as_closed(chain)
    &&& entry.ticker@ == chain.last().open.ticker
    &&& entry.date == shown_date(chain)
    &&& entry.gain == chain_gain(chain)
    &&& entry.investment == chain_investment(chain)
    &&& entry.days == chain_time(chain, now)
    &&& entry.daily_return == daily_return(chain, now)
}

/// Whether `entries` are the closed positions with the highest return per day, best
/// first, as many as are shown.
pub open spec fn are_best(entries: Seq<BestEntry>, chains: Seq<Seq<ContractView>>, now: Timestamp) -> bool {
    &&& entries.len() <= BEST_SHOWN
    &&& forall|k: int|
        0 <= k < entries.len() ==> is_entry_of(#[trigger] entries[k], chains, now)
            && entries[k].wf()
    &&& forall|j: int, k: int|
        0 <= j < k < entries.len() ==> is_better(
            chains,
            now,
            (#[trigger] entries[j]).index as int,
            (#[trigger] entries[k]).index as int,
        )
    &&& forall|p: int|
        0 <= p < chains.len() && counts_as_closed(#[trigger] chains[p]) ==> {
            ||| exists|k: int| 0 <= k < entries.len() && (#[trigger] entries[k]).index == p
            ||| (entries.len() == BEST_SHOWN && forall|k: int|
                0 <= k < entries.len() ==> is_better(
                    chains,
                    now,
                    (#[trigger] entries[k]).index as int,
                    p,
                ))
        }
}

/// Ranks the closed positions by their return per day held and shows the best three.
pub fn best(positions: &Vec<Position>, now: Timestamp) -> (r: Result<Vec<BestEntry>, ReportError>)
    requires
        now.wf(),
    ensures
        match r {
            Ok(entries) => {
                &&& ledger_ok(portfolio(positions@))
                &&& are_best(entries@, portfolio(positions@), now)
            },
            Err(e) => is_ledger_error(portfolio(positions@), e),
        },
{
    match check_ledger(positions) {
        Ok(_) => {},
        Err(e) => {
            return Err(e);
        },
    }
    let ghost chains = portfolio(positions@);
    let n: usize = positions.len();
    let mut closed: Vec<usize> = Vec::new();
    let mut keys: Vec<Ratio> = Vec::new();
    let mut i: usize = 0;
    while i < n
        invariant
            n == positions.len(),
            chains == portfolio(positions@),
            ledger_ok(chains),
            now.wf(),
            i <= n,
            closed.len() == keys.len(),
            forall|k: int| 0 <= k < closed.len() ==> (#[trigger] closed@[k]) < i,
            forall|k: int|
                0 <= k < closed.len() ==> counts_as_closed(chains[(#[trigger] closed@[k]) as int]),
            forall|j: int, k: int|
                0 <= j < k < closed.len() ==> (#[trigger] closed@[j]) < (#[trigger] closed@[k]),
            forall|k: int|
                0 <= k < keys.len() ==> (#[trigger] keys@[k]) == daily_return(
                    chains[closed@[k] as int],
                    now,
                ) && keys@[k].wf(),
            forall|p: int|
                0 <= p < i && counts_as_closed(#[trigger] chains[p]) ==> exists|k: int|
                    0 <= k < closed.len() && (#[trigger] closed@[k]) == p,
        decreases n - i,
    {
        let ghost before = closed@;
        proof {
            assert(chains[i as int] == positions@[i as int]@);
            assert(chain_wf(chains[i as int]));
        }
        if positions[i].is_closed() {
            let gain: i64 = positions[i].gain();
            let investment: i64 = positions[i].investment();
            let days: i64 = positions[i].time(&now);
            proof {
                let a = investment as int;
                let b = days as int;
                assert(0 < a * b <= 6_553_500_000_000_000 * 7_304_484_000) by (nonlinear_arith)
                    requires
                        0 < a <= 6_553_500_000_000_000,
                        1 <= b <= 7_304_484_000,
                ;
            }
            closed.push(i);
            keys.push(
                Ratio { numerator: gain as i128, denominator: investment as i128 * days as i128 },
            );
        }
        proof {
            assert forall|p: int|
                0 <= p < i + 1 && counts_as_closed(#[trigger] chains[p]) implies exists|k: int|
                0 <= k < closed.len() && (#[trigger] closed@[k]) == p by {
                if p < i {
                    let k = choose|k: int| 0 <= k < before.len() && (#[trigger] before[k]) == p;
                    assert(closed@[k] == p);
                } else {
                    assert(closed@[closed.len() - 1] == p);
                }
            }
        }
        i += 1;
    }
    let ranking = rank(&keys, true);
    let shown: usize = if ranking.len() < BEST_SHOWN {
        ranking.len()
    } else {
        BEST_SHOWN
    };
    let mut entries: Vec<BestEntry> = Vec::new();
    let mut k: usize = 0;
    while k < shown
        invariant
            n == positions.len(),
            chains == portfolio(positions@),
            ledger_ok(chains),
            now.wf(),
            shown <= ranking.len(),
            ranking.len() == keys.len(),
            closed.len() == keys.len(),
            is_ranking(ranking@, keys@, true),
            forall|k: int| 0 <= k < closed.len() ==> (#[trigger] closed@[k]) < n,
            forall|k: int|
                0 <= k < closed.len() ==> counts_as_closed(chains[(#[trigger] closed@[k]) as int]),
            k <= shown,
            entries.len() == k,
            forall|j: int|
                0 <= j < k ==> is_entry_of(#[trigger] entries@[j], chains, now) && entries@[j].index
                    == closed@[ranking@[j] as int] && entries@[j].wf(),
        decreases shown - k,
    {
        let place: usize = closed[ranking[k]];
        proof {
            assert(chains[place as int] == positions@[place as int]@);
            assert(chain_wf(chains[place as int]));
            let a = chain_investment(chains[place as int]);
            let b = chain_time(chains[place as int], now);
            lemma_amount_bounds(chains[place as int]);
        }
        let position = &positions[place];
        let gain: i64 = position.gain();
        let investment: i64 = position.investment();
        let days: i64 = position.time(&now);
        proof {
            let a = investment as int;
            let b = days as int;
            assert(0 < a * b <= 6_553_500_000_000_000 * 7_304_484_000) by (nonlinear_arith)
                requires
                    0 < a <= 6_553_500_000_000_000,
                    1 <= b <= 7_304_484_000,
            ;
        }
        let last = position.final_contract();
        let date: Date = match last.close {
            Some(close) => close.date.date,
            None => position.contracts[0].open.date.date,
        };
        assert(position@.first() == position@[0]);
        entries.push(
            BestEntry {
                index: place,
                ticker: last.ticker(),
                date,
                gain,
                investment,
                days,
                daily_return: Ratio {
                    numerator: gain as i128,
                    denominator: investment as i128 * days as i128,
                },
            },
        );
        k += 1;
    }
    proof {
        let listed = entries@;
        assert forall|j: int, k: int| 0 <= j < k < listed.len() implies is_better(
            chains,
            now,
            (#[trigger] listed[j]).index as int,
            (#[trigger] listed[k]).index as int,
        ) by {
            lemma_ranked_is_better(chains, now, closed@, keys@, ranking@, j, k);
        }
        assert forall|p: int|
            0 <= p < chains.len() && counts_as_closed(#[trigger] chains[p]) implies {
            ||| exists|k: int| 0 <= k < listed.len() && (#[trigger] listed[k]).index == p
            ||| (listed.len() == BEST_SHOWN && forall|k: int|
                0 <= k < listed.len() ==> is_better(
                    chains,
                    now,
                    (#[trigger] listed[k]).index as int,
                    p,
                ))
        } by {
            let c = choose|c: int| 0 <= c < closed.len() && (#[trigger] closed@[c]) == p;
            assert(crate::ratio::lists(ranking@, c));
            let m = choose|m: int| 0 <= m < ranking.len() && #[trigger] ranking@[m] == c;
            if m < shown {
                assert(listed[m].index == p);
            } else {
                assert forall|k: int| 0 <= k < listed.len() implies is_better(
                    chains,
                    now,
                    (#[trigger] listed[k]).index as int,
                    p,
                ) by {
                    lemma_ranked_is_better(chains, now, closed@, keys@, ranking@, k, m);
                }
            }
        }
    }
    Ok(entries)
}

/// In a ranking of the closed positions by return per day, a position ranked earlier
/// is the better one.
proof fn lemma_ranked_is_better(
    chains: Seq<Seq<ContractView>>,
    now: Timestamp,
    closed: Seq<usize>,
    keys: Seq<Ratio>,
    ranking: Seq<usize>,
    j: int,
    k: int,
)
    requires
        closed.len() == keys.len(),
        is_ranking(ranking, keys, true),
        0 <= j < k < ranking.len(),
        forall|a: int, b: int| 0 <= a < b < closed.len() ==> (#[trigger] closed[a]) < (#[trigger] closed[b]),
        forall|a: int|
            0 <= a < keys.len() ==> (#[trigger] keys[a]) == daily_return(chains[closed[a] as int], now),
    ensures
        is_better(chains, now, closed[ranking[j] as int] as int, closed[ranking[k] as int] as int),
{
    let a = ranking[j] as int;
    let b = ranking[k] as int;
    assert(crate::ratio::ranks_ahead(keys, true, a, b));
    assert(keys[a] == daily_return(chains[closed[a] as int], now));
    assert(keys[b] == daily_return(chains[closed[b] as int], now));
}

/// Shares that a position adds to or takes from the holder's stock once it is no longer
/// open: a hundred for each contract, received for a put and delivered for a call.
pub open spec fn share_delta(chain: Seq<ContractView>) -> int {
    if has_open_status(chain) {
        0
    } else {
        match chain.first().open.open_type {
            OptionKind::Put => 100 * chain.last().open.quantity,
            OptionKind::Call => -100 * chain.last().open.quantity,
        }
    }
}

/// Net shares in `ticker` over all positions of the ledger.
pub open spec fn net_shares(chains: Seq<Seq<ContractView>>, ticker: Seq<char>) -> int
    decreases chains.len(),
{
    if chains.len() == 0 {
        0
    } else {
        net_shares(chains.drop_last(), ticker) + if chains.last().last().open.ticker == ticker {
            share_delta(chains.last())
        } else {
            0
        }
    }
}

/// A number of shares in one instrument; negative where shares are owed.
#[derive(Debug, PartialEq, Eq)]
pub struct Holding {
    pub ticker: String,
    pub shares: i64,
}

/// Whether one of the holdings is in `ticker`.
pub open spec fn holds_ticker(holdings: Seq<Holding>, ticker: Seq<char>) -> bool {
    exists|k: int| 0 <= k < holdings.len() && (#[trigger] holdings[k]).ticker@ == ticker
}

/// Whether a position is in `ticker` and no longer open, so that it moved shares.
pub open spec fn moved_shares_in(chain: Seq<ContractView>, ticker: Seq<char>) -> bool {
    !has_open_status(chain) && chain.last().open.ticker == ticker
}

/// Whether the position at `place` is the first of the ledger that moved shares in
/// `ticker`.
pub open spec fn first_moved_at(chains: Seq<Seq<ContractView>>, ticker: Seq<char>, place: int) -> bool {
    &&& 0 <= place < chains.len()
    &&& moved_shares_in(chains[place], ticker)
    &&& forall|i: int| 0 <= i < place ==> !moved_shares_in(#[trigger] chains[i], ticker)
}

/// Whether the ticker `earlier` first moved shares before the ticker `later` did.
pub open spec fn moved_before(chains: Seq<Seq<ContractView>>, earlier: Seq<char>, later: Seq<char>) -> bool {
    exists|a: int, b: int|
        a < b && #[trigger] first_moved_at(chains, earlier, a) && #[trigger] first_moved_at(
            chains,
            later,
            b,
        )
}

/// Whether `holdings` are the net shares of the ledger: one holding for every ticker
/// in which the net is not zero and no other, each with that net, in the order in
/// which the tickers first moved shares.
pub open spec fn are_assets(holdings: Seq<Holding>, chains: Seq<Seq<ContractView>>) -> bool {
    &&& forall|j: int, k: int|
        0 <= j < k < holdings.len() ==> moved_before(
            chains,
            (#[trigger] holdings[j]).ticker@,
            (#[trigger] holdings[k]).ticker@,
        )
    &&& forall|k: int|
        0 <= k < holdings.len() ==> (#[trigger] holdings[k]).shares != 0 && holdings[k].shares
            == net_shares(chains, holdings[k].ticker@)
    &&& forall|ticker: Seq<char>|
        #[trigger] net_shares(chains, ticker) != 0 ==> holds_ticker(holdings, ticker)
}

/// What the holdings gathered so far say of the positions read so far. `firsts` names
/// for each holding the position that first moved shares in its ticker.
spec fn tallies(holdings: Seq<Holding>, firsts: Seq<int>, chains: Seq<Seq<ContractView>>) -> bool {
    &&& firsts.len() == holdings.len()
    &&& forall|j: int, k: int| 0 <= j < k < firsts.len() ==> #[trigger] firsts[j] < #[trigger] firsts[k]
    &&& forall|k: int|
        0 <= k < holdings.len() ==> first_moved_at(
            chains,
            (#[trigger] holdings[k]).ticker@,
            firsts[k],
        )
    &&& forall|k: int|
        0 <= k < holdings.len() ==> (#[trigger] holdings[k]).shares == net_shares(
            chains,
            holdings[k].ticker@,
        )
    &&& forall|i: int|
        0 <= i < chains.len() && !has_open_status(#[trigger] chains[i]) ==> holds_ticker(
            holdings,
            chains[i].last().open.ticker,
        )
}

/// The net shares in any ticker are bounded by the number of positions.
proof fn lemma_net_shares_bounded(chains: Seq<Seq<ContractView>>, ticker: Seq<char>)
    ensures
        -(chains.len() * 6_553_500) <= net_shares(chains, ticker) <= chains.len() * 6_553_500,
    decreases chains.len(),
{
    if chains.len() > 0 {
        lemma_net_shares_bounded(chains.drop_last(), ticker);
    }
}

/// Where no position moved shares in a ticker, the net in it is zero.
proof fn lemma_net_shares_unmoved(chains: Seq<Seq<ContractView>>, ticker: Seq<char>)
    requires
        forall|i: int| 0 <= i < chains.len() ==> !moved_shares_in(#[trigger] chains[i], ticker),
    ensures
        net_shares(chains, ticker) == 0,
    decreases chains.len(),
{
    if chains.len() > 0 {
        let init = chains.drop_last();
        assert forall|i: int| 0 <= i < init.len() implies !moved_shares_in(
            #[trigger] init[i],
            ticker,
        ) by {
            assert(init[i] == chains[i]);
        }
        lemma_net_shares_unmoved(init, ticker);
        assert(chains.last() == chains[chains.len() - 1]);
        assert(!moved_shares_in(chains[chains.len() - 1], ticker));
    }
}

/// The first position that moved shares in a ticker stays the first when more
/// positions follow.
proof fn lemma_first_moved_stays(
    chains: Seq<Seq<ContractView>>,
    more: Seq<Seq<ContractView>>,
    ticker: Seq<char>,
    place: int,
)
    requires
        first_moved_at(chains, ticker, place),
        chains.len() <= more.len(),
        forall|i: int| 0 <= i < chains.len() ==> #[trigger] more[i] == chains[i],
    ensures
        first_moved_at(more, ticker, place),
{
    assert(more[place] == chains[place]);
    assert forall|i: int| 0 <= i < place implies !moved_shares_in(#[trigger] more[i], ticker) by {
        assert(more[i] == chains[i]);
    }
}

/// Works out the net shares that the positions no longer open have left the holder
/// with, ticker by ticker.
pub fn assets(positions: &Vec<Position>) -> (r: Result<Vec<Holding>, ReportError>)
    ensures
        match r {
            Ok(holdings) => ledger_ok(portfolio(positions@)) && are_assets(
                holdings@,
                portfolio(positions@),
            ),
            Err(e) => is_ledger_error(portfolio(positions@), e),
        },
{
    match check_ledger(positions) {
        Ok(_) => {},
        Err(e) => {
            return Err(e);
        },
    }
    let ghost chains = portfolio(positions@);
    let n: usize = positions.len();
    let mut tally: Vec<Holding> = Vec::new();
    let ghost mut firsts: Seq<int> = Seq::empty();
    let mut i: usize = 0;
    while i < n
        invariant
            n == positions.len(),
            chains == portfolio(positions@),
            ledger_ok(chains),
            i <= n,
            tallies(tally@, firsts, chains.take(i as int)),
        decreases n - i,
    {
        let ghost seen = chains.take(i as int);
        let ghost next = chains.take(i + 1);
        let ghost before = tally@;
        let ghost before_firsts = firsts;
        let ghost chain = chains[i as int];
        proof {
            assert(chain == positions@[i as int]@);
            assert(chain_wf(chain));
            assert(next.drop_last() =~= seen);
            assert(next.last() == chain);
            assert(next[i as int] == chain);
            assert(chain.first() == chain[0]);
            assert forall|k: int| 0 <= k < before.len() implies first_moved_at(
                next,
                (#[trigger] before[k]).ticker@,
                before_firsts[k],
            ) by {
                lemma_first_moved_stays(seen, next, before[k].ticker@, before_firsts[k]);
            }
        }
        let position = &positions[i];
        if position.get_status() != LegStatus::Open {
            let quantity: i64 = 100 * (position.final_contract().quantity() as i64);
            let delta: i64 = match position.option_type() {
                OptionKind::Put => quantity,
                OptionKind::Call => -quantity,
            };
            let ticker = position.get_ticker();
            let mut slot: usize = 0;
            while slot < tally.len() && tally[slot].ticker != ticker
                invariant
                    slot <= tally.len(),
                    tally@ == before,
                    forall|k: int| 0 <= k < slot ==> (#[trigger] before[k]).ticker@ != ticker@,
                decreases tally.len() - slot,
            {
                slot += 1;
            }
            proof {
                assert(share_delta(chain) == delta);
                assert(chain.last().open.ticker == ticker@);
                assert(moved_shares_in(chain, ticker@));
                assert(net_shares(next, ticker@) == net_shares(seen, ticker@) + delta);
            }
            if slot < tally.len() {
                proof {
                    lemma_net_shares_bounded(seen, ticker@);
                }
                let shares: i64 = tally[slot].shares + delta;
                tally.set(slot, Holding { ticker, shares });
            } else {
                proof {
                    assert(!holds_ticker(before, ticker@));
                    assert forall|x: int| 0 <= x < seen.len() implies !moved_shares_in(
                        #[trigger] seen[x],
                        ticker@,
                    ) by {
                        if moved_shares_in(seen[x], ticker@) {
                            assert(holds_ticker(before, seen[x].last().open.ticker));
                        }
                    }
                    lemma_net_shares_unmoved(seen, ticker@);
                    assert forall|x: int| 0 <= x < i implies !moved_shares_in(
                        #[trigger] next[x],
                        ticker@,
                    ) by {
                        assert(next[x] == seen[x]);
                    }
                    assert(first_moved_at(next, ticker@, i as int));
                    firsts = firsts.push(i as int);
                    assert forall|j: int, k: int| 0 <= j < k < firsts.len() implies #[trigger] firsts[j]
                        < #[trigger] firsts[k] by {
                        if k == before_firsts.len() {
                            assert(first_moved_at(seen, before[j].ticker@, before_firsts[j]));
                        }
                    }
                }
                tally.push(Holding { ticker, shares: delta });
            }
            proof {
                let after = tally@;
                assert forall|k: int| 0 <= k < after.len() implies first_moved_at(
                    next,
                    (#[trigger] after[k]).ticker@,
                    firsts[k],
                ) by {
                    if k < before.len() {
                        assert(after[k].ticker@ == before[k].ticker@);
                        assert(first_moved_at(next, before[k].ticker@, before_firsts[k]));
                    }
                }
                assert forall|k: int| 0 <= k < after.len() implies (#[trigger] after[k]).shares
                    == net_shares(next, after[k].ticker@) by {
                    if k == slot {
                        assert(after[k].ticker@ == ticker@);
                    } else {
                        assert(after[k].ticker@ == before[k].ticker@);
                        assert(after[k].shares == before[k].shares);
                        if after[k].ticker@ == ticker@ {
                            // two holdings in one ticker would both have its first place
                            assert(first_moved_at(seen, before[k].ticker@, before_firsts[k]));
                            if slot < before.len() {
                                assert(first_moved_at(
                                    seen,
                                    before[slot as int].ticker@,
                                    before_firsts[slot as int],
                                ));
                                if k < slot {
                                    assert(before_firsts[k] < before_firsts[slot as int]);
                                } else {
                                    assert(before_firsts[slot as int] < before_firsts[k]);
                                }
                            } else {
                                assert(holds_ticker(before, ticker@));
                            }
                        }
                        assert(net_shares(next, before[k].ticker@) == net_shares(
                            seen,
                            before[k].ticker@,
                        ));
                    }
                }
                assert forall|x: int|
                    0 <= x < next.len() && !has_open_status(#[trigger] next[x]) implies holds_ticker(
                    after,
                    next[x].last().open.ticker,
                ) by {
                    if x < i {
                        assert(next[x] == seen[x]);
                        let k = choose|k: int|
                            0 <= k < before.len() && (#[trigger] before[k]).ticker@
                                == seen[x].last().open.ticker;
                        assert(after[k].ticker@ == before[k].ticker@);
                    } else {
                        assert(after[slot as int].ticker@ == ticker@);
                    }
                }
            }
        } else {
            proof {
                assert forall|x: int|
                    0 <= x < next.len() && !has_open_status(#[trigger] next[x]) implies holds_ticker(
                    before,
                    next[x].last().open.ticker,
                ) by {
                    assert(next[x] == seen[x]);
                }
                assert forall|k: int| 0 <= k < before.len() implies (#[trigger] before[k]).shares
                    == net_shares(next, before[k].ticker@) by {}
            }
        }
        i += 1;
    }
    assert(chains.take(n as int) =~= chains);
    let mut holdings: Vec<Holding> = Vec::new();
    let ghost mut picked: Seq<int> = Seq::empty();
    let m: usize = tally.len();
    let mut k: usize = 0;
    while k < m
        invariant
            m == tally.len(),
            k <= m,
            tallies(tally@, firsts, chains),
            picked.len() == holdings.len(),
            forall|a: int| 0 <= a < picked.len() ==> 0 <= #[trigger] picked[a] < k,
            forall|a: int, b: int| 0 <= a < b < picked.len() ==> #[trigger] picked[a] < #[trigger] picked[b],
            forall|a: int|
                0 <= a < holdings.len() ==> (#[trigger] holdings@[a]).ticker@
                    == tally@[picked[a]].ticker@ && holdings@[a].shares == tally@[picked[a]].shares
                    && holdings@[a].shares != 0,
            forall|b: int|
                0 <= b < k && (#[trigger] tally@[b]).shares != 0 ==> holds_ticker(
                    holdings@,
                    tally@[b].ticker@,
                ),
        decreases m - k,
    {
        let ghost before = holdings@;
        if tally[k].shares != 0 {
            holdings.push(Holding { ticker: tally[k].ticker.clone(), shares: tally[k].shares });
            proof {
                picked = picked.push(k as int);
            }
        }
        proof {
            let after = holdings@;
            assert forall|b: int|
                0 <= b < k + 1 && (#[trigger] tally@[b]).shares != 0 implies holds_ticker(
                after,
                tally@[b].ticker@,
            ) by {
                if b < k {
                    let a = choose|a: int|
                        0 <= a < before.len() && (#[trigger] before[a]).ticker@ == tally@[b].ticker@;
                    assert(after[a] == before[a]);
                } else {
                    assert(after[after.len() - 1].ticker@ == tally@[b].ticker@);
                }
            }
        }
        k += 1;
    }
    proof {
        let listed = holdings@;
        assert forall|j: int, k: int| 0 <= j < k < listed.len() implies moved_before(
            chains,
            (#[trigger] listed[j]).ticker@,
            (#[trigger] listed[k]).ticker@,
        ) by {
            let a = firsts[picked[j]];
            let b = firsts[picked[k]];
            assert(picked[j] < picked[k]);
            assert(a < b);
            assert(first_moved_at(chains, tally@[picked[j]].ticker@, a));
            assert(first_moved_at(chains, tally@[picked[k]].ticker@, b));
        }
        assert forall|k: int| 0 <= k < listed.len() implies (#[trigger] listed[k]).shares != 0
            && listed[k].shares == net_shares(chains, listed[k].ticker@) by {
            assert(tally@[picked[k]].shares == net_shares(chains, tally@[picked[k]].ticker@));
        }
        assert forall|t: Seq<char>| #[trigger] net_shares(chains, t) != 0 implies holds_ticker(
            listed,
            t,
        ) by {
            if !holds_ticker(tally@, t) {
                assert forall|x: int| 0 <= x < chains.len() implies !moved_shares_in(
                    #[trigger] chains[x],
                    t,
                ) by {
                    if moved_shares_in(chains[x], t) {
                        assert(holds_ticker(tally@, chains[x].last().open.ticker));
                    }
                }
                lemma_net_shares_unmoved(chains, t);
            }
            let b = choose|b: int| 0 <= b < tally.len() && (#[trigger] tally@[b]).ticker@ == t;
            assert(tally@[b].shares != 0);
        }
    }
    Ok(holdings)
}

} // verus!
