//! The ledger's data: option legs, contracts, and positions that chain contracts by rolls.

use crate::calendar::{Date, Timestamp};
use crate::money::{round_ticks_to_cent, round_to_cent, MAX_PRICE};
use crate::ratio::Ratio;
use vstd::prelude::*;

verus! {

/// The most contracts one position may chain.
pub const MAX_CONTRACTS: usize = 1000;

/// The most characters a ticker may have.
pub const MAX_TICKER_CHARS: usize = 16;

/// Policy: a position whose final leg is marked rolled counts as closed in reports.
pub const ROLLED_COUNTS_AS_CLOSED: bool = true;

/// The largest premium a chain of contracts can keep or lose per share, in ticks.
pub const MAX_PREMIUM_SUM: i64 = 1_000_000_000_000;

/// The largest gain or loss a single position can show, in ticks.
pub const MAX_GAIN: i64 = 6_553_500_000_000_000_000;

/// The largest capital a single position can bind, in ticks.
pub const MAX_INVESTMENT: i64 = 6_553_500_000_000_000;

#[derive(Clone, Copy, Debug, PartialEq, Eq, Structural)]
pub enum OptionKind {
    Put,
    Call,
}

#[derive(Clone, Copy, Debug, PartialEq, Eq, Structural)]
pub enum LegStatus {
    Open,
    Closed,
    Rolled,
    Assigned,
    Expired,
}

#[derive(Clone, Copy, Debug, PartialEq, Eq, Structural)]
pub enum CloseKind {
    BoughtToClose,
    Rolled,
}

/// One option leg as written.
#[derive(Debug, PartialEq, Eq)]
pub struct OptionOpen {
    /// When the leg was written.
    pub date: Timestamp,
    pub open_type: OptionKind,
    pub ticker: String,
    /// Strike price per share, in ticks.
    pub strike: i64,
    pub expiry: Date,
    /// Premium received per share, in ticks.
    pub premium: i64,
    /// Number of contracts, each for a hundred shares.
    pub quantity: u16,
    pub status: LegStatus,
}

/// The trade that closed a leg.
#[derive(Clone, Copy, Debug, PartialEq, Eq, Structural)]
pub struct OptionClose {
    pub date: Timestamp,
    pub close_type: CloseKind,
    /// Premium paid per share, in ticks.
    pub premium: i64,
}

/// A leg together with the trade that closed it, if any.
#[derive(Debug, PartialEq, Eq)]
pub struct Contract {
    pub open: OptionOpen,
    pub close: Option<OptionClose>,
}

/// A chain of contracts: the first is the leg first written, each later one the
/// leg its predecessor was rolled into, the last the leg now in force.
#[derive(Debug, PartialEq, Eq)]
pub struct Position {
    pub contracts: Vec<Contract>,
}

/// A position without any contract was found.
#[derive(Clone, Copy, Debug, PartialEq, Eq, Structural)]
pub struct EmptyPosition;

pub struct OptionOpenView {
    pub date: Timestamp,
    pub open_type: OptionKind,
    pub ticker: Seq<char>,
    pub strike: i64,
    pub expiry: Date,
    pub premium: i64,
    pub quantity: u16,
    pub status: LegStatus,
}

pub struct ContractView {
    pub open: OptionOpenView,
    pub close: Option<OptionClose>,
}

impl OptionClose {
    pub open spec fn wf(&self) -> bool {
        &&& self.date.wf()
        &&& 0 <= self.premium <= MAX_PRICE
    }

    /// Whether date and premium lie in the ranges the ledger records.
    pub fn is_well_formed(&self) -> (r: bool)
        ensures
            r == self.wf(),
    {
        self.date.is_valid() && 0 <= self.premium && self.premium <= MAX_PRICE
    }
}

impl OptionOpenView {
    pub open spec fn wf(&self) -> bool {
        &&& self.date.wf()
        &&& self.expiry.wf()
        &&& 1 <= self.ticker.len() <= MAX_TICKER_CHARS
        &&& 0 < self.strike <= MAX_PRICE
        &&& 0 <= self.premium <= MAX_PRICE
    }
}

impl ContractView {
    pub open spec fn wf(&self) -> bool {
        &&& self.open.wf()
        &&& self.close matches Some(c) ==> c.wf()
    }

    /// Premium kept per share: what the leg brought in, less what closing it cost.
    pub open spec fn net_premium(&self) -> int {
        match self.close {
            Some(c) => self.open.premium - c.premium,
            None => self.open.premium as int,
        }
    }

    /// Whether the contract was closed by rolling it into a successor.
    pub open spec fn is_rolled_forward(&self) -> bool {
        self.close matches Some(c) && c.close_type == CloseKind::Rolled
    }

    /// Seconds the leg was held: up to its close, or up to `now` while it is open.
    pub open spec fn held_seconds(&self, now: Timestamp) -> int {
        match self.close {
            Some(c) => c.date.epoch_second() - self.open.date.epoch_second(),
            None => now.epoch_second() - self.open.date.epoch_second(),
        }
    }
}

impl View for OptionOpen {
    type V = OptionOpenView;

    open spec fn view(&self) -> OptionOpenView {
        OptionOpenView {
            date: self.date,
            open_type: self.open_type,
            ticker: self.ticker@,
            strike: self.strike,
            expiry: self.expiry,
            premium: self.premium,
            quantity: self.quantity,
            status: self.status,
        }
    }
}

impl View for Contract {
    type V = ContractView;

    open spec fn view(&self) -> ContractView {
        ContractView { open: self.open@, close: self.close }
    }
}

impl View for Position {
    type V = Seq<ContractView>;

    open spec fn view(&self) -> Seq<ContractView> {
        Seq::new(self.contracts@.len(), |i: int| self.contracts@[i]@)
    }
}

/// Sum of the premium kept per share over a chain of contracts.
pub open spec fn premium_sum(chain: Seq<ContractView>) -> int
    decreases chain.len(),
{
    if chain.len() == 0 {
        0
    } else {
        premium_sum(chain.drop_last()) + chain.last().net_premium()
    }
}

/// Sum of the seconds each contract of a chain was held.
pub open spec fn held_seconds_sum(chain: Seq<ContractView>, now: Timestamp) -> int
    decreases chain.len(),
{
    if chain.len() == 0 {
        0
    } else {
        held_seconds_sum(chain.drop_last(), now) + chain.last().held_seconds(now)
    }
}

/// What makes a chain of contracts a position: it is not empty and not longer than the
/// ledger allows, every contract holds values in range, every contract but the last was
/// rolled forward, and the leg in force is for at least one contract.
pub open spec fn chain_wf(chain: Seq<ContractView>) -> bool {
    &&& 1 <= chain.len() <= MAX_CONTRACTS
    &&& forall|i: int| 0 <= i < chain.len() ==> (#[trigger] chain[i]).wf()
    &&& forall|i: int| 0 <= i < chain.len() - 1 ==> (#[trigger] chain[i]).is_rolled_forward()
    &&& chain.last().open.quantity > 0
}

/// Net premium per share over the chain, rounded once to whole cents.
pub open spec fn chain_aggregate_premium(chain: Seq<ContractView>) -> int {
    round_to_cent(premium_sum(chain))
}

/// Gain in ticks: the aggregate premium on every share of the first leg's contracts.
pub open spec fn chain_gain(chain: Seq<ContractView>) -> int {
    chain_aggregate_premium(chain) * chain.first().open.quantity * 100
}

/// Capital at risk in ticks: the strike in force on every share of the last leg.
pub open spec fn chain_investment(chain: Seq<ContractView>) -> int {
    chain.last().open.strike * chain.last().open.quantity * 100
}

/// Days the chain was held, never less than one.
pub open spec fn chain_time(chain: Seq<ContractView>, now: Timestamp) -> int {
    let seconds = held_seconds_sum(chain, now);
    if seconds < 86_400 {
        1
    } else {
        seconds / 86_400
    }
}

/// Whether the position counts as closed under the given reading of a rolled final leg.
pub open spec fn chain_is_closed(chain: Seq<ContractView>, rolled_counts: bool) -> bool {
    let last = chain.last();
    ||| last.close is Some
    ||| last.open.status == LegStatus::Assigned
    ||| last.open.status == LegStatus::Expired
    ||| (rolled_counts && last.open.status == LegStatus::Rolled)
}

/// The premium sum of a well-formed chain is bounded by its length.
pub proof fn lemma_premium_sum_bounds(chain: Seq<ContractView>)
    requires
        forall|i: int| 0 <= i < chain.len() ==> (#[trigger] chain[i]).wf(),
    ensures
        -(chain.len() * MAX_PRICE) <= premium_sum(chain) <= chain.len() * MAX_PRICE,
    decreases chain.len(),
{
    if chain.len() > 0 {
        let init = chain.drop_last();
        assert forall|i: int| 0 <= i < init.len() implies (#[trigger] init[i]).wf() by {
            assert(init[i] == chain[i]);
        }
        lemma_premium_sum_bounds(init);
        assert(chain.last() == chain[chain.len() - 1]);
        assert(chain.last().wf());
        assert((init.len() + 1) * MAX_PRICE == init.len() * MAX_PRICE + MAX_PRICE)
            by (nonlinear_arith);
    }
}

/// The gain and the investment of a position stay within the ledger's limits.
pub proof fn lemma_amount_bounds(chain: Seq<ContractView>)
    requires
        chain_wf(chain),
    ensures
        -MAX_PREMIUM_SUM <= premium_sum(chain) <= MAX_PREMIUM_SUM,
        -MAX_PREMIUM_SUM <= chain_aggregate_premium(chain) <= MAX_PREMIUM_SUM,
        -MAX_GAIN <= chain_gain(chain) <= MAX_GAIN,
        0 < chain_investment(chain) <= MAX_INVESTMENT,
{
    lemma_premium_sum_bounds(chain);
    let sum = premium_sum(chain);
    let n = chain.len() as int;
    assert(n * MAX_PRICE <= 1000 * MAX_PRICE) by (nonlinear_arith)
        requires
            n <= 1000,
    ;
    let agg = chain_aggregate_premium(chain);
    crate::money::lemma_round_to_cent_within(sum, 1_000_000_000_000);
    let q = chain.first().open.quantity as int;
    assert(chain.first() == chain[0]);
    assert(-1_000_000_000_000 * 65_535 <= agg * q <= 1_000_000_000_000 * 65_535)
        by (nonlinear_arith)
        requires
            -1_000_000_000_000 <= agg <= 1_000_000_000_000,
            0 <= q <= 65_535,
    ;
    let last = chain.last();
    assert(last == chain[n - 1]);
    assert(last.wf());
    let s = last.open.strike as int;
    let lq = last.open.quantity as int;
    assert(0 < s * lq <= 1_000_000_000 * 65_535) by (nonlinear_arith)
        requires
            0 < s <= 1_000_000_000,
            0 < lq <= 65_535,
    ;
}

impl OptionOpen {
    pub open spec fn wf(&self) -> bool {
        self@.wf()
    }

    /// Whether the leg's values lie in the ranges the ledger records.
    pub fn is_well_formed(&self) -> (r: bool)
        ensures
            r == self.wf(),
    {
        let chars: usize = self.ticker.as_str().unicode_len();
        self.date.is_valid() && self.expiry.is_valid() && 1 <= chars && chars <= MAX_TICKER_CHARS
            && 0 < self.strike && self.strike <= MAX_PRICE && 0 <= self.premium && self.premium
            <= MAX_PRICE
    }

    pub fn clone(&self) -> (r: OptionOpen)
        ensures
            r@ == self@,
    {
        OptionOpen {
            date: self.date,
            open_type: self.open_type,
            ticker: self.ticker.clone(),
            strike: self.strike,
            expiry: self.expiry,
            premium: self.premium,
            quantity: self.quantity,
            status: self.status,
        }
    }
}

impl Contract {
    pub open spec fn wf(&self) -> bool {
        self@.wf()
    }

    /// Whether the contract's values lie in the ranges the ledger records.
    pub fn is_well_formed(&self) -> (r: bool)
        ensures
            r == self.wf(),
    {
        let close_ok: bool = match self.close {
            Some(c) => c.is_well_formed(),
            None => true,
        };
        self.open.is_well_formed() && close_ok
    }

    pub fn clone(&self) -> (r: Contract)
        ensures
            r@ == self@,
    {
        Contract { open: self.open.clone(), close: self.close }
    }

    /// Premium kept per share on this contract, in ticks.
    pub fn aggregate_premium(&self) -> (r: i64)
        requires
            self.wf(),
        ensures
            r == self@.net_premium(),
            -MAX_PRICE <= r <= MAX_PRICE,
    {
        match self.close {
            Some(close) => self.open.premium - close.premium,
            None => self.open.premium,
        }
    }

    pub fn option_type(&self) -> (r: OptionKind)
        ensures
            r == self@.open.open_type,
    {
        self.open.open_type
    }

    pub fn ticker(&self) -> (r: String)
        ensures
            r@ == self@.open.ticker,
    {
        self.open.ticker.clone()
    }

    pub fn strike(&self) -> (r: i64)
        ensures
            r == self@.open.strike,
    {
        self.open.strike
    }

    pub fn expiry(&self) -> (r: Date)
        ensures
            r == self@.open.expiry,
    {
        self.open.expiry
    }

    pub fn quantity(&self) -> (r: u16)
        ensures
            r == self@.open.quantity,
    {
        self.open.quantity
    }

    pub fn status(&self) -> (r: LegStatus)
        ensures
            r == self@.open.status,
    {
        self.open.status
    }

    /// Seconds the leg was held: up to its close, or up to `now` while it is open.
    pub fn held_seconds(&self, now: &Timestamp) -> (r: i64)
        requires
            self.wf(),
            now.wf(),
        ensures
            r == self@.held_seconds(*now),
            -crate::calendar::MAX_SPAN_SECONDS <= r <= crate::calendar::MAX_SPAN_SECONDS,
    {
        match self.close {
            Some(close) => close.date.seconds_since(&self.open.date),
            None => now.seconds_since(&self.open.date),
        }
    }
}

impl Position {
    pub open spec fn wf(&self) -> bool {
        chain_wf(self@)
    }

    /// Whether the position satisfies every rule of a chain of contracts.
    pub fn is_well_formed(&self) -> (r: bool)
        ensures
            r == self.wf(),
    {
        let n: usize = self.contracts.len();
        if n == 0 || n > MAX_CONTRACTS {
            return false;
        }
        let mut i: usize = 0;
        while i < n
            invariant
                n == self.contracts.len(),
                1 <= n <= MAX_CONTRACTS,
                i <= n,
                forall|j: int| 0 <= j < i ==> (#[trigger] self@[j]).wf(),
                forall|j: int| 0 <= j < i && j < n - 1 ==> (#[trigger] self@[j]).is_rolled_forward(),
            decreases n - i,
        {
            let c = &self.contracts[i];
            if !c.is_well_formed() {
                assert(!self@[i as int].wf());
                return false;
            }
            if i < n - 1 {
                let rolled: bool = match c.close {
                    Some(close) => close.close_type == CloseKind::Rolled,
                    None => false,
                };
                if !rolled {
                    assert(!self@[i as int].is_rolled_forward());
                    return false;
                }
            }
            i += 1;
        }
        self.contracts[n - 1].open.quantity > 0
    }

    pub fn clone(&self) -> (r: Position)
        ensures
            r@ == self@,
    {
        let mut contracts: Vec<Contract> = Vec::new();
        let n: usize = self.contracts.len();
        let mut i: usize = 0;
        while i < n
            invariant
                n == self.contracts.len(),
                i <= n,
                contracts.len() == i,
                forall|j: int| 0 <= j < i ==> (#[trigger] contracts@[j])@ == self.contracts@[j]@,
            decreases n - i,
        {
            contracts.push(self.contracts[i].clone());
            i += 1;
        }
        let r = Position { contracts };
        assert(r@ =~= self@);
        r
    }

    /// The contract in force, or an error for a position that holds none.
    pub fn get_final_contract(&self) -> (r: Result<&Contract, EmptyPosition>)
        ensures
            r is Err <==> self@.len() == 0,
            r matches Ok(c) ==> c@ == self@.last() && *c == self.contracts@.last(),
    {
        let n: usize = self.contracts.len();
        if n == 0 {
            Err(EmptyPosition)
        } else {
            Ok(&self.contracts[n - 1])
        }
    }

    /// The contract first written, or an error for a position that holds none.
    pub fn get_first_contract(&self) -> (r: Result<&Contract, EmptyPosition>)
        ensures
            r is Err <==> self@.len() == 0,
            r matches Ok(c) ==> c@ == self@.first() && *c == self.contracts@.first(),
    {
        if self.contracts.len() == 0 {
            Err(EmptyPosition)
        } else {
            Ok(&self.contracts[0])
        }
    }

    /// The contract in force.
    pub fn final_contract(&self) -> (c: &Contract)
        requires
            self@.len() > 0,
        ensures
            c@ == self@.last(),
            *c == self.contracts@.last(),
    {
        &self.contracts[self.contracts.len() - 1]
    }

    /// Whether the position counts as closed when a rolled final leg is read as
    /// `rolled_counts` says.
    pub fn is_closed_under(&self, rolled_counts: bool) -> (r: bool)
        requires
            self@.len() > 0,
        ensures
            r == chain_is_closed(self@, rolled_counts),
    {
        let last = self.final_contract();
        last.close.is_some() || last.open.status == LegStatus::Assigned || last.open.status
            == LegStatus::Expired || (rolled_counts && last.open.status == LegStatus::Rolled)
    }

    /// Whether the position counts as closed under the ledger's policy.
    pub fn is_closed(&self) -> (r: bool)
        requires
            self@.len() > 0,
        ensures
            r == chain_is_closed(self@, ROLLED_COUNTS_AS_CLOSED),
    {
        self.is_closed_under(ROLLED_COUNTS_AS_CLOSED)
    }

    /// Net premium per share over the whole chain, in ticks, rounded once to whole cents.
    pub fn aggregate_premium(&self) -> (r: i64)
        requires
            self.wf(),
        ensures
            r == chain_aggregate_premium(self@),
            r % 100 == 0,
            -50 <= r - premium_sum(self@) <= 50,
    {
        let n: usize = self.contracts.len();
        let mut total: i64 = 0;
        let mut i: usize = 0;
        while i < n
            invariant
                n == self.contracts.len(),
                self.wf(),
                i <= n,
                total == premium_sum(self@.take(i as int)),
                -(i * MAX_PRICE) <= total <= i * MAX_PRICE,
            decreases n - i,
        {
            assert(self@[i as int].wf());
            let net: i64 = self.contracts[i].aggregate_premium();
            proof {
                assert(self@.take(i + 1).drop_last() =~= self@.take(i as int));
                assert(self@.take(i + 1).last() == self@[i as int]);
                assert((i + 1) * MAX_PRICE == i * MAX_PRICE + MAX_PRICE) by (nonlinear_arith);
                assert(i * MAX_PRICE <= 999 * MAX_PRICE) by (nonlinear_arith)
                    requires
                        i <= 999,
                ;
            }
            total = total + net;
            i += 1;
        }
        proof {
            assert(self@.take(n as int) =~= self@);
            assert(n * MAX_PRICE <= 1000 * MAX_PRICE) by (nonlinear_arith)
                requires
                    n <= 1000,
            ;
            crate::money::lemma_round_to_cent(total as int);
        }
        round_ticks_to_cent(total)
    }

    /// Gain in ticks: the aggregate premium on every share of the first leg.
    pub fn gain(&self) -> (r: i64)
        requires
            self.wf(),
        ensures
            r == chain_gain(self@),
            -MAX_GAIN <= r <= MAX_GAIN,
    {
        let premium: i64 = self.aggregate_premium();
        let quantity: i64 = self.contracts[0].open.quantity as i64;
        proof {
            lemma_amount_bounds(self@);
            assert(self@.first() == self@[0]);
            assert(-1_000_000_000_000 * 65_535 <= premium * quantity <= 1_000_000_000_000
                * 65_535) by (nonlinear_arith)
                requires
                    -1_000_000_000_000 <= premium <= 1_000_000_000_000,
                    0 <= quantity <= 65_535,
            ;
        }
        premium * quantity * 100
    }

    /// Capital at risk in ticks: the strike in force on every share of the last leg.
    pub fn investment(&self) -> (r: i64)
        requires
            self.wf(),
        ensures
            r == chain_investment(self@),
            0 < r <= MAX_INVESTMENT,
    {
        let last = self.final_contract();
        let strike: i64 = last.open.strike;
        let quantity: i64 = last.open.quantity as i64;
        proof {
            lemma_amount_bounds(self@);
            assert(self@.last() == self@[self@.len() - 1]);
            assert(0 < strike * quantity <= 1_000_000_000 * 65_535) by (nonlinear_arith)
                requires
                    0 < strike <= 1_000_000_000,
                    0 < quantity <= 65_535,
            ;
        }
        strike * quantity * 100
    }

    /// Gain over investment, as an exact fraction.
    pub fn return_on_investment(&self) -> (r: Ratio)
        requires
            self.wf(),
        ensures
            r.numerator == chain_gain(self@),
            r.denominator == chain_investment(self@),
            r.wf(),
    {
        let gain: i64 = self.gain();
        let investment: i64 = self.investment();
        Ratio { numerator: gain as i128, denominator: investment as i128 }
    }

    /// Days the position was held, counting open legs up to `now`; never less than one.
    pub fn time(&self, now: &Timestamp) -> (r: i64)
        requires
            self.wf(),
            now.wf(),
        ensures
            r == chain_time(self@, *now),
            1 <= r <= MAX_DAYS_HELD,
    {
        let n: usize = self.contracts.len();
        let mut total: i64 = 0;
        let mut i: usize = 0;
        while i < n
            invariant
                n == self.contracts.len(),
                self.wf(),
                now.wf(),
                i <= n,
                total == held_seconds_sum(self@.take(i as int), *now),
                -(i * crate::calendar::MAX_SPAN_SECONDS) <= total <= i
                    * crate::calendar::MAX_SPAN_SECONDS,
            decreases n - i,
        {
            assert(self@[i as int].wf());
            let held: i64 = self.contracts[i].held_seconds(now);
            proof {
                assert(self@.take(i + 1).drop_last() =~= self@.take(i as int));
                assert(self@.take(i + 1).last() == self@[i as int]);
                assert((i + 1) * crate::calendar::MAX_SPAN_SECONDS == i
                    * crate::calendar::MAX_SPAN_SECONDS + crate::calendar::MAX_SPAN_SECONDS)
                    by (nonlinear_arith);
                assert(i * crate::calendar::MAX_SPAN_SECONDS <= 999
                    * crate::calendar::MAX_SPAN_SECONDS) by (nonlinear_arith)
                    requires
                        i <= 999,
                ;
            }
            total = total + held;
            i += 1;
        }
        proof {
            assert(self@.take(n as int) =~= self@);
            assert(n * crate::calendar::MAX_SPAN_SECONDS <= 1000
                * crate::calendar::MAX_SPAN_SECONDS) by (nonlinear_arith)
                requires
                    n <= 1000,
            ;
        }
        if total < 86_400 {
            1
        } else {
            total / 86_400
        }
    }

    /// How many times the position was rolled: once for each contract after the first.
    pub open spec fn rolls(&self) -> int {
        self@.len() - 1
    }

    /// How many times the position was rolled.
    pub fn num_rolls(&self) -> (r: usize)
        requires
            self@.len() > 0,
        ensures
            r == self.rolls(),
    {
        self.contracts.len() - 1
    }

    /// Status of the leg in force.
    pub fn status(&self) -> (r: LegStatus)
        requires
            self@.len() > 0,
        ensures
            r == self@.last().open.status,
    {
        self.final_contract().open.status
    }

    /// Status of the leg in force.
    pub fn get_status(&self) -> (r: LegStatus)
        requires
            self@.len() > 0,
        ensures
            r == self@.last().open.status,
    {
        self.final_contract().status()
    }

    /// Ticker of the leg in force.
    pub fn get_ticker(&self) -> (r: String)
        requires
            self@.len() > 0,
        ensures
            r@ == self@.last().open.ticker,
    {
        self.final_contract().ticker()
    }

    /// Kind of the leg first written.
    pub fn option_type(&self) -> (r: OptionKind)
        requires
            self@.len() > 0,
        ensures
            r == self@.first().open.open_type,
    {
        self.contracts[0].option_type()
    }
}

/// The most days a position can have been held.
pub const MAX_DAYS_HELD: i64 = 7_304_484_000;

} // verus!
