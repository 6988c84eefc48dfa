//! Months of trading: the fragments of many positions gathered month by month.

use crate::months::PositionMonth;
use crate::ratio::Ratio;
use vstd::prelude::*;

verus! {

/// All that the positions of a ledger gained and bound in one calendar month.
#[derive(Clone, Copy, Debug, PartialEq, Eq, Structural)]
pub struct TradingMonth {
    pub year: i32,
    pub month: u32,
    /// Sum of the gains laid on this month, in ticks.
    pub gain: i128,
    /// Sum of the investments of this month's fragments, in ticks times days.
    pub investment: i128,
}

/// The largest sum of gains, and of investments, that a month of trading may show.
pub const MONTH_LIMIT: i128 = 1_000_000_000_000_000_000_000_000_000_000;

/// Whether the month `year`-`month` comes before the month `other_year`-`other_month`.
pub open spec fn month_precedes(year: i32, month: u32, other_year: i32, other_month: u32) -> bool {
    year < other_year || (year == other_year && month < other_month)
}

/// Sum of the gains of those fragments that lie in the month `year`-`month`.
pub open spec fn month_gain(fragments: Seq<PositionMonth>, year: i32, month: u32) -> int
    decreases fragments.len(),
{
    if fragments.len() == 0 {
        0
    } else {
        month_gain(fragments.drop_last(), year, month) + if fragments.last().year == year
            && fragments.last().month == month {
            fragments.last().gain as int
        } else {
            0
        }
    }
}

/// Sum of the investments of those fragments that lie in the month `year`-`month`.
pub open spec fn month_investment(fragments: Seq<PositionMonth>, year: i32, month: u32) -> int
    decreases fragments.len(),
{
    if fragments.len() == 0 {
        0
    } else {
        month_investment(fragments.drop_last(), year, month) + if fragments.last().year == year
            && fragments.last().month == month {
            fragments.last().investment as int
        } else {
            0
        }
    }
}

/// Whether one of the fragments lies in the month `year`-`month`.
pub open spec fn has_month(fragments: Seq<PositionMonth>, year: i32, month: u32) -> bool {
    exists|k: int|
        0 <= k < fragments.len() && (#[trigger] fragments[k]).year == year && fragments[k].month
            == month
}

/// Whether one of the months is the month `year`-`month`.
pub open spec fn holds_month(months: Seq<TradingMonth>, year: i32, month: u32) -> bool {
    exists|b: int|
        0 <= b < months.len() && (#[trigger] months[b]).year == year && months[b].month == month
}

/// Whether `months` gathers `fragments`: one month for every month that a fragment
/// lies in and no other, in order of time, each with the sums of its fragments.
pub open spec fn gathers(months: Seq<TradingMonth>, fragments: Seq<PositionMonth>) -> bool {
    &&& forall|a: int, b: int|
        0 <= a < b < months.len() ==> month_precedes(
            (#[trigger] months[a]).year,
            months[a].month,
            (#[trigger] months[b]).year,
            months[b].month,
        )
    &&& forall|b: int|
        0 <= b < months.len() ==> {
            &&& has_month(fragments, (#[trigger] months[b]).year, months[b].month)
            &&& months[b].gain == month_gain(fragments, months[b].year, months[b].month)
            &&& months[b].investment == month_investment(
                fragments,
                months[b].year,
                months[b].month,
            )
        }
    &&& forall|k: int|
        0 <= k < fragments.len() ==> holds_month(
            months,
            (#[trigger] fragments[k]).year,
            fragments[k].month,
        )
}

/// The sums over the fragments of a month are bounded by the number of fragments.
pub proof fn lemma_month_sums_bounded(fragments: Seq<PositionMonth>, year: i32, month: u32)
    ensures
        -(fragments.len() * 0x8000_0000_0000_0000) <= month_gain(fragments, year, month)
            <= fragments.len() * 0x8000_0000_0000_0000,
        -(fragments.len() * 0x8000_0000_0000_0000) <= month_investment(fragments, year, month)
            <= fragments.len() * 0x8000_0000_0000_0000,
    decreases fragments.len(),
{
    if fragments.len() > 0 {
        lemma_month_sums_bounded(fragments.drop_last(), year, month);
        let n = fragments.len() as int;
        assert((n - 1) * 0x8000_0000_0000_0000 + 0x8000_0000_0000_0000 == n
            * 0x8000_0000_0000_0000) by (nonlinear_arith);
    }
}

/// A month in which no fragment lies has no gain and no investment.
pub proof fn lemma_month_without_fragments(fragments: Seq<PositionMonth>, year: i32, month: u32)
    requires
        !has_month(fragments, year, month),
    ensures
        month_gain(fragments, year, month) == 0,
        month_investment(fragments, year, month) == 0,
    decreases fragments.len(),
{
    if fragments.len() > 0 {
        let init = fragments.drop_last();
        assert(fragments.last() == fragments[fragments.len() - 1]);
        assert forall|k: int| 0 <= k < init.len() implies !((#[trigger] init[k]).year == year
            && init[k].month == month) by {
            assert(init[k] == fragments[k]);
        }
        lemma_month_without_fragments(init, year, month);
    }
}

impl TradingMonth {
    /// The month binds capital, and its sums can be shown.
    pub open spec fn wf(&self) -> bool {
        &&& -MONTH_LIMIT <= self.gain <= MONTH_LIMIT
        &&& 0 < self.investment <= MONTH_LIMIT
    }

    /// Whether the month binds capital and its sums can be shown.
    pub fn is_well_formed(&self) -> (r: bool)
        ensures
            r == self.wf(),
    {
        -MONTH_LIMIT <= self.gain && self.gain <= MONTH_LIMIT && 0 < self.investment
            && self.investment <= MONTH_LIMIT
    }

    /// Adds the gain and the investment of a fragment to this month.
    pub fn combine(&mut self, positionmonth: PositionMonth)
        requires
            i128::MIN <= old(self).gain + positionmonth.gain <= i128::MAX,
            i128::MIN <= old(self).investment + positionmonth.investment <= i128::MAX,
        ensures
            final(self).gain == old(self).gain + positionmonth.gain,
            final(self).investment == old(self).investment + positionmonth.investment,
            final(self).year == old(self).year,
            final(self).month == old(self).month,
    {
        self.gain = self.gain + positionmonth.gain as i128;
        self.investment = self.investment + positionmonth.investment as i128;
    }

    /// Gain per unit of capital and day, in percent, as an exact fraction.
    pub fn daily_return_rate(&self) -> (r: Ratio)
        requires
            self.investment > 0,
            i128::MIN <= self.gain * 100 <= i128::MAX,
        ensures
            r.numerator == self.gain * 100,
            r.denominator == self.investment,
            r.wf(),
    {
        Ratio { numerator: self.gain * 100, denominator: self.investment }
    }
}

/// Gathers fragments into months of trading.
pub fn gather_months(fragments: &Vec<PositionMonth>) -> (months: Vec<TradingMonth>)
    ensures
        gathers(months@, fragments@),
{
    let n: usize = fragments.len();
    let mut months: Vec<TradingMonth> = Vec::new();
    let mut i: usize = 0;
    while i < n
        invariant
            n == fragments.len(),
            i <= n,
            gathers(months@, fragments@.take(i as int)),
        decreases n - i,
    {
        let fragment = &fragments[i];
        let year: i32 = fragment.year;
        let month: u32 = fragment.month;
        let ghost seen = fragments@.take(i as int);
        let ghost next = fragments@.take(i + 1);
        let ghost before = months@;
        proof {
            assert(next.drop_last() =~= seen);
            assert(next.last() == fragments@[i as int]);
        }
        let mut slot: usize = 0;
        while slot < months.len() && (months[slot].year < year || (months[slot].year == year
            && months[slot].month < month))
            invariant
                slot <= months.len(),
                months@ == before,
                forall|b: int|
                    0 <= b < slot ==> month_precedes(
                        (#[trigger] before[b]).year,
                        before[b].month,
                        year,
                        month,
                    ),
            decreases months.len() - slot,
        {
            slot += 1;
        }
        let found: bool = slot < months.len() && months[slot].year == year && months[slot].month
            == month;
        if found {
            proof {
                lemma_month_sums_bounded(seen, year, month);
                assert(seen.len() * 0x8000_0000_0000_0000 <= 0xffff_ffff_ffff_ffff
                    * 0x8000_0000_0000_0000) by (nonlinear_arith)
                    requires
                        seen.len() <= 0xffff_ffff_ffff_ffff,
                ;
            }
            let mut bucket: TradingMonth = months[slot];
            bucket.combine(fragment.clone());
            months.set(slot, bucket);
        } else {
            proof {
                assert(!has_month(seen, year, month)) by {
                    if has_month(seen, year, month) {
                        let k = choose|k: int|
                            0 <= k < seen.len() && (#[trigger] seen[k]).year == year && seen[k].month
                                == month;
                        assert(holds_month(before, seen[k].year, seen[k].month));
                        let b = choose|b: int|
                            0 <= b < before.len() && (#[trigger] before[b]).year == year
                                && before[b].month == month;
                        if b < slot {
                        } else if b > slot {
                            assert(month_precedes(
                                before[slot as int].year,
                                before[slot as int].month,
                                before[b].year,
                                before[b].month,
                            ));
                        }
                    }
                }
                lemma_month_without_fragments(seen, year, month);
            }
            months.insert(
                slot,
                TradingMonth {
                    year,
                    month,
                    gain: fragment.gain as i128,
                    investment: fragment.investment as i128,
                },
            );
        }
        proof {
            let after = months@;
            // where each month of `after` stood in `before`, if it did
            assert forall|a: int, b: int| 0 <= a < b < after.len() implies month_precedes(
                (#[trigger] after[a]).year,
                after[a].month,
                (#[trigger] after[b]).year,
                after[b].month,
            ) by {
                if found {
                    assert(after[a].year == before[a].year && after[a].month == before[a].month);
                    assert(after[b].year == before[b].year && after[b].month == before[b].month);
                } else {
                    let pa = if a < slot {
                        a
                    } else {
                        a - 1
                    };
                    let pb = if b < slot {
                        b
                    } else {
                        b - 1
                    };
                    if a != slot && b != slot {
                        assert(after[a] == before[pa] && after[b] == before[pb]);
                    } else if a == slot {
                        assert(after[b] == before[pb]);
                        if slot < before.len() {
                            assert(pb >= slot);
                            if pb > slot {
                                assert(month_precedes(
                                    before[slot as int].year,
                                    before[slot as int].month,
                                    before[pb].year,
                                    before[pb].month,
                                ));
                            }
                        }
                    } else {
                        assert(after[a] == before[pa]);
                    }
                }
            }
            assert forall|b: int| 0 <= b < after.len() implies {
                &&& has_month(next, (#[trigger] after[b]).year, after[b].month)
                &&& after[b].gain == month_gain(next, after[b].year, after[b].month)
                &&& after[b].investment == month_investment(next, after[b].year, after[b].month)
            } by {
                let same = after[b].year == year && after[b].month == month;
                if same {
                    assert(next[i as int].year == year);
                    if found {
                        if b != slot {
                            assert(after[b] == before[b]);
                            if b < slot {
                            } else {
                                assert(month_precedes(
                                    before[slot as int].year,
                                    before[slot as int].month,
                                    before[b].year,
                                    before[b].month,
                                ));
                            }
                        }
                    } else {
                        if b != slot {
                            let pb = if b < slot {
                                b
                            } else {
                                b - 1
                            };
                            assert(after[b] == before[pb]);
                            assert(has_month(seen, before[pb].year, before[pb].month));
                        }
                    }
                } else {
                    let pb = if found || b < slot {
                        b
                    } else {
                        b - 1
                    };
                    assert(after[b] == before[pb]);
                    assert(has_month(seen, before[pb].year, before[pb].month));
                    let k = choose|k: int|
                        0 <= k < seen.len() && (#[trigger] seen[k]).year == before[pb].year
                            && seen[k].month == before[pb].month;
                    assert(next[k] == seen[k]);
                }
            }
            assert forall|k: int| 0 <= k < next.len() implies holds_month(
                after,
                (#[trigger] next[k]).year,
                next[k].month,
            ) by {
                if k < i {
                    assert(next[k] == seen[k]);
                    assert(holds_month(before, seen[k].year, seen[k].month));
                    let b = choose|b: int|
                        0 <= b < before.len() && (#[trigger] before[b]).year == seen[k].year
                            && before[b].month == seen[k].month;
                    if found {
                        assert(after[b].year == before[b].year && after[b].month
                            == before[b].month);
                    } else if b < slot {
                        assert(after[b] == before[b]);
                    } else {
                        assert(after[b + 1] == before[b]);
                    }
                } else {
                    assert(after[slot as int].year == year && after[slot as int].month == month);
                }
            }
        }
        i += 1;
    }
    assert(fragments@.take(n as int) =~= fragments@);
    months
}

} // verus!
