//! What holds of every position, whatever operations made it.

use crate::calendar::Timestamp;
use crate::lifecycle::{chain_remainder, chain_split_off, with_quantity};
use crate::model::{
    chain_aggregate_premium, chain_gain, chain_investment, chain_is_closed, chain_time, chain_wf,
    premium_sum, CloseKind, ContractView, Position,
};
use crate::money::{lemma_round_to_cent, round_to_cent};
use vstd::prelude::*;

verus! {

/// A position of `n + 1` contracts was rolled `n` times, and every contract but the
/// last carries the close of a roll.
pub proof fn law_rolls_chain_the_contracts(position: Position)
    requires
        position.wf(),
    ensures
        position.rolls() == position@.len() - 1,
        forall|i: int|
            0 <= i < position@.len() - 1 ==> ((#[trigger] position@[i]).close matches Some(c)
                && c.close_type == CloseKind::Rolled),
{
    assert forall|i: int| 0 <= i < position@.len() - 1 implies ((
    #[trigger] position@[i]).close matches Some(c) && c.close_type == CloseKind::Rolled) by {
        assert(position@[i].is_rolled_forward());
    }
}

/// The aggregate premium is the sum of the premiums kept, rounded once: it is a whole
/// number of cents, rounding it again changes nothing, it lies within half a cent of
/// the sum, and it is the sum itself where the sum is a whole number of cents.
pub proof fn law_aggregate_premium_is_rounded_once(chain: Seq<ContractView>)
    ensures
        chain_aggregate_premium(chain) == round_to_cent(premium_sum(chain)),
        chain_aggregate_premium(chain) % 100 == 0,
        round_to_cent(chain_aggregate_premium(chain)) == chain_aggregate_premium(chain),
        -50 <= chain_aggregate_premium(chain) - premium_sum(chain) <= 50,
        premium_sum(chain) % 100 == 0 ==> chain_aggregate_premium(chain) == premium_sum(chain),
{
    lemma_round_to_cent(premium_sum(chain));
}

/// Changing the quantities of a chain does not change the premiums it kept.
proof fn lemma_premium_sum_ignores_quantity(chain: Seq<ContractView>, other: Seq<ContractView>)
    requires
        chain.len() == other.len(),
        forall|i: int|
            0 <= i < chain.len() ==> #[trigger] other[i] == with_quantity(
                chain[i],
                other[i].open.quantity,
            ),
    ensures
        premium_sum(other) == premium_sum(chain),
    decreases chain.len(),
{
    if chain.len() > 0 {
        let a = chain.drop_last();
        let b = other.drop_last();
        assert forall|i: int| 0 <= i < a.len() implies #[trigger] b[i] == with_quantity(
            a[i],
            b[i].open.quantity,
        ) by {
            assert(b[i] == other[i] && a[i] == chain[i]);
        }
        lemma_premium_sum_ignores_quantity(a, b);
        assert(other.last() == other[chain.len() - 1]);
        assert(chain.last() == chain[chain.len() - 1]);
    }
}

/// Splitting `taken` contracts off a position parts it in two that together are the
/// position: the quantities of their legs in force sum to that of the position, every
/// contract of either keeps ticker, strike, expiry, kind and premiums, and the gains of
/// the two sum to the gain of the position. The gain is reckoned on the first leg, so
/// that leg must hold at least the contracts taken, unless there is no gain to part.
pub proof fn law_split_parts_the_position(chain: Seq<ContractView>, taken: u16)
    requires
        chain_wf(chain),
        0 < taken < chain.last().open.quantity,
        taken <= chain.first().open.quantity || chain_aggregate_premium(chain) == 0,
    ensures
        chain_remainder(chain, taken).last().open.quantity + chain_split_off(
            chain,
            taken,
        ).last().open.quantity == chain.last().open.quantity,
        forall|i: int|
            0 <= i < chain.len() ==> #[trigger] chain_remainder(chain, taken)[i] == with_quantity(
                chain[i],
                chain_remainder(chain, taken)[i].open.quantity,
            ),
        forall|i: int|
            0 <= i < chain.len() ==> #[trigger] chain_split_off(chain, taken)[i] == with_quantity(
                chain[i],
                taken,
            ),
        chain_gain(chain_remainder(chain, taken)) + chain_gain(chain_split_off(chain, taken))
            == chain_gain(chain),
        chain_wf(chain_remainder(chain, taken)),
        chain_wf(chain_split_off(chain, taken)),
{
    let rest = chain_remainder(chain, taken);
    let part = chain_split_off(chain, taken);
    lemma_premium_sum_ignores_quantity(chain, rest);
    lemma_premium_sum_ignores_quantity(chain, part);
    let premium = chain_aggregate_premium(chain);
    let first = chain.first().open.quantity as int;
    let kept = rest.first().open.quantity as int;
    assert(rest.first() == rest[0] && part.first() == part[0] && chain.first() == chain[0]);
    assert(rest.last() == rest[chain.len() - 1] && part.last() == part[chain.len() - 1]
        && chain.last() == chain[chain.len() - 1]);
    assert(premium * kept * 100 + premium * taken * 100 == premium * first * 100)
        by (nonlinear_arith)
        requires
            kept + taken == first || premium == 0,
    ;
    assert forall|j: int| 0 <= j < chain.len() implies (#[trigger] rest[j]).wf() by {
        assert(chain[j].wf());
    }
    assert forall|j: int| 0 <= j < chain.len() implies (#[trigger] part[j]).wf() by {
        assert(chain[j].wf());
    }
    assert forall|j: int| 0 <= j < chain.len() - 1 implies (#[trigger] rest[j]).is_rolled_forward() by {
        assert(chain[j].is_rolled_forward());
    }
    assert forall|j: int| 0 <= j < chain.len() - 1 implies (#[trigger] part[j]).is_rolled_forward() by {
        assert(chain[j].is_rolled_forward());
    }
}

/// What a query returns depends on nothing but the contracts of the position, and for
/// the time held on the instant taken as now: asked twice of a position that was not
/// changed in between, or of two copies of it, a query answers the same.
pub proof fn law_queries_answer_the_same(first: Position, second: Position, now: Timestamp)
    requires
        first@ == second@,
    ensures
        chain_gain(first@) == chain_gain(second@),
        chain_aggregate_premium(first@) == chain_aggregate_premium(second@),
        chain_investment(first@) == chain_investment(second@),
        chain_time(first@, now) == chain_time(second@, now),
        forall|rolled_counts: bool|
            chain_is_closed(first@, rolled_counts) == chain_is_closed(second@, rolled_counts),
        first.wf() == second.wf(),
        first.rolls() == second.rolls(),
{
}

} // verus!
