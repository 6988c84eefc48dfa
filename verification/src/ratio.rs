//! Exact fractions of ledger amounts, their order, and ranking by them.
//!
//! Rates such as return per day are kept as fractions and never rounded. Two
//! fractions are compared without multiplying them out, so no product can overflow.

use vstd::prelude::*;

verus! {

/// A fraction with a positive denominator.
#[derive(Clone, Copy, Debug, PartialEq, Eq, Structural)]
pub struct Ratio {
    pub numerator: i128,
    pub denominator: i128,
}

/// How one value stands to another.
#[derive(Clone, Copy, Debug, PartialEq, Eq, Structural)]
pub enum Order {
    Less,
    Equal,
    Greater,
}

/// The order that the sign of a difference stands for.
pub open spec fn order_of_sign(difference: int) -> Order {
    if difference < 0 {
        Order::Less
    } else if difference == 0 {
        Order::Equal
    } else {
        Order::Greater
    }
}

/// `a/b - c/d` brought to the common denominator `b * d`, numerator only.
pub open spec fn cross_difference(a: int, b: int, c: int, d: int) -> int {
    a * d - c * b
}

impl Ratio {
    pub open spec fn wf(&self) -> bool {
        self.denominator > 0
    }

    /// How this fraction stands to `other` as rational numbers.
    pub open spec fn order(&self, other: Ratio) -> Order {
        order_of_sign(
            cross_difference(
                self.numerator as int,
                self.denominator as int,
                other.numerator as int,
                other.denominator as int,
            ),
        )
    }

    /// The whole number `value` as a fraction.
    pub fn whole(value: i128) -> (r: Ratio)
        ensures
            r.numerator == value,
            r.denominator == 1,
            r.wf(),
    {
        Ratio { numerator: value, denominator: 1 }
    }

    /// Compares two fractions as rational numbers.
    pub fn compare(&self, other: &Ratio) -> (r: Order)
        requires
            self.wf(),
            other.wf(),
        ensures
            r == self.order(*other),
    {
        let b: u128 = self.denominator as u128;
        let d: u128 = other.denominator as u128;
        if self.numerator < 0 {
            if other.numerator >= 0 {
                proof {
                    lemma_sign_of_product(self.numerator as int, d as int);
                    lemma_sign_of_product(other.numerator as int, b as int);
                }
                Order::Less
            } else {
                let a: u128 = magnitude(self.numerator);
                let c: u128 = magnitude(other.numerator);
                proof {
                    let x = self.numerator as int;
                    let y = other.numerator as int;
                    assert(cross_difference(c as int, d as int, a as int, b as int)
                        == cross_difference(x, b as int, y, d as int)) by (nonlinear_arith)
                        requires
                            a == -x,
                            c == -y,
                    ;
                }
                compare_fractions(c, d, a, b)
            }
        } else if other.numerator < 0 {
            proof {
                lemma_sign_of_product(self.numerator as int, d as int);
                lemma_sign_of_product(other.numerator as int, b as int);
            }
            Order::Greater
        } else {
            compare_fractions(self.numerator as u128, b, other.numerator as u128, d)
        }
    }
}

/// A product with a positive factor has the sign of the other factor.
proof fn lemma_sign_of_product(x: int, positive: int)
    requires
        positive > 0,
    ensures
        x < 0 ==> x * positive < 0,
        x >= 0 ==> x * positive >= 0,
        x > 0 ==> x * positive > 0,
{
    assert(x < 0 ==> x * positive < 0) by (nonlinear_arith)
        requires
            positive > 0,
    ;
    assert(x >= 0 ==> x * positive >= 0) by (nonlinear_arith)
        requires
            positive > 0,
    ;
    assert(x > 0 ==> x * positive > 0) by (nonlinear_arith)
        requires
            positive > 0,
    ;
}

/// The size of a negative number.
fn magnitude(negative: i128) -> (r: u128)
    requires
        negative < 0,
    ensures
        r == -negative,
{
    let above: i128 = negative + 1;
    let size: i128 = -above;
    size as u128 + 1
}

/// One step of comparing `a/b` with `c/d`: with `a = qa * b + ra` and `c = qc * d + rc`,
/// unequal whole parts decide, and equal ones leave the remainders to compare.
proof fn lemma_compare_step(a: int, b: int, c: int, d: int, qa: int, ra: int, qc: int, rc: int)
    requires
        b > 0,
        d > 0,
        a == qa * b + ra,
        c == qc * d + rc,
        0 <= ra < b,
        0 <= rc < d,
    ensures
        qa < qc ==> cross_difference(a, b, c, d) < 0,
        qa > qc ==> cross_difference(a, b, c, d) > 0,
        qa == qc ==> cross_difference(a, b, c, d) == cross_difference(d, rc, b, ra),
        qa == qc && ra == 0 && rc > 0 ==> cross_difference(a, b, c, d) < 0,
        qa == qc && rc == 0 && ra > 0 ==> cross_difference(a, b, c, d) > 0,
        qa == qc && rc == 0 && ra == 0 ==> cross_difference(a, b, c, d) == 0,
{
    assert(a * d - c * b == (qa - qc) * (b * d) + (ra * d - rc * b)) by (nonlinear_arith)
        requires
            a == qa * b + ra,
            c == qc * d + rc,
    ;
    assert(0 <= ra * d < b * d) by (nonlinear_arith)
        requires
            0 <= ra < b,
            d > 0,
    ;
    assert(0 <= rc * b < b * d) by (nonlinear_arith)
        requires
            0 <= rc < d,
            b > 0,
    ;
    assert(b * d > 0) by (nonlinear_arith)
        requires
            b > 0,
            d > 0,
    ;
    if qa < qc {
        assert((qa - qc) * (b * d) <= -(b * d)) by (nonlinear_arith)
            requires
                qa - qc <= -1,
                b * d > 0,
        ;
    }
    if qa > qc {
        assert((qa - qc) * (b * d) >= b * d) by (nonlinear_arith)
            requires
                qa - qc >= 1,
                b * d > 0,
        ;
    }
    if qa == qc {
        assert((qa - qc) * (b * d) == 0) by (nonlinear_arith)
            requires
                qa == qc,
        ;
        assert(ra * d == d * ra && rc * b == b * rc) by (nonlinear_arith);
        assert(ra == 0 ==> ra * d == 0) by (nonlinear_arith);
        assert(rc == 0 ==> rc * b == 0) by (nonlinear_arith);
        assert(rc > 0 ==> rc * b > 0) by (nonlinear_arith)
            requires
                b > 0,
        ;
        assert(ra > 0 ==> ra * d > 0) by (nonlinear_arith)
            requires
                d > 0,
        ;
    }
}

/// Compares `a/b` with `c/d` by their whole parts and, where those agree, the
/// reciprocals of what remains.
fn compare_fractions(top: u128, bottom: u128, other_top: u128, other_bottom: u128) -> (r: Order)
    requires
        bottom > 0,
        other_bottom > 0,
    ensures
        r == order_of_sign(
            cross_difference(top as int, bottom as int, other_top as int, other_bottom as int),
        ),
{
    let mut a: u128 = top;
    let mut b: u128 = bottom;
    let mut c: u128 = other_top;
    let mut d: u128 = other_bottom;
    loop
        invariant
            b > 0,
            d > 0,
            order_of_sign(cross_difference(a as int, b as int, c as int, d as int))
                == order_of_sign(
                cross_difference(top as int, bottom as int, other_top as int, other_bottom as int),
            ),
        decreases b + d,
    {
        let qa: u128 = a / b;
        let qc: u128 = c / d;
        let ra: u128 = a % b;
        let rc: u128 = c % d;
        proof {
            vstd::arithmetic::div_mod::lemma_fundamental_div_mod(a as int, b as int);
            vstd::arithmetic::div_mod::lemma_fundamental_div_mod(c as int, d as int);
            assert(a == qa * b + ra) by (nonlinear_arith)
                requires
                    a == b * qa + ra,
            ;
            assert(c == qc * d + rc) by (nonlinear_arith)
                requires
                    c == d * qc + rc,
            ;
            lemma_compare_step(
                a as int,
                b as int,
                c as int,
                d as int,
                qa as int,
                ra as int,
                qc as int,
                rc as int,
            );
        }
        if qa < qc {
            return Order::Less;
        }
        if qa > qc {
            return Order::Greater;
        }
        if ra == 0 {
            if rc == 0 {
                return Order::Equal;
            }
            return Order::Less;
        }
        if rc == 0 {
            return Order::Greater;
        }
        a = d;
        c = b;
        b = rc;
        d = ra;
    }
}

/// The order of fractions is transitive, strictly so where one step is strict.
pub proof fn lemma_order_is_transitive(x: Ratio, y: Ratio, z: Ratio)
    requires
        x.wf(),
        y.wf(),
        z.wf(),
        x.order(y) != Order::Greater,
        y.order(z) != Order::Greater,
    ensures
        x.order(z) != Order::Greater,
        x.order(y) == Order::Less || y.order(z) == Order::Less ==> x.order(z) == Order::Less,
{
    let a = x.numerator as int;
    let b = x.denominator as int;
    let c = y.numerator as int;
    let d = y.denominator as int;
    let e = z.numerator as int;
    let f = z.denominator as int;
    // a/b <= c/d and c/d <= e/f
    assert((a * d - c * b) * f + (c * f - e * d) * b == (a * f - e * b) * d)
        by (nonlinear_arith);
    assert((a * d - c * b) * f <= 0) by (nonlinear_arith)
        requires
            a * d - c * b <= 0,
            f > 0,
    ;
    assert((c * f - e * d) * b <= 0) by (nonlinear_arith)
        requires
            c * f - e * d <= 0,
            b > 0,
    ;
    assert(a * d - c * b < 0 ==> (a * d - c * b) * f < 0) by (nonlinear_arith)
        requires
            f > 0,
    ;
    assert(c * f - e * d < 0 ==> (c * f - e * d) * b < 0) by (nonlinear_arith)
        requires
            b > 0,
    ;
    let t = a * f - e * b;
    assert(t * d <= 0 ==> t <= 0) by (nonlinear_arith)
        requires
            d > 0,
    ;
    assert(t * d < 0 ==> t < 0) by (nonlinear_arith)
        requires
            d > 0,
    ;
}

/// Turning two fractions round turns their order round.
pub proof fn lemma_order_is_antisymmetric(x: Ratio, y: Ratio)
    ensures
        x.order(y) == Order::Less <==> y.order(x) == Order::Greater,
        x.order(y) == Order::Equal <==> y.order(x) == Order::Equal,
        x.order(y) == Order::Greater <==> y.order(x) == Order::Less,
{
}

/// Whether the key at `p` ranks ahead of the key at `q`: it is the better one in the
/// chosen direction, or they are equal and `p` is the earlier place.
pub open spec fn ranks_ahead(keys: Seq<Ratio>, descending: bool, p: int, q: int) -> bool {
    let order = keys[p].order(keys[q]);
    ||| order == (if descending {
        Order::Greater
    } else {
        Order::Less
    })
    ||| order == Order::Equal && p < q
}

/// Whether `ranking` lists the place `place`.
pub open spec fn lists(ranking: Seq<usize>, place: int) -> bool {
    exists|i: int| 0 <= i < ranking.len() && #[trigger] ranking[i] == place
}

/// Whether `ranking` lists every place of `keys` exactly once, each ahead of all that
/// follow it.
pub open spec fn is_ranking(ranking: Seq<usize>, keys: Seq<Ratio>, descending: bool) -> bool {
    &&& ranking.len() == keys.len()
    &&& forall|i: int| 0 <= i < ranking.len() ==> (#[trigger] ranking[i]) < keys.len()
    &&& forall|p: int| 0 <= p < keys.len() ==> #[trigger] lists(ranking, p)
    &&& forall|i: int, j: int|
        0 <= i < j < ranking.len() ==> ranks_ahead(
            keys,
            descending,
            #[trigger] ranking[i] as int,
            #[trigger] ranking[j] as int,
        )
}

/// Ranking ahead is transitive.
pub proof fn lemma_ranks_ahead_is_transitive(
    keys: Seq<Ratio>,
    descending: bool,
    p: int,
    q: int,
    r: int,
)
    requires
        0 <= p < keys.len(),
        0 <= q < keys.len(),
        0 <= r < keys.len(),
        forall|i: int| 0 <= i < keys.len() ==> (#[trigger] keys[i]).wf(),
        ranks_ahead(keys, descending, p, q),
        ranks_ahead(keys, descending, q, r),
    ensures
        ranks_ahead(keys, descending, p, r),
{
    if descending {
        lemma_order_is_antisymmetric(keys[p], keys[q]);
        lemma_order_is_antisymmetric(keys[q], keys[r]);
        lemma_order_is_antisymmetric(keys[p], keys[r]);
        lemma_order_is_transitive(keys[r], keys[q], keys[p]);
    } else {
        lemma_order_is_transitive(keys[p], keys[q], keys[r]);
    }
}

/// Ranks the places of `keys`: best first, ascending or descending, equal keys in the
/// order in which they stand.
pub fn rank(keys: &Vec<Ratio>, descending: bool) -> (ranking: Vec<usize>)
    requires
        forall|i: int| 0 <= i < keys.len() ==> (#[trigger] keys@[i]).wf(),
    ensures
        is_ranking(ranking@, keys@, descending),
{
    let n: usize = keys.len();
    let mut ranking: Vec<usize> = Vec::new();
    let mut next: usize = 0;
    while next < n
        invariant
            n == keys.len(),
            next <= n,
            forall|i: int| 0 <= i < keys.len() ==> (#[trigger] keys@[i]).wf(),
            ranking.len() == next,
            forall|i: int| 0 <= i < ranking.len() ==> (#[trigger] ranking@[i]) < next,
            forall|p: int| 0 <= p < next ==> #[trigger] lists(ranking@, p),
            forall|i: int, j: int|
                0 <= i < j < ranking.len() ==> ranks_ahead(
                    keys@,
                    descending,
                    #[trigger] ranking@[i] as int,
                    #[trigger] ranking@[j] as int,
                ),
        decreases n - next,
    {
        let mut slot: usize = next;
        while slot > 0 && beats(&keys[next], &keys[ranking[slot - 1]], descending)
            invariant
                n == keys.len(),
                next < n,
                slot <= next,
                ranking.len() == next,
                forall|i: int| 0 <= i < keys.len() ==> (#[trigger] keys@[i]).wf(),
                forall|i: int| 0 <= i < ranking.len() ==> (#[trigger] ranking@[i]) < next,
                forall|i: int|
                    slot <= i < ranking.len() ==> ranks_ahead(
                        keys@,
                        descending,
                        next as int,
                        #[trigger] ranking@[i] as int,
                    ),
            decreases slot,
        {
            slot -= 1;
        }
        let ghost before = ranking@;
        proof {
            if slot > 0 {
                let q = before[slot - 1] as int;
                lemma_order_is_antisymmetric(keys@[next as int], keys@[q]);
                assert(ranks_ahead(keys@, descending, q, next as int));
                assert forall|i: int| 0 <= i < slot implies ranks_ahead(
                    keys@,
                    descending,
                    #[trigger] before[i] as int,
                    next as int,
                ) by {
                    if i < slot - 1 {
                        lemma_ranks_ahead_is_transitive(
                            keys@,
                            descending,
                            before[i] as int,
                            q,
                            next as int,
                        );
                    }
                }
            }
        }
        ranking.insert(slot, next);
        proof {
            let after = ranking@;
            assert(after == before.insert(slot as int, next));
            assert forall|p: int| 0 <= p < next + 1 implies #[trigger] lists(after, p) by {
                if p == next {
                    assert(after[slot as int] == p);
                } else {
                    assert(lists(before, p));
                    let i = choose|i: int| 0 <= i < before.len() && #[trigger] before[i] == p;
                    if i < slot {
                        assert(after[i] == p);
                    } else {
                        assert(after[i + 1] == p);
                    }
                }
            }
            assert forall|i: int, j: int| 0 <= i < j < after.len() implies ranks_ahead(
                keys@,
                descending,
                #[trigger] after[i] as int,
                #[trigger] after[j] as int,
            ) by {
                let bi = if i < slot {
                    i
                } else {
                    i - 1
                };
                let bj = if j < slot {
                    j
                } else {
                    j - 1
                };
                if i != slot && j != slot {
                    assert(after[i] == before[bi] && after[j] == before[bj]);
                } else if i == slot {
                    assert(after[j] == before[bj]);
                } else {
                    assert(after[i] == before[bi]);
                }
            }
        }
        next += 1;
    }
    ranking
}

/// Whether `key` is strictly the better of the two in the chosen direction.
fn beats(key: &Ratio, other: &Ratio, descending: bool) -> (r: bool)
    requires
        key.wf(),
        other.wf(),
    ensures
        r == (key.order(*other) == if descending {
            Order::Greater
        } else {
            Order::Less
        }),
{
    let order = key.compare(other);
    if descending {
        order == Order::Greater
    } else {
        order == Order::Less
    }
}

} // verus!
