//! Mutation of a phenotypic strategy by multiplicative noise.

use crate::units::{total, UNIT};
use crate::utils::{first_where, lemma_first_where};
use vstd::prelude::*;

verus! {

/// Why a strategy cannot be mutated with some noise.
#[derive(Clone, Copy, Debug, PartialEq, Eq, Structural)]
pub enum MutationError {
    /// There is not one noise factor for each component of the strategy.
    Length { expected: usize, found: usize },
    /// Every component of the strategy times its noise factor is zero.
    Degenerate,
    /// The components times their noise factors sum to more than can be
    /// normalized.
    TooLarge,
}

/// Component `i` of a strategy times its noise factor.
pub open spec fn weight(strat: Seq<u64>, noise: Seq<u64>, i: int) -> nat {
    (strat[i] * noise[i]) as nat
}

/// Sum of the first `k` weights.
pub open spec fn weight_sum(strat: Seq<u64>, noise: Seq<u64>, k: nat) -> nat
    decreases k,
{
    if k == 0 {
        0
    } else {
        weight_sum(strat, noise, (k - 1) as nat) + weight(strat, noise, k - 1)
    }
}

/// Sum of all weights.
pub open spec fn weight_total(strat: Seq<u64>, noise: Seq<u64>) -> nat {
    weight_sum(strat, noise, strat.len())
}

/// The share of component `i` in the whole, rounded down to a multiple of
/// one `UNIT`-th.
pub open spec fn share(strat: Seq<u64>, noise: Seq<u64>, i: int) -> nat {
    (weight(strat, noise, i) * UNIT / weight_total(strat, noise) as int) as nat
}

/// Sum of the first `k` shares.
pub open spec fn share_sum(strat: Seq<u64>, noise: Seq<u64>, k: nat) -> nat
    decreases k,
{
    if k == 0 {
        0
    } else {
        share_sum(strat, noise, (k - 1) as nat) + share(strat, noise, k - 1)
    }
}

/// Tells of each component whether its weight is not zero.
pub open spec fn has_weight(strat: Seq<u64>, noise: Seq<u64>) -> spec_fn(int) -> bool {
    |i: int| weight(strat, noise, i) != 0
}

/// The first component whose weight is not zero, or the number of
/// components.
pub open spec fn first_weighty(strat: Seq<u64>, noise: Seq<u64>) -> int {
    first_where(strat.len() as int, has_weight(strat, noise), 0)
}

/// What [`mutate_strategy`] decides before it mutates.
pub open spec fn mutation_verdict(strat: Seq<u64>, noise: Seq<u64>) -> Option<MutationError> {
    if noise.len() != strat.len() {
        Some(MutationError::Length { expected: strat.len() as usize, found: noise.len() as usize })
    } else if weight_total(strat, noise) == 0 {
        Some(MutationError::Degenerate)
    } else if weight_total(strat, noise) * UNIT > u128::MAX {
        Some(MutationError::TooLarge)
    } else {
        None
    }
}

/// The mutated strategy: each component becomes its share of the whole, and
/// what the rounding of the shares leaves of one `UNIT` goes to the first
/// component whose weight is not zero.
pub open spec fn mutated(strat: Seq<u64>, noise: Seq<u64>) -> Seq<u64> {
    let rest = UNIT - share_sum(strat, noise, strat.len());
    Seq::new(
        strat.len(),
        |i: int|
            if i == first_weighty(strat, noise) {
                (share(strat, noise, i) + rest) as u64
            } else {
                share(strat, noise, i) as u64
            },
    )
}

/// No partial sum of weights exceeds a later one.
pub proof fn lemma_weight_sum_monotonic(strat: Seq<u64>, noise: Seq<u64>, j: nat, k: nat)
    requires
        j <= k,
    ensures
        weight_sum(strat, noise, j) <= weight_sum(strat, noise, k),
    decreases k - j,
{
    if j < k {
        lemma_weight_sum_monotonic(strat, noise, j, (k - 1) as nat);
    }
}

/// No weight exceeds the sum of all.
pub proof fn lemma_weight_le_total(strat: Seq<u64>, noise: Seq<u64>, i: int)
    requires
        0 <= i < strat.len(),
    ensures
        weight(strat, noise, i) <= weight_total(strat, noise),
{
    lemma_weight_sum_monotonic(strat, noise, (i + 1) as nat, strat.len());
}

/// Where the first `k` weights are zero, so is their sum.
pub proof fn lemma_weightless_sum(strat: Seq<u64>, noise: Seq<u64>, k: nat)
    requires
        forall|i: int| 0 <= i < k ==> weight(strat, noise, i) == 0,
    ensures
        weight_sum(strat, noise, k) == 0,
    decreases k,
{
    if k > 0 {
        lemma_weightless_sum(strat, noise, (k - 1) as nat);
    }
}

/// A share is at most one `UNIT`.
pub proof fn lemma_share_bound(strat: Seq<u64>, noise: Seq<u64>, i: int)
    requires
        0 <= i < strat.len(),
        weight_total(strat, noise) > 0,
    ensures
        share(strat, noise, i) <= UNIT,
{
    lemma_weight_le_total(strat, noise, i);
    let w = weight(strat, noise, i) as int;
    let t = weight_total(strat, noise) as int;
    assert(w * UNIT / t <= UNIT) by (nonlinear_arith)
        requires
            0 <= w <= t,
            t > 0,
    ;
}

/// The shares of the first `k` components, taken back to weights, do not
/// exceed those weights.
pub proof fn lemma_share_sum_bound(strat: Seq<u64>, noise: Seq<u64>, k: nat)
    requires
        k <= strat.len(),
        weight_total(strat, noise) > 0,
    ensures
        share_sum(strat, noise, k) * weight_total(strat, noise) <= weight_sum(strat, noise, k)
            * UNIT,
    decreases k,
{
    if k > 0 {
        lemma_share_sum_bound(strat, noise, (k - 1) as nat);
        let w = weight(strat, noise, k - 1) as int;
        let t = weight_total(strat, noise) as int;
        let a = share_sum(strat, noise, (k - 1) as nat) as int;
        let b = weight_sum(strat, noise, (k - 1) as nat) as int;
        let q = w * UNIT / t;
        assert(0 <= q && (a + q) * t <= (b + w) * UNIT) by (nonlinear_arith)
            requires
                a * t <= b * UNIT,
                w >= 0,
                t > 0,
                q == w * UNIT / t,
        ;
        assert(share(strat, noise, k - 1) == q);
        let s = share_sum(strat, noise, k) as int;
        let ws = weight_sum(strat, noise, k) as int;
        assert(s * t <= ws * UNIT) by (nonlinear_arith)
            requires
                s == a + q,
                ws == b + w,
                (a + q) * t <= (b + w) * UNIT,
        ;
    } else {
        let s = share_sum(strat, noise, k) as int;
        let ws = weight_sum(strat, noise, k) as int;
        let t = weight_total(strat, noise) as int;
        assert(s * t <= ws * UNIT) by (nonlinear_arith)
            requires
                s == 0,
                ws == 0,
        ;
    }
}

/// All shares together are at most one `UNIT`.
pub proof fn lemma_share_sum_le_unit(strat: Seq<u64>, noise: Seq<u64>)
    requires
        weight_total(strat, noise) > 0,
    ensures
        share_sum(strat, noise, strat.len()) <= UNIT,
{
    lemma_share_sum_bound(strat, noise, strat.len());
    let t = weight_total(strat, noise) as int;
    let s = share_sum(strat, noise, strat.len()) as int;
    assert(s <= UNIT) by (nonlinear_arith)
        requires
            s * t <= t * UNIT,
            t > 0,
    ;
}

/// Raising one component raises the sum by as much.
pub proof fn lemma_total_update(s: Seq<u64>, i: int, v: u64)
    requires
        0 <= i < s.len(),
    ensures
        total(s.update(i, v)) == total(s) - s[i] + v,
    decreases s.len(),
{
    if i == s.len() - 1 {
        assert(s.update(i, v).drop_last() =~= s.drop_last());
    } else {
        lemma_total_update(s.drop_last(), i, v);
        assert(s.update(i, v).drop_last() =~= s.drop_last().update(i, v));
    }
}

/// A mutated strategy has as many components as the strategy it came from,
/// and they sum to exactly one `UNIT`.
pub proof fn lemma_mutated_is_normalized(strat: Seq<u64>, noise: Seq<u64>)
    requires
        mutation_verdict(strat, noise) is None,
    ensures
        mutated(strat, noise).len() == strat.len(),
        total(mutated(strat, noise)) == UNIT,
{
    let n = strat.len();
    let shares = Seq::new(n, |i: int| share(strat, noise, i) as u64);
    let f = first_weighty(strat, noise);
    lemma_first_where(n as int, has_weight(strat, noise), 0);
    if f >= n {
        assert forall|i: int| 0 <= i < n implies weight(strat, noise, i) == 0 by {
            assert(!has_weight(strat, noise)(i));
        }
        lemma_weightless_sum(strat, noise, n);
    }
    lemma_share_sum_le_unit(strat, noise);
    lemma_shares_total(strat, noise, n);
    assert(shares.take(n as int) =~= shares);
    lemma_share_bound(strat, noise, f);
    let rest = UNIT - share_sum(strat, noise, n);
    lemma_total_update(shares, f, (share(strat, noise, f) + rest) as u64);
    assert(mutated(strat, noise) =~= shares.update(f, (share(strat, noise, f) + rest) as u64));
}

/// The shares of the first `k` components sum to `share_sum`.
pub proof fn lemma_shares_total(strat: Seq<u64>, noise: Seq<u64>, k: nat)
    requires
        k <= strat.len(),
        weight_total(strat, noise) > 0,
    ensures
        total(Seq::new(strat.len(), |i: int| share(strat, noise, i) as u64).take(k as int))
            == share_sum(strat, noise, k),
    decreases k,
{
    let shares = Seq::new(strat.len(), |i: int| share(strat, noise, i) as u64);
    if k > 0 {
        lemma_shares_total(strat, noise, (k - 1) as nat);
        lemma_share_bound(strat, noise, k - 1);
        assert(shares.take(k as int).drop_last() =~= shares.take(k - 1));
    }
}

/// Mutate a strategy: multiply each component by its noise factor, and
/// rescale the products so that they sum to one `UNIT`.
pub fn mutate_strategy(strat: &Vec<u64>, noise: &Vec<u64>) -> (r: Result<Vec<u64>, MutationError>)
    ensures
        match r {
            Ok(v) => mutation_verdict(strat@, noise@) is None && v@ == mutated(strat@, noise@),
            Err(e) => mutation_verdict(strat@, noise@) == Some(e),
        },
{
    let n = strat.len();
    if noise.len() != n {
        return Err(MutationError::Length { expected: n, found: noise.len() });
    }
    let ghost weighty = has_weight(strat@, noise@);
    let mut sum: u128 = 0;
    let mut first: usize = n;
    let mut i: usize = 0;
    while i < n
        invariant
            i <= n == strat@.len() == noise@.len(),
            sum == weight_sum(strat@, noise@, i as nat),
            weighty == has_weight(strat@, noise@),
            first <= n,
            first_where(n as int, weighty, 0) == if first < n {
                first as int
            } else {
                first_where(n as int, weighty, i as int)
            },
        decreases n - i,
    {
        assert(strat@[i as int] * noise@[i as int] <= u64::MAX * u64::MAX) by (nonlinear_arith);
        let w: u128 = (strat[i] as u128) * (noise[i] as u128);
        assert(w == weight(strat@, noise@, i as int));
        if first == n && w != 0 {
            assert(weighty(i as int));
            first = i;
        } else if first == n {
            assert(!weighty(i as int));
        }
        match sum.checked_add(w) {
            Some(s) => {
                sum = s;
            },
            None => {
                proof {
                    lemma_weight_sum_monotonic(strat@, noise@, (i + 1) as nat, n as nat);
                    assert(weight_total(strat@, noise@) * UNIT >= weight_total(strat@, noise@))
                        by (nonlinear_arith);
                }
                return Err(MutationError::TooLarge);
            },
        }
        i = i + 1;
    }
    if sum == 0 {
        return Err(MutationError::Degenerate);
    }
    if sum.checked_mul(UNIT as u128).is_none() {
        return Err(MutationError::TooLarge);
    }
    proof {
        lemma_first_where(n as int, weighty, 0);
        if first >= n {
            assert forall|j: int| 0 <= j < n implies weight(strat@, noise@, j) == 0 by {
                assert(!weighty(j));
            }
            lemma_weightless_sum(strat@, noise@, n as nat);
        }
        lemma_share_sum_le_unit(strat@, noise@);
    }
    let mut out: Vec<u64> = Vec::new();
    let mut acc: u64 = 0;
    let mut i: usize = 0;
    while i < n
        invariant
            i <= n == strat@.len() == noise@.len(),
            sum == weight_total(strat@, noise@),
            sum > 0,
            sum * UNIT <= u128::MAX,
            out@.len() == i,
            forall|j: int| 0 <= j < i ==> #[trigger] out@[j] == share(strat@, noise@, j),
            acc == share_sum(strat@, noise@, i as nat),
            share_sum(strat@, noise@, n as nat) <= UNIT,
        decreases n - i,
    {
        proof {
            lemma_weight_le_total(strat@, noise@, i as int);
            lemma_share_bound(strat@, noise@, i as int);
            lemma_share_sum_monotonic(strat@, noise@, (i + 1) as nat, n as nat);
            assert(weight(strat@, noise@, i as int) * UNIT <= sum * UNIT) by (nonlinear_arith)
                requires
                    weight(strat@, noise@, i as int) <= sum,
            ;
        }
        assert(strat@[i as int] * noise@[i as int] <= u64::MAX * u64::MAX) by (nonlinear_arith);
        let w: u128 = (strat[i] as u128) * (noise[i] as u128);
        let s: u64 = (w * (UNIT as u128) / sum) as u64;
        out.push(s);
        acc = acc + s;
        i = i + 1;
    }
    proof {
        lemma_share_bound(strat@, noise@, first as int);
    }
    let raised = out[first] + (UNIT - acc);
    out.set(first, raised);
    assert(out@ =~= mutated(strat@, noise@));
    Ok(out)
}

/// No partial sum of shares exceeds a later one.
pub proof fn lemma_share_sum_monotonic(strat: Seq<u64>, noise: Seq<u64>, j: nat, k: nat)
    requires
        j <= k,
    ensures
        share_sum(strat, noise, j) <= share_sum(strat, noise, k),
    decreases k - j,
{
    if j < k {
        lemma_share_sum_monotonic(strat, noise, j, (k - 1) as nat);
    }
}

} // verus!
