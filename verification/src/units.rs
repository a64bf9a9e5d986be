//! Fixed-point quantities and sums of them.

use vstd::prelude::*;

verus! {

/// The integer that stands for the real number one.
pub const UNIT: u64 = 1_000_000_000;

/// How far the components of a probability vector may sum from [`UNIT`].
pub const TOLERANCE: u64 = 10;

/// Sum of a sequence of quantities.
pub open spec fn total(s: Seq<u64>) -> nat
    decreases s.len(),
{
    if s.len() == 0 {
        0
    } else {
        total(s.drop_last()) + s.last() as nat
    }
}

/// A probability vector: its components sum to one within the tolerance.
pub open spec fn is_prob_vec(s: Seq<u64>) -> bool {
    UNIT - TOLERANCE <= total(s) <= UNIT + TOLERANCE
}

/// A sum is bounded by the largest value times the number of terms.
pub proof fn lemma_total_bound(s: Seq<u64>)
    ensures
        total(s) <= s.len() * u64::MAX,
    decreases s.len(),
{
    if s.len() > 0 {
        lemma_total_bound(s.drop_last());
        assert((s.len() - 1) * u64::MAX + u64::MAX == s.len() * u64::MAX) by (nonlinear_arith);
    }
}

/// No component exceeds the sum.
pub proof fn lemma_total_ge_each(s: Seq<u64>, i: int)
    requires
        0 <= i < s.len(),
    ensures
        s[i] <= total(s),
    decreases s.len(),
{
    if i < s.len() - 1 {
        lemma_total_ge_each(s.drop_last(), i);
    }
}

/// A sum is positive exactly when some component is.
pub proof fn lemma_total_positive(s: Seq<u64>)
    ensures
        total(s) > 0 <==> exists|i: int| 0 <= i < s.len() && s[i] > 0,
    decreases s.len(),
{
    if s.len() > 0 {
        lemma_total_positive(s.drop_last());
        if total(s.drop_last()) > 0 {
            let i = choose|i: int| 0 <= i < s.drop_last().len() && s.drop_last()[i] > 0;
            assert(s[i] > 0);
        } else if s.last() > 0 {
            assert(s[s.len() - 1] > 0);
        } else {
            assert forall|i: int| 0 <= i < s.len() implies s[i] == 0 by {
                if i < s.len() - 1 {
                    assert(s.drop_last()[i] == s[i]);
                }
            }
        }
    }
}

/// Sums the quantities of a vector.
pub fn sum_of(v: &Vec<u64>) -> (r: u128)
    ensures
        r == total(v@),
{
    let mut acc: u128 = 0;
    let mut i: usize = 0;
    while i < v.len()
        invariant
            i <= v.len(),
            acc == total(v@.take(i as int)),
        decreases v.len() - i,
    {
        proof {
            assert(v@.take(i + 1).drop_last() =~= v@.take(i as int));
            lemma_total_bound(v@.take(i + 1));
            assert((i + 1) * u64::MAX <= usize::MAX * u64::MAX) by (nonlinear_arith)
                requires
                    i + 1 <= usize::MAX,
            ;
            assert(usize::MAX * u64::MAX < u128::MAX) by (nonlinear_arith)
                requires
                    usize::MAX <= u64::MAX,
                    u64::MAX == 0xffff_ffff_ffff_ffff,
                    u128::MAX == 0xffff_ffff_ffff_ffff_ffff_ffff_ffff_ffff,
            ;
        }
        acc = acc + v[i] as u128;
        i = i + 1;
    }
    proof {
        assert(v@.take(i as int) =~= v@);
    }
    acc
}

/// Tells whether a vector is a probability vector.
pub fn check_prob_vec(v: &Vec<u64>) -> (r: bool)
    ensures
        r == is_prob_vec(v@),
{
    let sum = sum_of(v);
    (UNIT - TOLERANCE) as u128 <= sum && sum <= (UNIT + TOLERANCE) as u128
}

} // verus!
