//! Statistical analysis utilities.
//!
//! The values of a series are integers, and what is computed of them is
//! exact: sums, counts and choices. The quotients and roots that a report
//! shows are taken by the reader of these numbers.
//!
//! A report of a series of correlated values is made in two steps.
//!
//! First the values that are not yet equilibrated are left out, by the
//! marginal standard error rule. [`mser_candidates`] lists the numbers of
//! values that may be left out. For each of them
//! [`TimeSeries::tail_moments`] gives the moments of the `m` values that
//! stay, of which the reader takes their marginal standard error: their
//! sample variance times `(m - 1) / m^2`. [`mser_cutoff`] chooses among the
//! candidates by these errors.
//!
//! Then the standard error of the mean is estimated by blocking.
//! [`halving_lengths`] lists the lengths of the levels of blocking, and
//! [`TimeSeries::block_sums`] gives the values of each level. Of these the
//! reader takes the squared standard error of the mean at each level: the
//! sample variance of the level divided by its length `m`, and the
//! uncertainty of that estimate, which is the estimate times the square
//! root of `2 / (m - 1)`. [`plateau`] chooses the level whose estimate
//! stands.

use crate::units::{lemma_total_bound, total};
use crate::utils::{first_where, lemma_first_where};
use vstd::arithmetic::div_mod::lemma_div_denominator;
use vstd::arithmetic::power2::{lemma_pow2_pos, lemma_pow2_unfold, pow2};
use vstd::prelude::*;

verus! {

/// Sum of a series.
pub open spec fn series_sum(s: Seq<i64>) -> int
    decreases s.len(),
{
    if s.len() == 0 {
        0
    } else {
        series_sum(s.drop_last()) + s.last()
    }
}

/// Sum of the squares of a series.
pub open spec fn series_sum_sq(s: Seq<i64>) -> int
    decreases s.len(),
{
    if s.len() == 0 {
        0
    } else {
        series_sum_sq(s.drop_last()) + s.last() * s.last()
    }
}

/// The sum of a series lies within the bounds of its values, times its
/// length.
pub proof fn lemma_series_sum_bound(s: Seq<i64>)
    ensures
        s.len() * i64::MIN <= series_sum(s) <= s.len() * i64::MAX,
    decreases s.len(),
{
    if s.len() > 0 {
        lemma_series_sum_bound(s.drop_last());
        assert((s.len() - 1) * i64::MIN + i64::MIN == s.len() * i64::MIN) by (nonlinear_arith);
        assert((s.len() - 1) * i64::MAX + i64::MAX == s.len() * i64::MAX) by (nonlinear_arith);
    }
}

/// A quotient of two integers; it stands for the real number `num / den`.
#[derive(Clone, Copy, Debug, PartialEq, Eq, Structural)]
pub struct Ratio {
    pub num: i128,
    pub den: u64,
}

/// Compute the arithmetic mean of a series of values: the quotient of their
/// sum and their number. An empty series has no mean.
pub fn compute_mean(time_series: &Vec<i64>) -> (r: Option<Ratio>)
    ensures
        match r {
            Some(mean) => time_series@.len() > 0 && mean.num == series_sum(time_series@)
                && mean.den == time_series@.len(),
            None => time_series@.len() == 0,
        },
{
    if time_series.len() == 0 {
        return None;
    }
    let mut sum: i128 = 0;
    let mut i: usize = 0;
    while i < time_series.len()
        invariant
            i <= time_series.len(),
            sum == series_sum(time_series@.take(i as int)),
        decreases time_series.len() - i,
    {
        proof {
            assert(time_series@.take(i + 1).drop_last() =~= time_series@.take(i as int));
            lemma_series_sum_bound(time_series@.take(i + 1));
            lemma_fits(i as int + 1);
        }
        sum = sum + time_series[i] as i128;
        i = i + 1;
    }
    proof {
        assert(time_series@.take(i as int) =~= time_series@);
    }
    Some(Ratio { num: sum, den: time_series.len() as u64 })
}

/// As many values as can be counted sum to a number of 128 bits.
proof fn lemma_fits(n: int)
    requires
        0 <= n <= u64::MAX,
    ensures
        i128::MIN <= n * i64::MIN,
        n * i64::MAX <= i128::MAX,
{
    assert(i128::MIN <= n * i64::MIN && n * i64::MAX <= i128::MAX) by (nonlinear_arith)
        requires
            0 <= n <= 0xffff_ffff_ffff_ffff,
            i64::MIN == -0x8000_0000_0000_0000,
            i64::MAX == 0x7fff_ffff_ffff_ffff,
            i128::MIN == -0x8000_0000_0000_0000_0000_0000_0000_0000,
            i128::MAX == 0x7fff_ffff_ffff_ffff_ffff_ffff_ffff_ffff,
    ;
}

/// Sum of the first `k` values of a series, each times its weight.
pub open spec fn weighted_sum(values: Seq<i64>, weights: Seq<u64>, k: nat) -> int
    decreases k,
{
    if k == 0 {
        0
    } else {
        weighted_sum(values, weights, (k - 1) as nat) + values[k - 1] * weights[k - 1]
    }
}

/// Tells of each number of values whether the sum of so many of them, each
/// times its weight, is beyond 128 bits.
pub open spec fn sum_overflows(values: Seq<i64>, weights: Seq<u64>) -> spec_fn(int) -> bool {
    |k: int|
        !(i128::MIN <= weighted_sum(values, weights, (k + 1) as nat) <= i128::MAX)
}

/// A weighted average; it stands for the real number `sum / weight`, which
/// is no number where the weights sum to zero.
#[derive(Clone, Copy, Debug, PartialEq, Eq, Structural)]
pub struct Average {
    /// Sum of the values, each times its weight.
    pub sum: i128,
    /// Sum of the weights.
    pub weight: u128,
}

/// Why values have no weighted average.
#[derive(Clone, Copy, Debug, PartialEq, Eq, Structural)]
pub enum AverageError {
    /// There are no values.
    Empty,
    /// There is not one weight for each value.
    Length { values: usize, weights: usize },
    /// The values times their weights sum to more than 128 bits hold.
    Overflow,
}

/// What [`weighted_average`] decides before it gives the average.
pub open spec fn average_verdict(values: Seq<i64>, weights: Seq<u64>) -> Option<AverageError> {
    if values.len() == 0 {
        Some(AverageError::Empty)
    } else if values.len() != weights.len() {
        Some(
            AverageError::Length { values: values.len() as usize, weights: weights.len() as usize },
        )
    } else if first_where(values.len() as int, sum_overflows(values, weights), 0) < values.len() {
        Some(AverageError::Overflow)
    } else {
        None
    }
}

/// The weighted average of values.
pub open spec fn average(values: Seq<i64>, weights: Seq<u64>) -> Average {
    Average {
        sum: weighted_sum(values, weights, values.len()) as i128,
        weight: total(weights) as u128,
    }
}

/// Compute the weighted average of a series of values: the quotient of the
/// sum of the values, each times its weight, and the sum of the weights.
pub fn weighted_average(values: &Vec<i64>, weights: &Vec<u64>) -> (r: Result<Average, AverageError>)
    ensures
        match r {
            Ok(avg) => average_verdict(values@, weights@) is None && avg == average(
                values@,
                weights@,
            ),
            Err(e) => average_verdict(values@, weights@) == Some(e),
        },
{
    let n = values.len();
    if n == 0 {
        return Err(AverageError::Empty);
    }
    if n != weights.len() {
        return Err(AverageError::Length { values: n, weights: weights.len() });
    }
    let ghost overflows = sum_overflows(values@, weights@);
    let mut sum: i128 = 0;
    let mut weight: u128 = 0;
    let mut i: usize = 0;
    while i < n
        invariant
            i <= n == values@.len() == weights@.len(),
            overflows == sum_overflows(values@, weights@),
            first_where(n as int, overflows, 0) == first_where(n as int, overflows, i as int),
            sum == weighted_sum(values@, weights@, i as nat),
            weight == total(weights@.take(i as int)),
        decreases n - i,
    {
        proof {
            assert(weights@.take(i + 1).drop_last() =~= weights@.take(i as int));
            lemma_total_bound(weights@.take(i + 1));
            assert((i + 1) * u64::MAX <= u128::MAX) by (nonlinear_arith)
                requires
                    i + 1 <= 0xffff_ffff_ffff_ffff,
                    u64::MAX == 0xffff_ffff_ffff_ffff,
                    u128::MAX == 0xffff_ffff_ffff_ffff_ffff_ffff_ffff_ffff,
            ;
            assert(i128::MIN <= values@[i as int] * weights@[i as int] <= i128::MAX)
                by (nonlinear_arith)
                requires
                    -0x8000_0000_0000_0000 <= values@[i as int] <= 0x7fff_ffff_ffff_ffff,
                    0 <= weights@[i as int] <= 0xffff_ffff_ffff_ffff,
                    i128::MIN == -0x8000_0000_0000_0000_0000_0000_0000_0000,
                    i128::MAX == 0x7fff_ffff_ffff_ffff_ffff_ffff_ffff_ffff,
            ;
        }
        let product: i128 = (values[i] as i128) * (weights[i] as i128);
        match sum.checked_add(product) {
            Some(s) => {
                assert(!overflows(i as int));
                sum = s;
            },
            None => {
                assert(overflows(i as int));
                return Err(AverageError::Overflow);
            },
        }
        weight = weight + weights[i] as u128;
        i = i + 1;
    }
    proof {
        assert(weights@.take(n as int) =~= weights@);
    }
    Ok(Average { sum, weight })
}

/// What an accumulator has seen of a stream of values: their number, their
/// sum and the sum of their squares.
///
/// The mean of the values is `sum / count`, where `count` is at least one.
/// The sum of the squared deviations from the mean is
/// `sum_sq - sum * sum / count`, and the sample variance is that sum
/// divided by `count - 1`, where `count` is at least two.
#[derive(Clone, Copy, Debug, PartialEq, Eq, Structural)]
pub struct Moments {
    pub count: u64,
    pub sum: i128,
    pub sum_sq: u128,
}

impl Moments {
    /// The moments are those of the series.
    pub open spec fn of(self, s: Seq<i64>) -> bool {
        &&& self.count == s.len()
        &&& self.sum == series_sum(s)
        &&& self.sum_sq == series_sum_sq(s)
    }

    /// The mean can be taken.
    pub fn has_mean(&self) -> (r: bool)
        ensures
            r == (self.count >= 1),
    {
        self.count >= 1
    }

    /// The sample standard deviation can be taken.
    pub fn has_std_dev(&self) -> (r: bool)
        ensures
            r == (self.count >= 2),
    {
        self.count >= 2
    }
}

/// The stream holds more, or larger, values than an accumulator can take.
#[derive(Clone, Copy, Debug, PartialEq, Eq, Structural)]
pub struct Overflow;

/// Streaming estimator of the mean and the variance of a stream of values of
/// unknown length.
pub struct Accumulator {
    moments: Moments,
    seen: Ghost<Seq<i64>>,
}

impl View for Accumulator {
    type V = Seq<i64>;

    /// The values added so far.
    closed spec fn view(&self) -> Seq<i64> {
        self.seen@
    }
}

impl Accumulator {
    #[verifier::type_invariant]
    spec fn inv(self) -> bool {
        self.moments.of(self.seen@)
    }

    /// An accumulator that has seen no value.
    pub fn new() -> (r: Self)
        ensures
            r@ == Seq::<i64>::empty(),
    {
        Accumulator { moments: Moments { count: 0, sum: 0, sum_sq: 0 }, seen: Ghost(Seq::empty()) }
    }

    /// Tells whether one more value `x` fits.
    pub open spec fn takes(self, x: i64) -> bool {
        &&& self@.len() < u64::MAX
        &&& series_sum_sq(self@) + x * x <= u128::MAX
    }

    /// Add a value to the stream.
    pub fn add(&mut self, x: i64) -> (r: Result<(), Overflow>)
        ensures
            match r {
                Ok(()) => old(self).takes(x) && final(self)@ == old(self)@.push(x),
                Err(_) => !old(self).takes(x) && final(self)@ == old(self)@,
            },
    {
        proof {
            use_type_invariant(&*self);
        }
        if self.moments.count == u64::MAX {
            return Err(Overflow);
        }
        proof {
            lemma_series_sum_bound(self.seen@);
            lemma_fits(self.seen@.len() as int);
            lemma_fits(self.seen@.len() as int + 1);
            lemma_series_sum_bound(self.seen@.push(x));
            assert(self.seen@.push(x).drop_last() =~= self.seen@);
        }
        assert(x * x <= 0x4000_0000_0000_0000_0000_0000_0000_0000 && x * x >= 0)
            by (nonlinear_arith)
            requires
                -0x8000_0000_0000_0000 <= x <= 0x7fff_ffff_ffff_ffff,
        ;
        let wide = x as i128;
        let square = (wide * wide) as u128;
        match self.moments.sum_sq.checked_add(square) {
            Some(sum_sq) => {
                let moments = Moments {
                    count: self.moments.count + 1,
                    sum: self.moments.sum + wide,
                    sum_sq,
                };
                *self = Accumulator { moments, seen: Ghost(self.seen@.push(x)) };
                Ok(())
            },
            None => Err(Overflow),
        }
    }

    /// What the accumulator has seen so far.
    pub fn report(&self) -> (r: Moments)
        ensures
            r.of(self@),
    {
        proof {
            use_type_invariant(self);
        }
        self.moments
    }
}

/// The lengths that a series of length `n` takes when it is halved again
/// and again, as long as two values are left.
pub open spec fn halvings(n: usize) -> Seq<usize>
    decreases n,
{
    if n < 2 {
        Seq::empty()
    } else {
        seq![n] + halvings(n / 2)
    }
}

/// Half of the quotient of a number and a power of two is the quotient of
/// the number and the next power of two.
pub proof fn lemma_half_of_quotient(n: usize, j: nat)
    ensures
        pow2(j) > 0,
        (n as int / pow2(j) as int) / 2 == n as int / pow2(j + 1) as int,
{
    lemma_pow2_pos(j);
    lemma_pow2_unfold(j + 1);
    lemma_div_denominator(n as int, pow2(j) as int, 2);
    assert(pow2(j) * 2 == 2 * pow2(j)) by (nonlinear_arith);
}

/// The lengths that a series takes when it is halved again and again are its
/// length divided by the powers of two.
pub proof fn lemma_halvings_are_quotients(n: usize, m: usize, j: nat)
    requires
        m == n as int / pow2(j) as int,
    ensures
        forall|i: int|
            0 <= i < halvings(m).len() ==> #[trigger] halvings(m)[i] == n as int / pow2(
                (j + i) as nat,
            ) as int,
    decreases m,
{
    if m >= 2 {
        lemma_half_of_quotient(n, j);
        lemma_halvings_are_quotients(n, m / 2, j + 1);
        assert forall|i: int| 0 <= i < halvings(m).len() implies #[trigger] halvings(m)[i]
            == n as int / pow2((j + i) as nat) as int by {
            if i > 0 {
                assert(halvings(m)[i] == halvings(m / 2)[i - 1]);
                assert((j + 1 + (i - 1)) as nat == (j + i) as nat);
            }
        }
    }
}

/// Level `i` of the halvings of a series of length `n` has length `n`
/// divided by two to the power `i`.
pub proof fn lemma_halving_lengths(n: usize)
    ensures
        forall|i: int|
            0 <= i < halvings(n).len() ==> #[trigger] halvings(n)[i] == n as int / pow2(
                i as nat,
            ) as int,
{
    assert(pow2(0) == 1) by {
        vstd::arithmetic::power2::lemma2_to64();
    }
    lemma_halvings_are_quotients(n, n, 0);
}

/// The lengths that a series of length `n` takes when it is halved again and
/// again, as long as two values are left.
pub fn halving_lengths(n: usize) -> (r: Vec<usize>)
    ensures
        r@ == halvings(n),
{
    let mut out: Vec<usize> = Vec::new();
    let mut m = n;
    assert(out@ + halvings(m) =~= halvings(n));
    while m >= 2
        invariant
            out@ + halvings(m) == halvings(n),
        decreases m,
    {
        let ghost before = out@;
        out.push(m);
        assert(out@ + halvings(m / 2) =~= before + halvings(m));
        m = m / 2;
    }
    assert(out@ + halvings(m) =~= out@);
    out
}

/// The candidates for the number of values at the start of a series of
/// length `n` that are not yet equilibrated: half of `m`, a quarter of it
/// and so on down to none, each of them a candidate where it leaves two
/// values of the series or more.
pub open spec fn cutoffs(n: usize, m: usize) -> Seq<usize>
    decreases m,
{
    if m == 0 {
        Seq::empty()
    } else if n - m / 2 >= 2 {
        seq![m / 2] + cutoffs(n, m / 2)
    } else {
        cutoffs(n, m / 2)
    }
}

/// The candidates for the number of values at the start of a series of
/// length `n` that are not yet equilibrated, the largest first: half of the
/// length, a quarter of it and so on down to none.
pub open spec fn mser_cutoffs(n: usize) -> Seq<usize> {
    cutoffs(n, n)
}

/// Every candidate leaves two values of the series or more.
pub proof fn lemma_cutoffs_bound(n: usize, m: usize)
    requires
        m <= n,
    ensures
        forall|i: int| 0 <= i < cutoffs(n, m).len() ==> #[trigger] cutoffs(n, m)[i] + 2 <= n,
    decreases m,
{
    if m > 0 {
        lemma_cutoffs_bound(n, m / 2);
        if n - m / 2 >= 2 {
            assert forall|i: int| 0 <= i < cutoffs(n, m).len() implies #[trigger] cutoffs(
                n,
                m,
            )[i] + 2 <= n by {
                if i > 0 {
                    assert(cutoffs(n, m)[i] == cutoffs(n, m / 2)[i - 1]);
                }
            }
        } else {
            assert(cutoffs(n, m) == cutoffs(n, m / 2));
        }
    }
}

/// Where half of `m` leaves two values of a series of length `n`, the
/// candidates from there on are `n` divided by the powers of two.
pub proof fn lemma_cutoffs_are_quotients(n: usize, m: usize, j: nat)
    requires
        m == n as int / pow2(j) as int,
        m == 0 || n - m / 2 >= 2,
    ensures
        forall|i: int|
            0 <= i < cutoffs(n, m).len() ==> #[trigger] cutoffs(n, m)[i] == n as int / pow2(
                (j + 1 + i) as nat,
            ) as int,
    decreases m,
{
    if m > 0 {
        lemma_half_of_quotient(n, j);
        lemma_cutoffs_are_quotients(n, m / 2, j + 1);
        assert forall|i: int| 0 <= i < cutoffs(n, m).len() implies #[trigger] cutoffs(n, m)[i]
            == n as int / pow2((j + 1 + i) as nat) as int by {
            if i > 0 {
                assert(cutoffs(n, m)[i] == cutoffs(n, m / 2)[i - 1]);
                assert((j + 1 + 1 + (i - 1)) as nat == (j + 1 + i) as nat);
            }
        }
    }
}

/// Candidate `i` of a series of three values or more is the length of the
/// series divided by two to the power `i + 1`: half of the series, a
/// quarter of it and so on. A series of two values has the one candidate
/// none, and a shorter series has no candidate.
pub proof fn lemma_mser_cutoffs(n: usize)
    ensures
        n >= 3 ==> forall|i: int|
            0 <= i < mser_cutoffs(n).len() ==> #[trigger] mser_cutoffs(n)[i] == n as int / pow2(
                (i + 1) as nat,
            ) as int,
        n == 2 ==> mser_cutoffs(n) == seq![0usize],
        n < 2 ==> mser_cutoffs(n).len() == 0,
{
    assert(pow2(0) == 1) by {
        vstd::arithmetic::power2::lemma2_to64();
    }
    if n >= 3 {
        lemma_cutoffs_are_quotients(n, n, 0);
        assert forall|i: int| 0 <= i < mser_cutoffs(n).len() implies #[trigger] mser_cutoffs(
            n,
        )[i] == n as int / pow2((i + 1) as nat) as int by {
            assert((0 + 1 + i) as nat == (i + 1) as nat);
        }
    } else if n == 2 {
        reveal_with_fuel(cutoffs, 3);
        assert(mser_cutoffs(n) =~= seq![0usize]);
    } else {
        reveal_with_fuel(cutoffs, 2);
    }
}

/// The candidates for the number of values at the start of a series of
/// length `n` that are not yet equilibrated, the largest first.
pub fn mser_candidates(n: usize) -> (r: Vec<usize>)
    ensures
        r@ == mser_cutoffs(n),
{
    let mut out: Vec<usize> = Vec::new();
    let mut m = n;
    assert(out@ + cutoffs(n, m) =~= cutoffs(n, n));
    while m > 0
        invariant
            m <= n,
            out@ + cutoffs(n, m) == cutoffs(n, n),
        decreases m,
    {
        let ghost before = out@;
        let c = m / 2;
        if n - c >= 2 {
            out.push(c);
        }
        assert(out@ + cutoffs(n, c) =~= before + cutoffs(n, m));
        m = c;
    }
    assert(out@ + cutoffs(n, m) =~= out@);
    out
}

/// The first of the smallest among the first `k` scores.
pub open spec fn first_min(scores: Seq<u64>, k: nat) -> int
    decreases k,
{
    if k <= 1 {
        0
    } else {
        let m = first_min(scores, (k - 1) as nat);
        if scores[k - 1] < scores[m] {
            k - 1
        } else {
            m
        }
    }
}

/// The first of the smallest scores is the only one that no score is below
/// and that every earlier score is above.
pub proof fn lemma_first_min(scores: Seq<u64>, k: nat)
    requires
        0 < k <= scores.len(),
    ensures
        0 <= first_min(scores, k) < k,
        forall|j: int| 0 <= j < k ==> scores[first_min(scores, k)] <= #[trigger] scores[j],
        forall|j: int|
            0 <= j < first_min(scores, k) ==> #[trigger] scores[j] > scores[first_min(scores, k)],
    decreases k,
{
    if k > 1 {
        lemma_first_min(scores, (k - 1) as nat);
    }
}

/// Where a series of length `n` starts after its equilibration, the
/// candidates scored by their marginal standard error: after the candidate
/// with the least score, the first of them where several have it; at its
/// own start where that is the candidate that leaves the least of the
/// series, or where there is no candidate.
pub open spec fn mser_start(n: usize, scores: Seq<u64>) -> int {
    let best = first_min(scores, scores.len());
    if scores.len() == 0 || best == 0 {
        0
    } else {
        mser_cutoffs(n)[best] as int
    }
}

/// Marginal standard error rule: tells where a series of length `n` starts
/// after its equilibration. `scores` holds for each candidate, in the order
/// of [`mser_candidates`], a number that orders the candidates as the
/// marginal standard errors of what they leave of the series do. Without
/// one score for each candidate there is no answer.
pub fn mser_cutoff(n: usize, scores: &Vec<u64>) -> (r: Option<usize>)
    ensures
        match r {
            Some(start) => scores@.len() == mser_cutoffs(n).len() && start == mser_start(
                n,
                scores@,
            ),
            None => scores@.len() != mser_cutoffs(n).len(),
        },
{
    let candidates = mser_candidates(n);
    if scores.len() != candidates.len() {
        return None;
    }
    if candidates.len() == 0 {
        return Some(0);
    }
    let mut best: usize = 0;
    let mut k: usize = 1;
    while k < scores.len()
        invariant
            1 <= k <= scores@.len(),
            best == first_min(scores@, k as nat),
            best < k,
        decreases scores@.len() - k,
    {
        if scores[k] < scores[best] {
            best = k;
        }
        k = k + 1;
    }
    if best == 0 {
        Some(0)
    } else {
        Some(candidates[best])
    }
}

/// One level of blocking: a number `estimate` that orders the levels as
/// the squared standard errors of their means do, and a number `floor` that
/// orders them, on the same scale, as those estimates less their own
/// uncertainty do.
#[derive(Clone, Copy, Debug, PartialEq, Eq, Structural)]
pub struct Level {
    pub estimate: u64,
    pub floor: u64,
}

/// Tells of each level whether its estimate is above the floor of every
/// later level.
pub open spec fn clears(levels: Seq<Level>) -> spec_fn(int) -> bool {
    |i: int| forall|j: int| i < j < levels.len() ==> levels[i].estimate > (#[trigger] levels[j]).floor
}

/// The level at which blocking has reached its plateau: the first whose
/// estimate is above the floor of every later level. The last level has no
/// later one, and so it is the plateau where no earlier level is.
pub open spec fn plateau_level(levels: Seq<Level>) -> int {
    first_where(levels.len() as int, clears(levels), 0)
}

/// Finds the level at which blocking has reached its plateau, the levels
/// given from the finest to the coarsest. Without levels there is none.
pub fn plateau(levels: &Vec<Level>) -> (r: Option<usize>)
    ensures
        match r {
            Some(i) => i < levels@.len() && i == plateau_level(levels@),
            None => levels@.len() == 0,
        },
{
    let n = levels.len();
    let ghost clear = clears(levels@);
    let mut i: usize = 0;
    while i < n
        invariant
            i <= n == levels@.len(),
            clear == clears(levels@),
            first_where(n as int, clear, 0) == first_where(n as int, clear, i as int),
        decreases n - i,
    {
        let mut j: usize = i + 1;
        let mut above = true;
        while j < n
            invariant
                i < j <= n == levels@.len(),
                above == forall|k: int| i < k < j ==> levels@[i as int].estimate > (
                #[trigger] levels@[k]).floor,
            decreases n - j,
        {
            if levels[i].estimate <= levels[j].floor {
                above = false;
            }
            j = j + 1;
        }
        if above {
            assert(clear(i as int));
            return Some(i);
        }
        assert(!clear(i as int));
        i = i + 1;
    }
    proof {
        if n > 0 {
            lemma_first_where(n as int, clear, 0);
            assert(clear(n - 1));
        }
    }
    None
}

/// Sum of the `size` values of block `j` of a series.
pub open spec fn block_sum(s: Seq<i64>, size: int, j: int) -> int {
    series_sum(s.subrange(j * size, (j + 1) * size))
}

/// The series of the sums of adjacent blocks of `size` values; values at
/// the end that do not fill a block are left out.
pub open spec fn blocked(s: Seq<i64>, size: usize) -> Seq<int> {
    if size == 0 {
        Seq::empty()
    } else {
        Seq::new(s.len() / size as nat, |j: int| block_sum(s, size as int, j))
    }
}

/// The values of a series from index `from` on; none where the series ends
/// before.
pub open spec fn tail(s: Seq<i64>, from: usize) -> Seq<i64> {
    if from >= s.len() {
        Seq::empty()
    } else {
        s.skip(from as int)
    }
}

/// The squares of a part of a series sum to no more than those of the whole.
pub proof fn lemma_series_sum_sq_monotonic(s: Seq<i64>, k: int)
    requires
        0 <= k <= s.len(),
    ensures
        series_sum_sq(s.take(k)) <= series_sum_sq(s),
    decreases s.len() - k,
{
    if k < s.len() {
        lemma_series_sum_sq_monotonic(s, k + 1);
        assert(s.take(k + 1).drop_last() =~= s.take(k));
        assert(s[k] * s[k] >= 0) by (nonlinear_arith);
    } else {
        assert(s.take(k) =~= s);
    }
}

/// All observed values of one metric, in the order in which they were
/// observed.
pub struct TimeSeries {
    values: Vec<i64>,
}

impl View for TimeSeries {
    type V = Seq<i64>;

    closed spec fn view(&self) -> Seq<i64> {
        self.values@
    }
}

impl TimeSeries {
    /// A series without values.
    pub fn new() -> (r: Self)
        ensures
            r@ == Seq::<i64>::empty(),
    {
        TimeSeries { values: Vec::new() }
    }

    /// Append a value.
    pub fn push(&mut self, value: i64)
        ensures
            final(self)@ == old(self)@.push(value),
    {
        self.values.push(value);
    }

    /// A series of the given values.
    pub fn from_values(values: Vec<i64>) -> (r: Self)
        ensures
            r@ == values@,
    {
        TimeSeries { values }
    }

    /// The values observed so far.
    pub fn values(&self) -> (r: &Vec<i64>)
        ensures
            r@ == self@,
    {
        &self.values
    }

    /// The number of values observed so far.
    pub fn len(&self) -> (r: usize)
        ensures
            r == self@.len(),
    {
        self.values.len()
    }

    /// Moments of the values from index `from` on. They are not taken where
    /// the squares of the values sum to more than 128 bits hold.
    pub fn tail_moments(&self, from: usize) -> (r: Result<Moments, Overflow>)
        ensures
            match r {
                Ok(m) => m.of(tail(self@, from)),
                Err(_) => series_sum_sq(tail(self@, from)) > u128::MAX,
            },
    {
        let mut acc = Accumulator::new();
        if from >= self.values.len() {
            return Ok(acc.report());
        }
        let ghost tail = self@.skip(from as int);
        let mut i: usize = from;
        while i < self.values.len()
            invariant
                from <= i <= self@.len(),
                tail == self@.skip(from as int),
                acc@ == tail.take(i - from),
            decreases self@.len() - i,
        {
            assert(tail.take(i - from + 1) =~= tail.take(i - from).push(self@[i as int]));
            match acc.add(self.values[i]) {
                Ok(()) => {},
                Err(e) => {
                    proof {
                        lemma_series_sum_sq_monotonic(tail, i - from + 1);
                        assert(tail.take(i - from + 1).drop_last() =~= tail.take(i - from));
                    }
                    return Err(e);
                },
            }
            i = i + 1;
        }
        assert(tail.take(i - from) =~= tail);
        Ok(acc.report())
    }

    /// Sums adjacent blocks of `size` values. The series halved `l` times by
    /// averaging adjacent pairs is the series of these sums with `size` two
    /// to the power `l`, each sum divided by `size`.
    pub fn block_sums(&self, size: usize) -> (r: Vec<i128>)
        ensures
            r@.len() == blocked(self@, size).len(),
            forall|j: int| 0 <= j < r@.len() ==> #[trigger] r@[j] == blocked(self@, size)[j],
    {
        let mut out: Vec<i128> = Vec::new();
        if size == 0 {
            return out;
        }
        let n_blocks = self.values.len() / size;
        let mut j: usize = 0;
        while j < n_blocks
            invariant
                size > 0,
                j <= n_blocks == self@.len() / size as nat,
                out@.len() == j,
                forall|k: int| 0 <= k < j ==> #[trigger] out@[k] == block_sum(self@, size as int, k),
            decreases n_blocks - j,
        {
            proof {
                assert((j + 1) * size <= self@.len() && j * size + size == (j + 1) * size && 0 <= j
                    * size <= self@.len()) by (nonlinear_arith)
                    requires
                        j < n_blocks,
                        n_blocks == self@.len() / size as nat,
                        size > 0,
                ;
                assert(self@.len() == self.values.len());
            }
            let start = j * size;
            let ghost block = self@.subrange(start as int, start + size);
            let mut sum: i128 = 0;
            let mut i: usize = 0;
            while i < size
                invariant
                    i <= size,
                    start + size <= self@.len() == self.values.len(),
                    block == self@.subrange(start as int, start + size),
                    sum == series_sum(block.take(i as int)),
                decreases size - i,
            {
                proof {
                    assert(block.take(i + 1).drop_last() =~= block.take(i as int));
                    lemma_series_sum_bound(block.take(i + 1));
                    lemma_fits(i as int + 1);
                }
                sum = sum + self.values[start + i] as i128;
                i = i + 1;
            }
            proof {
                assert(block.take(size as int) =~= block);
            }
            out.push(sum);
            j = j + 1;
        }
        out
    }
}

} // verus!
