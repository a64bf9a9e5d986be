//! Checks on numbers, vectors and matrices.

use crate::units::{is_prob_vec, sum_of, total, TOLERANCE, UNIT};
use vstd::prelude::*;

verus! {

/// One end of a range of numbers.
#[derive(Clone, Copy, Debug, PartialEq, Eq, Structural)]
pub enum Limit {
    /// No limit on this side.
    Unbounded,
    /// The limit itself lies in the range.
    Included(u64),
    /// The limit itself lies outside the range.
    Excluded(u64),
}

/// A range of numbers.
#[derive(Clone, Copy, Debug, PartialEq, Eq, Structural)]
pub struct NumRange {
    pub start: Limit,
    pub end: Limit,
}

impl NumRange {
    /// The range holds `num`.
    pub open spec fn contains(self, num: u64) -> bool {
        &&& match self.start {
            Limit::Unbounded => true,
            Limit::Included(lo) => lo <= num,
            Limit::Excluded(lo) => lo < num,
        }
        &&& match self.end {
            Limit::Unbounded => true,
            Limit::Included(hi) => num <= hi,
            Limit::Excluded(hi) => num < hi,
        }
    }

    /// The range `lo..=hi`.
    pub open spec fn spec_inclusive(lo: u64, hi: u64) -> Self {
        NumRange { start: Limit::Included(lo), end: Limit::Included(hi) }
    }

    /// The range `lo..hi`.
    pub open spec fn spec_half_open(lo: u64, hi: u64) -> Self {
        NumRange { start: Limit::Included(lo), end: Limit::Excluded(hi) }
    }

    /// The range `lo..`.
    pub open spec fn spec_at_least(lo: u64) -> Self {
        NumRange { start: Limit::Included(lo), end: Limit::Unbounded }
    }

    /// The range `lo..=hi`.
    #[verifier::when_used_as_spec(spec_inclusive)]
    pub fn inclusive(lo: u64, hi: u64) -> (r: Self)
        ensures
            r == Self::spec_inclusive(lo, hi),
    {
        NumRange { start: Limit::Included(lo), end: Limit::Included(hi) }
    }

    /// The range `lo..hi`.
    #[verifier::when_used_as_spec(spec_half_open)]
    pub fn half_open(lo: u64, hi: u64) -> (r: Self)
        ensures
            r == Self::spec_half_open(lo, hi),
    {
        NumRange { start: Limit::Included(lo), end: Limit::Excluded(hi) }
    }

    /// The range `lo..`.
    #[verifier::when_used_as_spec(spec_at_least)]
    pub fn at_least(lo: u64) -> (r: Self)
        ensures
            r == Self::spec_at_least(lo),
    {
        NumRange { start: Limit::Included(lo), end: Limit::Unbounded }
    }
}

/// A number outside the range it must lie in.
#[derive(Clone, Copy, Debug, PartialEq, Eq, Structural)]
pub struct OutOfRange {
    pub num: u64,
    pub range: NumRange,
}

/// What [`check_num`] decides.
pub open spec fn num_verdict(num: u64, range: NumRange) -> Option<OutOfRange> {
    if range.contains(num) {
        None
    } else {
        Some(OutOfRange { num, range })
    }
}

/// Checks that a number lies in a range.
pub fn check_num(num: u64, range: NumRange) -> (r: Result<(), OutOfRange>)
    ensures
        r == verdict_result(num_verdict(num, range)),
{
    let above = match range.start {
        Limit::Unbounded => true,
        Limit::Included(lo) => lo <= num,
        Limit::Excluded(lo) => lo < num,
    };
    let below = match range.end {
        Limit::Unbounded => true,
        Limit::Included(hi) => num <= hi,
        Limit::Excluded(hi) => num < hi,
    };
    if above && below {
        Ok(())
    } else {
        Err(OutOfRange { num, range })
    }
}

/// A verdict as the result of a check: no fault is `Ok`, a fault is `Err`.
pub open spec fn verdict_result<E>(verdict: Option<E>) -> Result<(), E> {
    match verdict {
        None => Ok(()),
        Some(e) => Err(e),
    }
}

/// What is wrong with a vector.
#[derive(Clone, Copy, Debug, PartialEq, Eq, Structural)]
pub enum VecError {
    /// The vector has not the expected length.
    Length { expected: usize, found: usize },
    /// The components do not sum to one within the tolerance.
    NotNormalized { sum: u128 },
}

/// What [`check_vec`] decides.
pub open spec fn vec_verdict(vec: Seq<u64>, exp_len: usize, prob_vec: bool) -> Option<VecError> {
    if vec.len() != exp_len {
        Some(VecError::Length { expected: exp_len, found: vec.len() as usize })
    } else if prob_vec && !is_prob_vec(vec) {
        Some(VecError::NotNormalized { sum: total(vec) as u128 })
    } else {
        None
    }
}

/// Checks that a vector has the expected length and, where `prob_vec` is set,
/// that it is a probability vector.
pub fn check_vec(vec: &Vec<u64>, exp_len: usize, prob_vec: bool) -> (r: Result<(), VecError>)
    ensures
        r == verdict_result(vec_verdict(vec@, exp_len, prob_vec)),
{
    let len = vec.len();
    if len != exp_len {
        return Err(VecError::Length { expected: exp_len, found: len });
    }
    if !prob_vec {
        return Ok(());
    }
    let sum = sum_of(vec);
    if sum < (UNIT - TOLERANCE) as u128 || sum > (UNIT + TOLERANCE) as u128 {
        return Err(VecError::NotNormalized { sum });
    }
    Ok(())
}

/// The rows of a matrix.
pub open spec fn matrix(rows: Seq<Vec<u64>>) -> Seq<Seq<u64>> {
    Seq::new(rows.len(), |i: int| rows[i]@)
}

/// The least index in `from..n` at which `found` holds, or `n` where it
/// holds at none.
pub open spec fn first_where(n: int, found: spec_fn(int) -> bool, from: int) -> int
    decreases n - from,
{
    if from >= n {
        n
    } else if found(from) {
        from
    } else {
        first_where(n, found, from + 1)
    }
}

/// What `first_where` gives is the least index at which `found` holds.
pub proof fn lemma_first_where(n: int, found: spec_fn(int) -> bool, from: int)
    requires
        0 <= from <= n,
    ensures
        from <= first_where(n, found, from) <= n,
        first_where(n, found, from) < n ==> found(first_where(n, found, from)),
        forall|j: int| from <= j < first_where(n, found, from) ==> !#[trigger] found(j),
    decreases n - from,
{
    if from < n && !found(from) {
        lemma_first_where(n, found, from + 1);
    }
}

/// What is wrong with a matrix.
#[derive(Clone, Copy, Debug, PartialEq, Eq, Structural)]
pub enum MatError {
    /// The matrix has not the expected number of rows.
    Rows { expected: usize, found: usize },
    /// A row has not the expected number of columns.
    Columns { row: usize, expected: usize, found: usize },
    /// A matrix of transition probabilities is not square.
    NotSquare { rows: usize, columns: usize },
    /// A row of a matrix of transition probabilities is no probability vector.
    Row { row: usize, error: VecError },
}

/// Tells of each row whether it has the wrong length.
pub open spec fn misshapen(mat: Seq<Seq<u64>>, columns: usize) -> spec_fn(int) -> bool {
    |i: int| mat[i].len() != columns
}

/// Tells of each row whether it fails as a probability vector.
pub open spec fn unnormalized(mat: Seq<Seq<u64>>, columns: usize) -> spec_fn(int) -> bool {
    |i: int| vec_verdict(mat[i], columns, true) is Some
}

/// The first row of the wrong length, or the number of rows.
pub open spec fn first_misshapen_row(mat: Seq<Seq<u64>>, columns: usize) -> int {
    first_where(mat.len() as int, misshapen(mat, columns), 0)
}

/// The first row that is no probability vector, or the number of rows.
pub open spec fn first_unnormalized_row(mat: Seq<Seq<u64>>, columns: usize) -> int {
    first_where(mat.len() as int, unnormalized(mat, columns), 0)
}

/// What [`check_mat`] decides.
pub open spec fn mat_verdict(mat: Seq<Seq<u64>>, exp_dim: (usize, usize), trans_mat: bool) -> Option<
    MatError,
> {
    let misshapen = first_misshapen_row(mat, exp_dim.1);
    let unnormalized = first_unnormalized_row(mat, exp_dim.1);
    if mat.len() != exp_dim.0 {
        Some(MatError::Rows { expected: exp_dim.0, found: mat.len() as usize })
    } else if misshapen < mat.len() {
        Some(
            MatError::Columns {
                row: misshapen as usize,
                expected: exp_dim.1,
                found: mat[misshapen].len() as usize,
            },
        )
    } else if !trans_mat {
        None
    } else if exp_dim.0 != exp_dim.1 {
        Some(MatError::NotSquare { rows: exp_dim.0, columns: exp_dim.1 })
    } else if unnormalized < mat.len() {
        Some(
            MatError::Row {
                row: unnormalized as usize,
                error: vec_verdict(mat[unnormalized], exp_dim.1, true)->0,
            },
        )
    } else {
        None
    }
}

/// A matrix has the given shape.
pub open spec fn has_shape(mat: Seq<Seq<u64>>, rows: usize, columns: usize) -> bool {
    &&& mat.len() == rows
    &&& forall|i: int| 0 <= i < mat.len() ==> (#[trigger] mat[i]).len() == columns
}

/// A matrix passes the check of its shape exactly when it has that shape.
pub proof fn lemma_mat_verdict_shape(mat: Seq<Seq<u64>>, exp_dim: (usize, usize))
    ensures
        mat_verdict(mat, exp_dim, false) is None <==> has_shape(mat, exp_dim.0, exp_dim.1),
{
    let bad = misshapen(mat, exp_dim.1);
    lemma_first_where(mat.len() as int, bad, 0);
    let f = first_misshapen_row(mat, exp_dim.1);
    if mat.len() == exp_dim.0 {
        if f < mat.len() {
            assert(bad(f));
            assert(mat[f].len() != exp_dim.1);
        } else {
            assert forall|i: int| 0 <= i < mat.len() implies (#[trigger] mat[i]).len()
                == exp_dim.1 by {
                assert(!bad(i));
            }
        }
    }
}

/// Checks that a matrix has the expected shape and, where `trans_mat` is set,
/// that it is square and that each row is a probability vector.
pub fn check_mat(mat: &Vec<Vec<u64>>, exp_dim: (usize, usize), trans_mat: bool) -> (r: Result<
    (),
    MatError,
>)
    ensures
        r == verdict_result(mat_verdict(matrix(mat@), exp_dim, trans_mat)),
{
    let ghost m = matrix(mat@);
    let ghost misshapen = misshapen(m, exp_dim.1);
    let ghost unnormalized = unnormalized(m, exp_dim.1);
    let n_rows = mat.len();
    if n_rows != exp_dim.0 {
        return Err(MatError::Rows { expected: exp_dim.0, found: n_rows });
    }
    let mut i: usize = 0;
    while i < n_rows
        invariant
            i <= n_rows == mat@.len(),
            m == matrix(mat@),
            n_rows == exp_dim.0,
            misshapen == self::misshapen(m, exp_dim.1),
            first_where(n_rows as int, misshapen, 0) == first_where(n_rows as int, misshapen, i as int),
        decreases n_rows - i,
    {
        let found = mat[i].len();
        if found != exp_dim.1 {
            assert(misshapen(i as int));
            return Err(MatError::Columns { row: i, expected: exp_dim.1, found });
        }
        assert(!misshapen(i as int));
        i = i + 1;
    }
    if !trans_mat {
        return Ok(());
    }
    if exp_dim.0 != exp_dim.1 {
        return Err(MatError::NotSquare { rows: exp_dim.0, columns: exp_dim.1 });
    }
    let mut i: usize = 0;
    while i < n_rows
        invariant
            i <= n_rows == mat@.len(),
            m == matrix(mat@),
            n_rows == exp_dim.0 == exp_dim.1,
            trans_mat,
            first_misshapen_row(m, exp_dim.1) == n_rows,
            unnormalized == self::unnormalized(m, exp_dim.1),
            first_where(n_rows as int, unnormalized, 0) == first_where(
                n_rows as int,
                unnormalized,
                i as int,
            ),
        decreases n_rows - i,
    {
        match check_vec(&mat[i], exp_dim.1, true) {
            Ok(()) => {
                assert(!unnormalized(i as int));
            },
            Err(error) => {
                assert(unnormalized(i as int));
                return Err(MatError::Row { row: i, error });
            },
        }
        i = i + 1;
    }
    Ok(())
}

} // verus!
