use mutare::units::{check_prob_vec, sum_of, TOLERANCE, UNIT};
use mutare::utils::{
    check_mat, check_num, check_vec, Limit, MatError, NumRange, OutOfRange, VecError,
};

#[test]
fn check_num_accepts_inclusive_ends() {
    let range = NumRange::inclusive(1, 16);
    assert_eq!(check_num(1, range), Ok(()));
    assert_eq!(check_num(16, range), Ok(()));
    assert_eq!(check_num(0, range), Err(OutOfRange { num: 0, range }));
    assert_eq!(check_num(17, range), Err(OutOfRange { num: 17, range }));
}

#[test]
fn check_num_excludes_the_end_of_a_half_open_range() {
    let range = NumRange::half_open(1, 100);
    assert_eq!(range, NumRange { start: Limit::Included(1), end: Limit::Excluded(100) });
    assert_eq!(check_num(99, range), Ok(()));
    assert_eq!(check_num(100, range), Err(OutOfRange { num: 100, range }));
    assert_eq!(check_num(0, range), Err(OutOfRange { num: 0, range }));
}

#[test]
fn check_num_has_no_upper_end_where_none_is_given() {
    let range = NumRange::at_least(256);
    assert_eq!(check_num(255, range), Err(OutOfRange { num: 255, range }));
    assert_eq!(check_num(256, range), Ok(()));
    assert_eq!(check_num(u64::MAX, range), Ok(()));
}

#[test]
fn check_num_excludes_an_excluded_start() {
    let range = NumRange { start: Limit::Excluded(3), end: Limit::Unbounded };
    assert_eq!(check_num(3, range), Err(OutOfRange { num: 3, range }));
    assert_eq!(check_num(4, range), Ok(()));
    let all = NumRange { start: Limit::Unbounded, end: Limit::Unbounded };
    assert_eq!(check_num(0, all), Ok(()));
}

#[test]
fn sums_are_exact() {
    assert_eq!(sum_of(&vec![]), 0);
    assert_eq!(sum_of(&vec![1, 2, 3]), 6);
    assert_eq!(sum_of(&vec![u64::MAX, u64::MAX]), 2 * (u64::MAX as u128));
}

#[test]
fn probability_vectors_sum_to_one_within_the_tolerance() {
    assert_eq!(UNIT, 1_000_000_000);
    assert_eq!(TOLERANCE, 10);
    assert!(check_prob_vec(&vec![UNIT]));
    assert!(check_prob_vec(&vec![UNIT / 2, UNIT / 2]));
    assert!(check_prob_vec(&vec![333_333_333, 333_333_333, 333_333_333]));
    assert!(check_prob_vec(&vec![UNIT / 2, UNIT / 2 + 10]));
    assert!(!check_prob_vec(&vec![UNIT / 2, UNIT / 2 + 11]));
    assert!(check_prob_vec(&vec![UNIT / 2, UNIT / 2 - 10]));
    assert!(!check_prob_vec(&vec![UNIT / 2, UNIT / 2 - 11]));
    assert!(!check_prob_vec(&vec![]));
}

#[test]
fn check_vec_tells_length_from_sum() {
    assert_eq!(check_vec(&vec![1, 2, 3], 3, false), Ok(()));
    assert_eq!(
        check_vec(&vec![1, 2, 3], 2, false),
        Err(VecError::Length { expected: 2, found: 3 })
    );
    assert_eq!(
        check_vec(&vec![UNIT], 2, true),
        Err(VecError::Length { expected: 2, found: 1 })
    );
    assert_eq!(check_vec(&vec![1, 2, 3], 3, true), Err(VecError::NotNormalized { sum: 6 }));
    assert_eq!(check_vec(&vec![UNIT / 4, 3 * (UNIT / 4)], 2, true), Ok(()));
    assert_eq!(
        check_vec(&vec![UNIT, UNIT], 2, true),
        Err(VecError::NotNormalized { sum: 2_000_000_000 })
    );
}

#[test]
fn check_mat_reports_the_first_fault() {
    let mat = vec![vec![1, 2], vec![3, 4], vec![5, 6]];
    assert_eq!(check_mat(&mat, (3, 2), false), Ok(()));
    assert_eq!(check_mat(&mat, (2, 2), false), Err(MatError::Rows { expected: 2, found: 3 }));
    assert_eq!(
        check_mat(&mat, (3, 3), false),
        Err(MatError::Columns { row: 0, expected: 3, found: 2 })
    );
    let ragged = vec![vec![1, 2], vec![3], vec![]];
    assert_eq!(
        check_mat(&ragged, (3, 2), false),
        Err(MatError::Columns { row: 1, expected: 2, found: 1 })
    );
    assert_eq!(check_mat(&vec![], (0, 5), false), Ok(()));
}

#[test]
fn check_mat_checks_the_rows_of_transition_probabilities() {
    let half = UNIT / 2;
    assert_eq!(check_mat(&vec![vec![half, half], vec![UNIT, 0]], (2, 2), true), Ok(()));
    assert_eq!(
        check_mat(&vec![vec![half, half], vec![UNIT, 1000]], (2, 2), true),
        Err(MatError::Row { row: 1, error: VecError::NotNormalized { sum: 1_000_001_000 } })
    );
    assert_eq!(
        check_mat(&vec![vec![0, 0], vec![UNIT, 1000]], (2, 2), true),
        Err(MatError::Row { row: 0, error: VecError::NotNormalized { sum: 0 } })
    );
    assert_eq!(
        check_mat(&vec![vec![half, half, 0], vec![UNIT, 0, 0]], (2, 3), true),
        Err(MatError::NotSquare { rows: 2, columns: 3 })
    );
    assert_eq!(
        check_mat(&vec![vec![half, half]], (2, 2), true),
        Err(MatError::Rows { expected: 2, found: 1 })
    );
}
