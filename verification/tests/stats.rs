use mutare::stats::{
    compute_mean, halving_lengths, mser_candidates, mser_cutoff, plateau, weighted_average,
    Accumulator, Average, AverageError, Level, Moments, Overflow, Ratio, TimeSeries,
};

fn tail_moments(series: &Vec<i64>, from: usize) -> Result<Moments, Overflow> {
    TimeSeries::from_values(series.clone()).tail_moments(from)
}

fn block_sums(series: &Vec<i64>, size: usize) -> Vec<i128> {
    TimeSeries::from_values(series.clone()).block_sums(size)
}

/// A number that orders reals as they are ordered.
fn key(x: f64) -> u64 {
    let bits = x.to_bits();
    if bits >> 63 == 1 {
        !bits
    } else {
        bits | (1 << 63)
    }
}

fn mean(m: &Moments) -> f64 {
    if m.has_mean() {
        m.sum as f64 / m.count as f64
    } else {
        f64::NAN
    }
}

fn variance(m: &Moments) -> f64 {
    if m.has_std_dev() {
        let n = m.count as f64;
        (m.sum_sq as f64 - (m.sum as f64) * (m.sum as f64) / n) / (n - 1.0)
    } else {
        f64::NAN
    }
}

/// The marginal standard error of what a cutoff leaves of a series.
fn marginal_error(series: &Vec<i64>, cutoff: usize) -> f64 {
    let m = tail_moments(series, cutoff).unwrap();
    let len = m.count as f64;
    variance(&m) * (len - 1.0) / (len * len)
}

/// The levels of blocking of a series, and the squared standard error of
/// the mean at each of them.
fn blocking(series: &Vec<i64>) -> (Vec<Level>, Vec<f64>) {
    let mut levels = Vec::new();
    let mut estimates = Vec::new();
    let mut size = 1usize;
    for len in halving_lengths(series.len()) {
        let blocks = block_sums(series, size);
        assert_eq!(blocks.len(), len);
        let values: Vec<f64> = blocks.iter().map(|&b| b as f64 / size as f64).collect();
        let mean = values.iter().sum::<f64>() / len as f64;
        let var = values.iter().map(|v| (v - mean) * (v - mean)).sum::<f64>() / (len as f64 - 1.0);
        let sem2 = var / len as f64;
        let sem2_err = sem2 * (2.0 / (len as f64 - 1.0)).sqrt();
        levels.push(Level { estimate: key(sem2), floor: key(sem2 - sem2_err) });
        estimates.push(sem2);
        size *= 2;
    }
    (levels, estimates)
}

fn standard_error(series: &Vec<i64>) -> f64 {
    let (levels, estimates) = blocking(series);
    match plateau(&levels) {
        Some(level) => estimates[level].sqrt(),
        None => f64::NAN,
    }
}

#[test]
fn the_accumulator_gives_mean_and_deviation() {
    let mut acc = Accumulator::new();
    for x in [1, 2, 3, 4] {
        assert_eq!(acc.add(x), Ok(()));
    }
    let report = acc.report();
    assert_eq!(report, Moments { count: 4, sum: 10, sum_sq: 30 });
    assert_eq!(mean(&report), 2.5);
    assert!((variance(&report).sqrt() - 1.2909944).abs() < 1e-7);
}

#[test]
fn the_accumulator_has_nothing_to_report_of_too_few_values() {
    let mut acc = Accumulator::new();
    let report = acc.report();
    assert_eq!(report, Moments { count: 0, sum: 0, sum_sq: 0 });
    assert!(!report.has_mean() && !report.has_std_dev());
    assert!(mean(&report).is_nan() && variance(&report).is_nan());
    acc.add(-7).unwrap();
    let report = acc.report();
    assert_eq!(report, Moments { count: 1, sum: -7, sum_sq: 49 });
    assert!(report.has_mean() && !report.has_std_dev());
    assert_eq!(mean(&report), -7.0);
    assert!(variance(&report).is_nan());
}

#[test]
fn the_accumulator_refuses_what_it_cannot_hold() {
    let mut acc = Accumulator::new();
    for _ in 0..3 {
        assert_eq!(acc.add(i64::MIN), Ok(()));
    }
    assert_eq!(acc.report().sum_sq, 3 << 126);
    assert_eq!(acc.add(i64::MIN), Err(Overflow));
    assert_eq!(acc.report().count, 3);
    assert_eq!(acc.add(3), Ok(()));
    assert_eq!(acc.report(), Moments { count: 4, sum: 3 * (i64::MIN as i128) + 3, sum_sq: (3 << 126) + 9 });
}

#[test]
fn the_mean_is_a_quotient() {
    assert_eq!(compute_mean(&vec![]), None);
    assert_eq!(compute_mean(&vec![1, 2, 3, 4]), Some(Ratio { num: 10, den: 4 }));
    assert_eq!(compute_mean(&vec![-5]), Some(Ratio { num: -5, den: 1 }));
    assert_eq!(
        compute_mean(&vec![i64::MAX, i64::MAX, i64::MIN]),
        Some(Ratio { num: i64::MAX as i128 - 1, den: 3 })
    );
}

#[test]
fn a_series_keeps_its_values_in_order() {
    let mut series = TimeSeries::new();
    assert!(series.values().is_empty());
    assert_eq!(series.len(), 0);
    series.push(3);
    series.push(-1);
    series.push(3);
    assert_eq!(series.values(), &vec![3, -1, 3]);
    assert_eq!(series.len(), 3);
    assert_eq!(TimeSeries::from_values(vec![3, -1, 3]).values(), series.values());
}

#[test]
fn a_series_is_halved_while_two_values_are_left() {
    assert_eq!(halving_lengths(0), Vec::<usize>::new());
    assert_eq!(halving_lengths(1), Vec::<usize>::new());
    assert_eq!(halving_lengths(2), vec![2]);
    assert_eq!(halving_lengths(10), vec![10, 5, 2]);
    assert_eq!(halving_lengths(1024), vec![1024, 512, 256, 128, 64, 32, 16, 8, 4, 2]);
}

#[test]
fn blocks_are_summed_side_by_side() {
    let series = vec![1, 2, 3, 4, 5, 6, 7];
    assert_eq!(block_sums(&series, 1), vec![1, 2, 3, 4, 5, 6, 7]);
    assert_eq!(block_sums(&series, 2), vec![3, 7, 11]);
    assert_eq!(block_sums(&series, 4), vec![10]);
    assert_eq!(block_sums(&series, 8), Vec::<i128>::new());
    assert_eq!(block_sums(&series, 0), Vec::<i128>::new());
    assert_eq!(block_sums(&vec![i64::MAX, i64::MAX], 2), vec![2 * (i64::MAX as i128)]);
}

#[test]
fn moments_of_a_tail() {
    let series = vec![9, 9, 1, 2, 3, 4];
    assert_eq!(tail_moments(&series, 2), Ok(Moments { count: 4, sum: 10, sum_sq: 30 }));
    assert_eq!(tail_moments(&series, 0), Ok(Moments { count: 6, sum: 28, sum_sq: 192 }));
    assert_eq!(tail_moments(&series, 6), Ok(Moments { count: 0, sum: 0, sum_sq: 0 }));
    assert_eq!(tail_moments(&series, 60), Ok(Moments { count: 0, sum: 0, sum_sq: 0 }));
    assert_eq!(tail_moments(&vec![1, i64::MIN, i64::MIN, i64::MIN, i64::MIN], 1), Err(Overflow));
}

#[test]
fn the_plateau_is_the_first_level_above_all_later_floors() {
    let level = |estimate, floor| Level { estimate, floor };
    assert_eq!(plateau(&vec![]), None);
    assert_eq!(plateau(&vec![level(5, 9)]), Some(0));
    assert_eq!(plateau(&vec![level(5, 1), level(7, 4), level(8, 2)]), Some(0));
    assert_eq!(plateau(&vec![level(3, 1), level(7, 4), level(8, 2)]), Some(1));
    assert_eq!(plateau(&vec![level(3, 1), level(7, 4), level(8, 7)]), Some(2));
    assert_eq!(plateau(&vec![level(4, 1), level(7, 4), level(8, 2)]), Some(1));
}

#[test]
fn a_single_value_has_no_standard_error() {
    assert_eq!(halving_lengths(1), Vec::<usize>::new());
    assert!(standard_error(&vec![5]).is_nan());
    assert!(standard_error(&vec![]).is_nan());
    let m = tail_moments(&vec![5], 0).unwrap();
    assert!(variance(&m).is_nan());
}

#[test]
fn constant_values_have_no_error_at_any_level() {
    let series = vec![5; 10];
    let (levels, estimates) = blocking(&series);
    assert_eq!(levels.len(), 3);
    for estimate in &estimates {
        assert_eq!(*estimate, 0.0);
    }
    assert_eq!(plateau(&levels), Some(2));
    assert_eq!(standard_error(&series), 0.0);
}

#[test]
fn independent_values_reach_the_plateau_at_once() {
    let series = vec![12, 9, 11, 10, 8, 13, 10, 11, 9, 12, 10, 8, 11, 13, 9, 10];
    let (levels, estimates) = blocking(&series);
    assert_eq!(levels.len(), 4);
    let level = plateau(&levels).unwrap();
    for later in level + 1..levels.len() {
        assert!(levels[level].estimate > levels[later].floor);
    }
    for earlier in 0..level {
        assert!((earlier + 1..levels.len())
            .any(|later| levels[earlier].estimate <= levels[later].floor));
    }
    assert_eq!(standard_error(&series), estimates[level].sqrt());
}

#[test]
fn candidates_go_from_half_of_the_series_down_to_none() {
    assert_eq!(mser_candidates(0), Vec::<usize>::new());
    assert_eq!(mser_candidates(1), Vec::<usize>::new());
    assert_eq!(mser_candidates(2), vec![0]);
    assert_eq!(mser_candidates(3), vec![1, 0]);
    assert_eq!(mser_candidates(8), vec![4, 2, 1, 0]);
    assert_eq!(mser_candidates(9), vec![4, 2, 1, 0]);
    assert_eq!(mser_candidates(1000), vec![500, 250, 125, 62, 31, 15, 7, 3, 1, 0]);
}

fn equilibration(series: &Vec<i64>) -> usize {
    let scores: Vec<u64> = mser_candidates(series.len())
        .iter()
        .map(|&cutoff| key(marginal_error(series, cutoff)))
        .collect();
    mser_cutoff(series.len(), &scores).unwrap()
}

#[test]
fn a_short_stationary_series_is_kept_whole() {
    let series = vec![12, 9, 11, 10, 8, 13, 10, 11];
    let errors: Vec<f64> =
        mser_candidates(8).iter().map(|&c| marginal_error(&series, c)).collect();
    assert_eq!(errors[0], 0.8125);
    assert_eq!(errors[1], 0.375);
    assert_eq!(errors[3], 0.28125);
    assert_eq!(equilibration(&series), 0);
}

#[test]
fn a_transient_is_cut_off() {
    let series = vec![100, 90, 50, 20, 10, 11, 9, 10, 10, 11, 9, 10, 10, 9, 11, 10];
    assert_eq!(equilibration(&series), 4);
}

#[test]
fn a_cutoff_at_half_of_the_series_is_rejected() {
    let series = vec![50, 40, 30, 20, 10, 11, 9, 10];
    let errors: Vec<f64> =
        mser_candidates(8).iter().map(|&c| marginal_error(&series, c)).collect();
    assert!(errors[0] < errors[1] && errors[0] < errors[2] && errors[0] < errors[3]);
    assert_eq!(equilibration(&series), 0);
}

#[test]
fn the_first_of_equal_scores_is_chosen() {
    assert_eq!(mser_cutoff(8, &vec![9, 3, 3, 7]), Some(2));
    assert_eq!(mser_cutoff(8, &vec![9, 7, 3, 3]), Some(1));
    assert_eq!(mser_cutoff(8, &vec![3, 3, 3, 3]), Some(0));
    assert_eq!(mser_cutoff(8, &vec![9, 7, 5, 3]), Some(0));
    assert_eq!(mser_cutoff(8, &vec![9, 7, 5]), None);
    assert_eq!(mser_cutoff(1, &vec![]), Some(0));
    assert_eq!(mser_cutoff(1, &vec![1]), None);
    assert_eq!(mser_cutoff(2, &vec![1]), Some(0));
}

#[test]
fn the_weighted_average_is_a_quotient_of_sums() {
    assert_eq!(weighted_average(&vec![1, 2, 3], &vec![1, 1, 2]), Ok(Average { sum: 9, weight: 4 }));
    assert_eq!(weighted_average(&vec![-4, 4], &vec![3, 1]), Ok(Average { sum: -8, weight: 4 }));
    assert_eq!(weighted_average(&vec![5, 7], &vec![0, 0]), Ok(Average { sum: 0, weight: 0 }));
    let avg = weighted_average(&vec![10, 20], &vec![250_000_000, 750_000_000]).unwrap();
    assert_eq!(avg.sum as f64 / avg.weight as f64, 17.5);
    assert_eq!(
        weighted_average(&vec![i64::MIN], &vec![u64::MAX]),
        Ok(Average { sum: i64::MIN as i128 * u64::MAX as i128, weight: u64::MAX as u128 })
    );
}

#[test]
fn values_without_a_weighted_average() {
    assert_eq!(weighted_average(&vec![], &vec![]), Err(AverageError::Empty));
    assert_eq!(weighted_average(&vec![], &vec![1]), Err(AverageError::Empty));
    assert_eq!(
        weighted_average(&vec![1, 2], &vec![1]),
        Err(AverageError::Length { values: 2, weights: 1 })
    );
    assert_eq!(
        weighted_average(&vec![i64::MAX, i64::MAX], &vec![u64::MAX, u64::MAX]),
        Err(AverageError::Overflow)
    );
    assert_eq!(
        weighted_average(
            &vec![i64::MAX, i64::MAX, i64::MIN, i64::MIN],
            &vec![u64::MAX, u64::MAX, u64::MAX, u64::MAX]
        ),
        Err(AverageError::Overflow)
    );
    assert!(weighted_average(
        &vec![i64::MAX, i64::MIN, i64::MAX, i64::MIN],
        &vec![u64::MAX, u64::MAX, u64::MAX, u64::MAX]
    )
    .is_ok());
}
