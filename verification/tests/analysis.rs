use mutare::analysis::{calc_observables, AnalysisError, Analyzer, Metric, Observables};
use mutare::config::{Config, InitParams, ModelParams, OutputParams};
use mutare::stats::{Average, AverageError};
use mutare::types::{Agent, Event, State};
use mutare::units::UNIT;

fn config(n_phe: usize) -> Config {
    Config {
        model: ModelParams {
            n_env: 1,
            n_phe,
            rates_trans_env: vec![vec![0]],
            rates_rep: vec![vec![UNIT; n_phe]],
            rates_dec: vec![vec![UNIT; n_phe]],
            prob_mut: 0,
            std_dev_mut: 0,
        },
        init: InitParams { n_agt: 4, strat_phe: vec![UNIT / n_phe as u64; n_phe] },
        output: OutputParams { steps_per_file: 1024, steps_per_save: 256 },
    }
}

fn state(strategies: &[[u64; 2]]) -> State {
    State {
        env: 0,
        agents: strategies.iter().map(|s| Agent::new(0, s.to_vec())).collect(),
    }
}

#[test]
fn observables_of_equal_agents() {
    let half = UNIT / 2;
    let obs = calc_observables(
        &config(2),
        &state(&[[half, half], [half, half], [half, half]]),
        &Event::Replication { agent_idx: 1 },
        7,
    );
    assert_eq!(obs.n_agents, 3);
    assert_eq!(obs.growth, 1);
    assert_eq!(obs.n_extinct, 7);
    assert_eq!(obs.sum_strat_phe, vec![3 * half, 3 * half]);
    assert_eq!(obs.dispersion, 0);
}

#[test]
fn observables_of_unequal_agents() {
    let quarter = UNIT / 4;
    let obs = calc_observables(
        &config(2),
        &state(&[[UNIT, 0], [2 * quarter, 2 * quarter]]),
        &Event::Death { agent_idx: 0 },
        0,
    );
    assert_eq!(obs.n_agents, 2);
    assert_eq!(obs.growth, -1);
    assert_eq!(obs.sum_strat_phe, vec![6 * quarter, 2 * quarter]);
    // Each agent is a quarter away from the average in each component:
    // scaled by the two agents that is a whole for each agent.
    let deviation = UNIT as u128;
    assert_eq!(obs.dispersion, 2 * deviation * deviation);

    let n = obs.n_agents as f64;
    let average: Vec<f64> = obs.sum_strat_phe.iter().map(|&s| s as f64 / n / UNIT as f64).collect();
    assert_eq!(average, vec![0.75, 0.25]);
    let spread = (obs.dispersion as f64 / n).sqrt() / (2.0 * n * UNIT as f64);
    assert_eq!(spread, 0.25);
    let growth_rate = obs.growth as f64 / (n * 0.5);
    assert_eq!(growth_rate, -1.0);
}

#[test]
fn observables_of_no_agents() {
    let obs = calc_observables(&config(2), &state(&[]), &Event::EnvTrans { next_env: 0 }, 3);
    assert_eq!(
        obs,
        Observables { n_agents: 0, growth: 0, n_extinct: 3, sum_strat_phe: vec![0, 0], dispersion: 0 }
    );
}

fn observed(n_agents: usize, growth: i8, n_extinct: usize, sums: Vec<u64>) -> Observables {
    Observables { n_agents, growth, n_extinct, sum_strat_phe: sums, dispersion: 0 }
}

#[test]
fn metrics_read_their_values() {
    let obs = observed(240, -1, 3, vec![10, 20]);
    assert_eq!(Metric::NAgents.read(&obs), Some(240));
    assert_eq!(Metric::Growth.read(&obs), Some(-1));
    assert_eq!(Metric::NExtinct.read(&obs), Some(3));
    assert_eq!(Metric::SumStratPhe { phe: 1 }.read(&obs), Some(20));
    assert_eq!(Metric::SumStratPhe { phe: 2 }.read(&obs), None);
    let large = observed(240, 0, 0, vec![u64::MAX]);
    assert_eq!(Metric::SumStratPhe { phe: 0 }.read(&large), None);
    let edge = observed(240, 0, 0, vec![i64::MAX as u64]);
    assert_eq!(Metric::SumStratPhe { phe: 0 }.read(&edge), Some(i64::MAX));
}

#[test]
fn two_metrics_cannot_share_a_name() {
    let mut analyzer = Analyzer::new();
    assert_eq!(analyzer.track(String::from("n_agents"), Metric::NAgents), Ok(()));
    assert_eq!(analyzer.track(String::from("growth"), Metric::Growth), Ok(()));
    assert_eq!(
        analyzer.track(String::from("n_agents"), Metric::NExtinct),
        Err(AnalysisError::DuplicateName)
    );
    assert_eq!(analyzer.track(String::from("n_agents "), Metric::NExtinct), Ok(()));
    let report = analyzer.report();
    assert_eq!(report.len(), 3);
    assert_eq!(report[0].name(), "n_agents");
    assert_eq!(report[0].metric(), Metric::NAgents);
    assert_eq!(report[1].name(), "growth");
    assert_eq!(report[2].metric(), Metric::NExtinct);
}

#[test]
fn each_metric_follows_its_value_through_the_observables() {
    let mut analyzer = Analyzer::new();
    analyzer.track(String::from("growth"), Metric::Growth).unwrap();
    analyzer.track(String::from("strategy 1"), Metric::SumStratPhe { phe: 1 }).unwrap();
    analyzer.add(&observed(4, 1, 0, vec![1, 2])).unwrap();
    analyzer.add(&observed(4, -1, 0, vec![3, 4])).unwrap();
    analyzer.add(&observed(4, 0, 1, vec![5, 6])).unwrap();
    let report = analyzer.report();
    assert_eq!(report[0].series().values(), &vec![1, -1, 0]);
    assert_eq!(report[1].series().values(), &vec![2, 4, 6]);
}

#[test]
fn observables_without_a_value_are_not_read() {
    let mut analyzer = Analyzer::new();
    analyzer.track(String::from("growth"), Metric::Growth).unwrap();
    analyzer.track(String::from("strategy 1"), Metric::SumStratPhe { phe: 1 }).unwrap();
    analyzer.add(&observed(4, 1, 0, vec![1, 2])).unwrap();
    assert_eq!(
        analyzer.add(&observed(4, -1, 0, vec![3])),
        Err(AnalysisError::NoValue { index: 1 })
    );
    let report = analyzer.report();
    assert_eq!(report[0].series().values(), &vec![1]);
    assert_eq!(report[1].series().values(), &vec![2]);
}

#[test]
fn a_file_is_read_to_its_end_or_to_its_first_fault() {
    let mut analyzer = Analyzer::new();
    analyzer.track(String::from("n_extinct"), Metric::NExtinct).unwrap();
    analyzer.track(String::from("strategy 0"), Metric::SumStratPhe { phe: 0 }).unwrap();
    let file = vec![observed(4, 1, 0, vec![7]), observed(4, 1, 2, vec![8])];
    assert_eq!(analyzer.add_output_file(&file), Ok(()));
    assert_eq!(analyzer.add_output_file(&vec![]), Ok(()));
    let faulty = vec![observed(4, 1, 5, vec![9]), observed(4, 1, 6, vec![]), observed(4, 1, 7, vec![1])];
    assert_eq!(analyzer.add_output_file(&faulty), Err(AnalysisError::NoValue { index: 1 }));
    let report = analyzer.report();
    assert_eq!(report[0].series().values(), &vec![0, 2, 5]);
    assert_eq!(report[1].series().values(), &vec![7, 8, 9]);
}

#[test]
fn the_analysis_averages_each_metric_over_time() {
    let mut analyzer = Analyzer::new();
    analyzer.track(String::from("growth"), Metric::Growth).unwrap();
    analyzer.track(String::from("strategy 0"), Metric::SumStratPhe { phe: 0 }).unwrap();
    analyzer.add(&observed(4, 1, 0, vec![10])).unwrap();
    analyzer.add(&observed(4, -1, 0, vec![20])).unwrap();
    analyzer.add(&observed(4, 1, 0, vec![40])).unwrap();
    assert_eq!(
        analyzer.analyze(&vec![1, 2, 5]),
        Ok(vec![Average { sum: 4, weight: 8 }, Average { sum: 250, weight: 8 }])
    );
    assert_eq!(
        analyzer.analyze(&vec![1, 2]),
        Err(AnalysisError::NoAverage {
            index: 0,
            error: AverageError::Length { values: 3, weights: 2 }
        })
    );
    assert_eq!(Analyzer::new().analyze(&vec![1]), Ok(vec![]));
}

#[test]
fn an_analysis_without_observables_has_no_averages() {
    let mut analyzer = Analyzer::new();
    analyzer.track(String::from("growth"), Metric::Growth).unwrap();
    assert_eq!(
        analyzer.analyze(&vec![]),
        Err(AnalysisError::NoAverage { index: 0, error: AverageError::Empty })
    );
}
