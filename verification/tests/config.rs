use mutare::config::{Config, ConfigError, InitParams, ModelParams, OutputParams};
use mutare::params::{Params, ParamsError};
use mutare::units::UNIT;
use mutare::utils::{MatError, NumRange, OutOfRange, VecError};

fn valid_config() -> Config {
    Config {
        model: ModelParams {
            n_env: 2,
            n_phe: 2,
            rates_trans_env: vec![vec![0, UNIT], vec![UNIT, 0]],
            rates_rep: vec![vec![1_200_000_000, 0], vec![0, 900_000_000]],
            rates_dec: vec![vec![0, 1_600_000_000], vec![UNIT, 0]],
            prob_mut: 2_000_000,
            std_dev_mut: 10_000_000,
        },
        init: InitParams { n_agt: 240, strat_phe: vec![UNIT / 2, UNIT / 2] },
        output: OutputParams { steps_per_file: 65_536, steps_per_save: 256 },
    }
}

#[test]
fn a_valid_configuration_passes() {
    assert_eq!(valid_config().validate(), Ok(()));
}

#[test]
fn the_ends_of_the_ranges_pass() {
    let mut cfg = valid_config();
    cfg.model.prob_mut = UNIT;
    cfg.model.std_dev_mut = 0;
    cfg.init.n_agt = 16_384;
    cfg.output.steps_per_file = 0;
    assert_eq!(cfg.validate(), Ok(()));
    cfg.init.n_agt = 1;
    cfg.output.steps_per_file = 1_048_576;
    cfg.output.steps_per_save = usize::MAX;
    assert_eq!(cfg.validate(), Ok(()));
}

#[test]
fn each_parameter_has_its_error() {
    let mut cfg = valid_config();
    cfg.model.n_env = 17;
    assert_eq!(
        cfg.validate(),
        Err(ConfigError::NumEnv(OutOfRange { num: 17, range: NumRange::inclusive(1, 16) }))
    );

    let mut cfg = valid_config();
    cfg.model.n_phe = 0;
    assert_eq!(
        cfg.validate(),
        Err(ConfigError::NumPhe(OutOfRange { num: 0, range: NumRange::inclusive(1, 16) }))
    );

    let mut cfg = valid_config();
    cfg.model.rates_trans_env.pop();
    assert_eq!(
        cfg.validate(),
        Err(ConfigError::RatesTransEnv(MatError::Rows { expected: 2, found: 1 }))
    );

    let mut cfg = valid_config();
    cfg.model.rates_rep[1].push(0);
    assert_eq!(
        cfg.validate(),
        Err(ConfigError::RatesRep(MatError::Columns { row: 1, expected: 2, found: 3 }))
    );

    let mut cfg = valid_config();
    cfg.model.rates_dec[0].clear();
    assert_eq!(
        cfg.validate(),
        Err(ConfigError::RatesDec(MatError::Columns { row: 0, expected: 2, found: 0 }))
    );

    let mut cfg = valid_config();
    cfg.model.prob_mut = UNIT + 1;
    assert_eq!(
        cfg.validate(),
        Err(ConfigError::ProbMut(OutOfRange {
            num: UNIT + 1,
            range: NumRange::inclusive(0, UNIT)
        }))
    );

    let mut cfg = valid_config();
    cfg.model.std_dev_mut = 2 * UNIT;
    assert_eq!(
        cfg.validate(),
        Err(ConfigError::StdDevMut(OutOfRange {
            num: 2 * UNIT,
            range: NumRange::inclusive(0, UNIT)
        }))
    );

    let mut cfg = valid_config();
    cfg.init.n_agt = 16_385;
    assert_eq!(
        cfg.validate(),
        Err(ConfigError::NumAgt(OutOfRange { num: 16_385, range: NumRange::inclusive(1, 16_384) }))
    );

    let mut cfg = valid_config();
    cfg.init.strat_phe = vec![UNIT];
    assert_eq!(
        cfg.validate(),
        Err(ConfigError::StratPhe(VecError::Length { expected: 2, found: 1 }))
    );

    let mut cfg = valid_config();
    cfg.init.strat_phe = vec![UNIT / 2, UNIT / 4];
    assert_eq!(
        cfg.validate(),
        Err(ConfigError::StratPhe(VecError::NotNormalized { sum: 750_000_000 }))
    );

    let mut cfg = valid_config();
    cfg.output.steps_per_file = 1_048_577;
    assert_eq!(
        cfg.validate(),
        Err(ConfigError::StepsPerFile(OutOfRange {
            num: 1_048_577,
            range: NumRange::inclusive(0, 1_048_576)
        }))
    );

    let mut cfg = valid_config();
    cfg.output.steps_per_save = 255;
    assert_eq!(
        cfg.validate(),
        Err(ConfigError::StepsPerSave(OutOfRange { num: 255, range: NumRange::at_least(256) }))
    );
}

#[test]
fn the_first_fault_is_reported() {
    let mut cfg = valid_config();
    cfg.model.n_phe = 0;
    cfg.init.n_agt = 0;
    cfg.output.steps_per_save = 0;
    assert!(matches!(cfg.validate(), Err(ConfigError::NumPhe(_))));
}

fn params(n_env: usize, prob_env: Vec<Vec<u64>>, std_dev_mut: u64) -> Result<Params, ParamsError> {
    Params::new(
        n_env,
        2,
        prob_env,
        vec![vec![40_000_000, 0], vec![0, 30_000_000]],
        vec![vec![0, 20_000_000], vec![20_000_000, 0]],
        256,
        std_dev_mut,
        1024,
        64,
    )
}

#[test]
fn valid_parameters_are_kept() {
    let prob_env = vec![vec![990_000_000, 10_000_000], vec![10_000_000, 990_000_000]];
    let par = params(2, prob_env.clone(), 10_000_000).unwrap();
    assert_eq!(par.n_env, 2);
    assert_eq!(par.n_phe, 2);
    assert_eq!(par.prob_env, prob_env);
    assert_eq!(par.n_agt_init, 256);
    assert_eq!(par.std_dev_mut, 10_000_000);
    assert_eq!(par.steps_per_save, 1024);
    assert_eq!(par.saves_per_file, 64);
}

#[test]
fn parameters_out_of_their_ranges_are_refused() {
    let prob_env = vec![vec![990_000_000, 10_000_000], vec![10_000_000, 990_000_000]];
    assert_eq!(
        params(100, prob_env.clone(), 0),
        Err(ParamsError::NumEnv(OutOfRange { num: 100, range: NumRange::half_open(1, 100) }))
    );
    assert_eq!(
        params(2, prob_env.clone(), UNIT),
        Err(ParamsError::StdDevMut(OutOfRange { num: UNIT, range: NumRange::half_open(0, UNIT) }))
    );
    assert_eq!(
        params(2, vec![vec![990_000_000, 10_000_000], vec![10_000_000, 980_000_000]], 0),
        Err(ParamsError::ProbEnv(MatError::Row {
            row: 1,
            error: VecError::NotNormalized { sum: 990_000_000 }
        }))
    );
    assert_eq!(
        params(3, prob_env, 0),
        Err(ParamsError::ProbEnv(MatError::Rows { expected: 3, found: 2 }))
    );
}

#[test]
fn every_parameter_is_checked_in_turn() {
    let prob_env = vec![vec![UNIT, 0], vec![0, UNIT]];
    let rep = vec![vec![0, 0], vec![0, 0]];
    let make = |n_phe: usize, rep: Vec<Vec<u64>>, dec: Vec<Vec<u64>>, n: usize, s: usize, f: usize| {
        Params::new(2, n_phe, prob_env.clone(), rep, dec, n, 0, s, f)
    };
    assert!(matches!(
        make(0, rep.clone(), rep.clone(), 1, 1, 1),
        Err(ParamsError::NumPhe(_))
    ));
    assert!(matches!(
        make(3, rep.clone(), rep.clone(), 1, 1, 1),
        Err(ParamsError::ProbRep(MatError::Columns { row: 0, expected: 3, found: 2 }))
    ));
    assert!(matches!(
        make(2, rep.clone(), vec![], 1, 1, 1),
        Err(ParamsError::ProbDec(MatError::Rows { expected: 2, found: 0 }))
    ));
    assert!(matches!(
        make(2, rep.clone(), rep.clone(), 100_000, 1, 1),
        Err(ParamsError::NumAgtInit(_))
    ));
    assert!(matches!(
        make(2, rep.clone(), rep.clone(), 1, 0, 1),
        Err(ParamsError::StepsPerSave(_))
    ));
    assert!(matches!(
        make(2, rep.clone(), rep.clone(), 1, 1, 10_000),
        Err(ParamsError::SavesPerFile(_))
    ));
    assert!(make(2, rep.clone(), rep, 99_999, 9_999, 9_999).is_ok());
}
