//! Simulation configuration parameters.

use crate::units::{is_prob_vec, UNIT};
use crate::utils::{
    check_mat, check_num, check_vec, has_shape, lemma_mat_verdict_shape, mat_verdict, matrix,
    num_verdict, vec_verdict, verdict_result, MatError, NumRange, OutOfRange, VecError,
};
use vstd::prelude::*;

verus! {

/// The largest number of environments.
pub const MAX_ENV: usize = 16;

/// The largest number of phenotypes.
pub const MAX_PHE: usize = 16;

/// The largest number of agents a population is held at.
pub const MAX_AGENTS: usize = 16_384;

/// The largest number of steps per output file.
pub const MAX_STEPS_PER_FILE: usize = 1_048_576;

/// The smallest number of steps per saved record.
pub const MIN_STEPS_PER_SAVE: usize = 256;

/// Stochastic agent-based model parameters.
#[derive(Debug, PartialEq, Eq, Clone)]
pub struct ModelParams {
    /// Number of environments.
    pub n_env: usize,
    /// Number of phenotypes.
    pub n_phe: usize,
    /// Environment transition rates (matrix `n_env x n_env`); the diagonal is
    /// not read.
    pub rates_trans_env: Vec<Vec<u64>>,
    /// Replication rates (matrix `n_env x n_phe`).
    pub rates_rep: Vec<Vec<u64>>,
    /// Deceased rates (matrix `n_env x n_phe`).
    pub rates_dec: Vec<Vec<u64>>,
    /// Mutation probability.
    pub prob_mut: u64,
    /// Mutation standard deviation.
    pub std_dev_mut: u64,
}

/// State initialization parameters.
#[derive(Debug, PartialEq, Eq, Clone)]
pub struct InitParams {
    /// Number of agents.
    pub n_agt: usize,
    /// Phenotypic strategy.
    pub strat_phe: Vec<u64>,
}

/// Output format parameters.
#[derive(Debug, PartialEq, Eq, Clone)]
pub struct OutputParams {
    /// Number of steps per output file.
    pub steps_per_file: usize,
    /// Number of steps per saved record.
    pub steps_per_save: usize,
}

/// Simulation configuration parameters.
#[derive(Debug, PartialEq, Eq, Clone)]
pub struct Config {
    /// Stochastic agent-based model parameters.
    pub model: ModelParams,
    /// State initialization parameters.
    pub init: InitParams,
    /// Output format parameters.
    pub output: OutputParams,
}

/// What is wrong with a configuration: the parameter, and its fault.
#[derive(Clone, Copy, Debug, PartialEq, Eq, Structural)]
pub enum ConfigError {
    /// Invalid number of environments.
    NumEnv(OutOfRange),
    /// Invalid number of phenotypes.
    NumPhe(OutOfRange),
    /// Invalid environment transition rates.
    RatesTransEnv(MatError),
    /// Invalid replicating rates.
    RatesRep(MatError),
    /// Invalid deceased rates.
    RatesDec(MatError),
    /// Invalid mutation probability.
    ProbMut(OutOfRange),
    /// Invalid mutation standard deviation.
    StdDevMut(OutOfRange),
    /// Invalid number of agents.
    NumAgt(OutOfRange),
    /// Invalid phenotypic strategy.
    StratPhe(VecError),
    /// Invalid number of steps per output file.
    StepsPerFile(OutOfRange),
    /// Invalid number of steps per saved record.
    StepsPerSave(OutOfRange),
}

impl Config {
    /// Every parameter is in its range, every matrix has its shape, and the
    /// initial strategy is a probability vector.
    pub open spec fn valid(&self) -> bool {
        &&& 1 <= self.model.n_env <= MAX_ENV
        &&& 1 <= self.model.n_phe <= MAX_PHE
        &&& has_shape(matrix(self.model.rates_trans_env@), self.model.n_env, self.model.n_env)
        &&& has_shape(matrix(self.model.rates_rep@), self.model.n_env, self.model.n_phe)
        &&& has_shape(matrix(self.model.rates_dec@), self.model.n_env, self.model.n_phe)
        &&& self.model.prob_mut <= UNIT
        &&& self.model.std_dev_mut <= UNIT
        &&& 1 <= self.init.n_agt <= MAX_AGENTS
        &&& self.init.strat_phe@.len() == self.model.n_phe
        &&& is_prob_vec(self.init.strat_phe@)
        &&& self.output.steps_per_file <= MAX_STEPS_PER_FILE
        &&& self.output.steps_per_save >= MIN_STEPS_PER_SAVE
    }

    /// The first fault of the configuration, the parameters taken in the
    /// order of their declaration.
    pub open spec fn verdict(&self) -> Option<ConfigError> {
        let model = self.model;
        let init = self.init;
        let output = self.output;
        let n_env = num_verdict(model.n_env as u64, NumRange::inclusive(1, MAX_ENV as u64));
        let n_phe = num_verdict(model.n_phe as u64, NumRange::inclusive(1, MAX_PHE as u64));
        let trans = mat_verdict(matrix(model.rates_trans_env@), (model.n_env, model.n_env), false);
        let rep = mat_verdict(matrix(model.rates_rep@), (model.n_env, model.n_phe), false);
        let dec = mat_verdict(matrix(model.rates_dec@), (model.n_env, model.n_phe), false);
        let prob_mut = num_verdict(model.prob_mut, NumRange::inclusive(0, UNIT));
        let std_dev_mut = num_verdict(model.std_dev_mut, NumRange::inclusive(0, UNIT));
        let n_agt = num_verdict(init.n_agt as u64, NumRange::inclusive(1, MAX_AGENTS as u64));
        let strat = vec_verdict(init.strat_phe@, model.n_phe, true);
        let per_file = num_verdict(
            output.steps_per_file as u64,
            NumRange::inclusive(0, MAX_STEPS_PER_FILE as u64),
        );
        let per_save = num_verdict(
            output.steps_per_save as u64,
            NumRange::at_least(MIN_STEPS_PER_SAVE as u64),
        );
        if n_env is Some {
            Some(ConfigError::NumEnv(n_env->0))
        } else if n_phe is Some {
            Some(ConfigError::NumPhe(n_phe->0))
        } else if trans is Some {
            Some(ConfigError::RatesTransEnv(trans->0))
        } else if rep is Some {
            Some(ConfigError::RatesRep(rep->0))
        } else if dec is Some {
            Some(ConfigError::RatesDec(dec->0))
        } else if prob_mut is Some {
            Some(ConfigError::ProbMut(prob_mut->0))
        } else if std_dev_mut is Some {
            Some(ConfigError::StdDevMut(std_dev_mut->0))
        } else if n_agt is Some {
            Some(ConfigError::NumAgt(n_agt->0))
        } else if strat is Some {
            Some(ConfigError::StratPhe(strat->0))
        } else if per_file is Some {
            Some(ConfigError::StepsPerFile(per_file->0))
        } else if per_save is Some {
            Some(ConfigError::StepsPerSave(per_save->0))
        } else {
            None
        }
    }

    /// A configuration is valid exactly when it has no fault.
    pub proof fn lemma_verdict_valid(&self)
        ensures
            self.verdict() is None <==> self.valid(),
    {
        lemma_mat_verdict_shape(
            matrix(self.model.rates_trans_env@),
            (self.model.n_env, self.model.n_env),
        );
        lemma_mat_verdict_shape(matrix(self.model.rates_rep@), (self.model.n_env, self.model.n_phe));
        lemma_mat_verdict_shape(matrix(self.model.rates_dec@), (self.model.n_env, self.model.n_phe));
    }

    /// Checks every parameter, and reports the first fault.
    pub fn validate(&self) -> (r: Result<(), ConfigError>)
        ensures
            r == verdict_result(self.verdict()),
            r is Ok <==> self.valid(),
    {
        proof {
            self.lemma_verdict_valid();
        }
        let model = &self.model;
        let init = &self.init;
        let output = &self.output;
        if let Err(e) = check_num(model.n_env as u64, NumRange::inclusive(1, MAX_ENV as u64)) {
            return Err(ConfigError::NumEnv(e));
        }
        if let Err(e) = check_num(model.n_phe as u64, NumRange::inclusive(1, MAX_PHE as u64)) {
            return Err(ConfigError::NumPhe(e));
        }
        if let Err(e) = check_mat(&model.rates_trans_env, (model.n_env, model.n_env), false) {
            return Err(ConfigError::RatesTransEnv(e));
        }
        if let Err(e) = check_mat(&model.rates_rep, (model.n_env, model.n_phe), false) {
            return Err(ConfigError::RatesRep(e));
        }
        if let Err(e) = check_mat(&model.rates_dec, (model.n_env, model.n_phe), false) {
            return Err(ConfigError::RatesDec(e));
        }
        if let Err(e) = check_num(model.prob_mut, NumRange::inclusive(0, UNIT)) {
            return Err(ConfigError::ProbMut(e));
        }
        if let Err(e) = check_num(model.std_dev_mut, NumRange::inclusive(0, UNIT)) {
            return Err(ConfigError::StdDevMut(e));
        }
        if let Err(e) = check_num(init.n_agt as u64, NumRange::inclusive(1, MAX_AGENTS as u64)) {
            return Err(ConfigError::NumAgt(e));
        }
        if let Err(e) = check_vec(&init.strat_phe, model.n_phe, true) {
            return Err(ConfigError::StratPhe(e));
        }
        if let Err(e) = check_num(
            output.steps_per_file as u64,
            NumRange::inclusive(0, MAX_STEPS_PER_FILE as u64),
        ) {
            return Err(ConfigError::StepsPerFile(e));
        }
        if let Err(e) = check_num(
            output.steps_per_save as u64,
            NumRange::at_least(MIN_STEPS_PER_SAVE as u64),
        ) {
            return Err(ConfigError::StepsPerSave(e));
        }
        Ok(())
    }
}

} // verus!
