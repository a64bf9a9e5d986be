//! Parameters of a model in discrete time, in which what happens to an
//! environment or an agent in a step is given by probabilities.

use crate::units::UNIT;
use crate::utils::{
    check_mat, check_num, mat_verdict, matrix, num_verdict, MatError, NumRange, OutOfRange,
};
use vstd::prelude::*;

verus! {

/// Parameters of a simulation.
#[derive(Debug, PartialEq, Eq)]
pub struct Params {
    pub n_env: usize,
    pub n_phe: usize,
    pub prob_env: Vec<Vec<u64>>,
    pub prob_rep: Vec<Vec<u64>>,
    pub prob_dec: Vec<Vec<u64>>,
    pub n_agt_init: usize,
    pub std_dev_mut: u64,
    pub steps_per_save: usize,
    pub saves_per_file: usize,
}

/// What is wrong with the parameters: the parameter, and its fault.
#[derive(Clone, Copy, Debug, PartialEq, Eq, Structural)]
pub enum ParamsError {
    /// Invalid number of environments.
    NumEnv(OutOfRange),
    /// Invalid number of phenotypes.
    NumPhe(OutOfRange),
    /// Invalid environment probabilities.
    ProbEnv(MatError),
    /// Invalid replicating probabilities.
    ProbRep(MatError),
    /// Invalid deceased probabilities.
    ProbDec(MatError),
    /// Invalid initial number of agents.
    NumAgtInit(OutOfRange),
    /// Invalid mutation standard deviation.
    StdDevMut(OutOfRange),
    /// Invalid number of steps per save.
    StepsPerSave(OutOfRange),
    /// Invalid number of saves per file.
    SavesPerFile(OutOfRange),
}

impl Params {
    /// The first fault of the parameters, taken in the order of their
    /// declaration.
    pub open spec fn verdict(&self) -> Option<ParamsError> {
        let n_env = num_verdict(self.n_env as u64, NumRange::half_open(1, 100));
        let n_phe = num_verdict(self.n_phe as u64, NumRange::half_open(1, 100));
        let env = mat_verdict(matrix(self.prob_env@), (self.n_env, self.n_env), true);
        let rep = mat_verdict(matrix(self.prob_rep@), (self.n_env, self.n_phe), false);
        let dec = mat_verdict(matrix(self.prob_dec@), (self.n_env, self.n_phe), false);
        let n_agt = num_verdict(self.n_agt_init as u64, NumRange::half_open(1, 100_000));
        let std_dev = num_verdict(self.std_dev_mut, NumRange::half_open(0, UNIT));
        let per_save = num_verdict(self.steps_per_save as u64, NumRange::half_open(1, 10_000));
        let per_file = num_verdict(self.saves_per_file as u64, NumRange::half_open(1, 10_000));
        if n_env is Some {
            Some(ParamsError::NumEnv(n_env->0))
        } else if n_phe is Some {
            Some(ParamsError::NumPhe(n_phe->0))
        } else if env is Some {
            Some(ParamsError::ProbEnv(env->0))
        } else if rep is Some {
            Some(ParamsError::ProbRep(rep->0))
        } else if dec is Some {
            Some(ParamsError::ProbDec(dec->0))
        } else if n_agt is Some {
            Some(ParamsError::NumAgtInit(n_agt->0))
        } else if std_dev is Some {
            Some(ParamsError::StdDevMut(std_dev->0))
        } else if per_save is Some {
            Some(ParamsError::StepsPerSave(per_save->0))
        } else if per_file is Some {
            Some(ParamsError::SavesPerFile(per_file->0))
        } else {
            None
        }
    }

    /// Create parameters from their values, each of them checked: the
    /// numbers lie in their ranges, the matrices have their shapes, and each
    /// row of the environment probabilities is a probability vector.
    pub fn new(
        n_env: usize,
        n_phe: usize,
        prob_env: Vec<Vec<u64>>,
        prob_rep: Vec<Vec<u64>>,
        prob_dec: Vec<Vec<u64>>,
        n_agt_init: usize,
        std_dev_mut: u64,
        steps_per_save: usize,
        saves_per_file: usize,
    ) -> (r: Result<Self, ParamsError>)
        ensures
            match r {
                Ok(par) => par.verdict() is None && par == (Params {
                    n_env,
                    n_phe,
                    prob_env,
                    prob_rep,
                    prob_dec,
                    n_agt_init,
                    std_dev_mut,
                    steps_per_save,
                    saves_per_file,
                }),
                Err(e) => (Params {
                    n_env,
                    n_phe,
                    prob_env,
                    prob_rep,
                    prob_dec,
                    n_agt_init,
                    std_dev_mut,
                    steps_per_save,
                    saves_per_file,
                }).verdict() == Some(e),
            },
    {
        let par = Params {
            n_env,
            n_phe,
            prob_env,
            prob_rep,
            prob_dec,
            n_agt_init,
            std_dev_mut,
            steps_per_save,
            saves_per_file,
        };
        if let Err(e) = check_num(par.n_env as u64, NumRange::half_open(1, 100)) {
            return Err(ParamsError::NumEnv(e));
        }
        if let Err(e) = check_num(par.n_phe as u64, NumRange::half_open(1, 100)) {
            return Err(ParamsError::NumPhe(e));
        }
        if let Err(e) = check_mat(&par.prob_env, (par.n_env, par.n_env), true) {
            return Err(ParamsError::ProbEnv(e));
        }
        if let Err(e) = check_mat(&par.prob_rep, (par.n_env, par.n_phe), false) {
            return Err(ParamsError::ProbRep(e));
        }
        if let Err(e) = check_mat(&par.prob_dec, (par.n_env, par.n_phe), false) {
            return Err(ParamsError::ProbDec(e));
        }
        if let Err(e) = check_num(par.n_agt_init as u64, NumRange::half_open(1, 100_000)) {
            return Err(ParamsError::NumAgtInit(e));
        }
        if let Err(e) = check_num(par.std_dev_mut, NumRange::half_open(0, UNIT)) {
            return Err(ParamsError::StdDevMut(e));
        }
        if let Err(e) = check_num(par.steps_per_save as u64, NumRange::half_open(1, 10_000)) {
            return Err(ParamsError::StepsPerSave(e));
        }
        if let Err(e) = check_num(par.saves_per_file as u64, NumRange::half_open(1, 10_000)) {
            return Err(ParamsError::SavesPerFile(e));
        }
        Ok(par)
    }
}

} // verus!
