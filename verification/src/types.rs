//! The data of a simulation: agents, the population state, events.

use crate::analysis::Observables;
use crate::mutation::{mutate_strategy, mutated, mutation_verdict, MutationError};
use crate::units::{check_prob_vec, is_prob_vec};
use vstd::prelude::*;

verus! {

/// What an agent is, as mathematics: its phenotype and its strategy, the
/// distribution from which the phenotypes of its offspring are drawn.
pub struct AgentView {
    pub phe: nat,
    pub strat: Seq<u64>,
}

impl AgentView {
    /// The agent born of this one with phenotype `phe`.
    pub open spec fn offspring(self, phe: nat, mutate: bool, noise: Seq<u64>) -> AgentView {
        AgentView {
            phe,
            strat: if mutate {
                mutated(self.strat, noise)
            } else {
                self.strat
            },
        }
    }

    /// The agent fits a model with `n_phe` phenotypes, and its strategy is a
    /// probability vector.
    pub open spec fn valid(self, n_phe: nat) -> bool {
        &&& self.phe < n_phe
        &&& self.strat.len() == n_phe
        &&& is_prob_vec(self.strat)
    }
}

/// Agent of the simulation.
#[derive(Debug, PartialEq, Eq)]
pub struct Agent {
    /// Phenotype.
    phe: usize,
    /// Phenotypic strategy.
    strat_phe: Vec<u64>,
}

impl View for Agent {
    type V = AgentView;

    closed spec fn view(&self) -> AgentView {
        AgentView { phe: self.phe as nat, strat: self.strat_phe@ }
    }
}

impl Clone for Agent {
    fn clone(&self) -> (r: Self)
        ensures
            r@ == self@,
    {
        let strat_phe = self.strat_phe.clone();
        assert(strat_phe@ =~= self.strat_phe@);
        Agent { phe: self.phe, strat_phe }
    }
}

impl Agent {
    /// Create a new agent with a given phenotype and phenotypic strategy.
    pub fn new(phe: usize, strat_phe: Vec<u64>) -> (r: Self)
        ensures
            r@ == (AgentView { phe: phe as nat, strat: strat_phe@ }),
    {
        Self { phe, strat_phe }
    }

    /// Get the current phenotype of the agent.
    pub fn phe(&self) -> (r: usize)
        ensures
            r == self@.phe,
    {
        self.phe
    }

    /// Get the current phenotypic strategy of the agent.
    pub fn strat_phe(&self) -> (r: &Vec<u64>)
        ensures
            r@ == self@.strat,
    {
        &self.strat_phe
    }

    /// Get the probability distribution from which the phenotypes of the
    /// agent's offspring are drawn: its phenotypic strategy.
    pub fn prob_phe(&self) -> (r: &Vec<u64>)
        ensures
            r@ == self@.strat,
    {
        &self.strat_phe
    }

    /// The agent born of this one with phenotype `phe`: it has the strategy
    /// of its parent, or that strategy mutated with `noise`.
    pub fn offspring(&self, phe: usize, mutate: bool, noise: &Vec<u64>) -> (r: Result<
        Agent,
        MutationError,
    >)
        ensures
            match r {
                Ok(child) => child@ == self@.offspring(phe as nat, mutate, noise@) && (mutate
                    ==> mutation_verdict(self@.strat, noise@) is None),
                Err(e) => mutate && mutation_verdict(self@.strat, noise@) == Some(e),
            },
    {
        if mutate {
            match mutate_strategy(&self.strat_phe, noise) {
                Ok(strat_phe) => Ok(Agent { phe, strat_phe }),
                Err(e) => Err(e),
            }
        } else {
            let strat_phe = self.strat_phe.clone();
            assert(strat_phe@ =~= self.strat_phe@);
            Ok(Agent { phe, strat_phe })
        }
    }

    /// Tells whether the agent fits a model with `n_phe` phenotypes.
    pub fn is_valid(&self, n_phe: usize) -> (r: bool)
        ensures
            r == self@.valid(n_phe as nat),
    {
        self.phe < n_phe && self.strat_phe.len() == n_phe && check_prob_vec(&self.strat_phe)
    }
}

/// The agents of a population, as mathematics.
pub open spec fn agents_view(agents: Seq<Agent>) -> Seq<AgentView> {
    Seq::new(agents.len(), |i: int| agents[i]@)
}

/// What a state is, as mathematics.
pub struct StateView {
    pub env: nat,
    pub agents: Seq<AgentView>,
}

impl StateView {
    /// The state fits a model with `n_env` environments and `n_phe`
    /// phenotypes: every agent is valid.
    pub open spec fn valid(self, n_env: nat, n_phe: nat) -> bool {
        &&& self.env < n_env
        &&& forall|i: int| 0 <= i < self.agents.len() ==> (#[trigger] self.agents[i]).valid(n_phe)
    }
}

/// State of the simulation at a certain step.
#[derive(Debug, PartialEq, Eq)]
pub struct State {
    /// Current environment index.
    pub env: usize,
    /// Vector of agents currently in the simulation.
    pub agents: Vec<Agent>,
}

impl View for State {
    type V = StateView;

    open spec fn view(&self) -> StateView {
        StateView { env: self.env as nat, agents: agents_view(self.agents@) }
    }
}

impl Clone for State {
    fn clone(&self) -> (r: Self)
        ensures
            r@ == self@,
    {
        let mut agents: Vec<Agent> = Vec::with_capacity(self.agents.len());
        let mut i: usize = 0;
        while i < self.agents.len()
            invariant
                i <= self.agents@.len(),
                agents@.len() == i,
                forall|j: int| 0 <= j < i ==> (#[trigger] agents@[j])@ == self.agents@[j]@,
            decreases self.agents@.len() - i,
        {
            agents.push(self.agents[i].clone());
            i = i + 1;
        }
        let r = State { env: self.env, agents };
        assert(r@.agents =~= self@.agents);
        r
    }
}

impl State {
    /// Tells whether the state fits a model with `n_env` environments and
    /// `n_phe` phenotypes.
    pub fn is_valid(&self, n_env: usize, n_phe: usize) -> (r: bool)
        ensures
            r == self@.valid(n_env as nat, n_phe as nat),
    {
        if self.env >= n_env {
            return false;
        }
        let mut i: usize = 0;
        while i < self.agents.len()
            invariant
                i <= self.agents.len(),
                forall|j: int| 0 <= j < i ==> (#[trigger] self@.agents[j]).valid(n_phe as nat),
            decreases self.agents.len() - i,
        {
            if !self.agents[i].is_valid(n_phe) {
                assert(!self@.agents[i as int].valid(n_phe as nat));
                return false;
            }
            i = i + 1;
        }
        true
    }
}

/// Single simulation event.
#[derive(Clone, Copy, Debug, PartialEq, Eq, Structural)]
pub enum Event {
    /// Agent replication event.
    Replication { agent_idx: usize },
    /// Agent death event.
    Death { agent_idx: usize },
    /// Environment transition event.
    EnvTrans { next_env: usize },
}

/// Record of a single simulation step.
#[derive(Debug, PartialEq, Eq)]
pub struct Record {
    /// Previous number of agents.
    pub prev_n_agents: usize,
    /// Sum of the rates of all events that could happen: the time to the
    /// event is exponentially distributed with this rate.
    pub total_rate: u64,
    /// The event that happened.
    pub event: Event,
    /// What the step shows of the population, where the step is one of
    /// those that are saved.
    pub observables: Option<Observables>,
}

} // verus!
