//! Simulation engine.

use crate::analysis::{calc_observables, observes};
use crate::config::{Config, ConfigError};
use crate::mutation::{
    lemma_mutated_is_normalized, lemma_weight_sum_monotonic, mutation_verdict, weight,
    weight_sum, weight_total,
};
use crate::population::{cull, lemma_sorted_distinct, picked, sort_descending};
use crate::random::{
    build_sampler, choose_indices, index_weights, random_below, random_ratio, sample_index,
    total_weight, weights_verdict, WeightError,
};
use crate::types::{Agent, AgentView, Event, Record, State, StateView};
use crate::units::{is_prob_vec, lemma_total_positive, total, TOLERANCE, UNIT};
use crate::utils::matrix;
use rand_chacha::ChaCha12Rng;
use vstd::prelude::*;

verus! {

/// What an event pool holds, as mathematics: two sequences side by side.
pub struct PoolView {
    pub events: Seq<Event>,
    pub rates: Seq<u64>,
}

impl PoolView {
    /// The pool without events.
    pub open spec fn empty() -> Self {
        PoolView { events: Seq::empty(), rates: Seq::empty() }
    }

    /// The pool with one more event at its end.
    pub open spec fn push(self, event: Event, rate: u64) -> Self {
        PoolView { events: self.events.push(event), rates: self.rates.push(rate) }
    }

    /// The events of one pool followed by those of another.
    pub open spec fn concat(self, other: Self) -> Self {
        PoolView { events: self.events + other.events, rates: self.rates + other.rates }
    }
}

/// Collection of all possible events and their associated rates at a certain step.
pub struct EventPool {
    /// Vector of possible events.
    events: Vec<Event>,
    /// Vector of associated rates.
    rates: Vec<u64>,
}

impl View for EventPool {
    type V = PoolView;

    closed spec fn view(&self) -> PoolView {
        PoolView { events: self.events@, rates: self.rates@ }
    }
}

impl Default for EventPool {
    fn default() -> (r: Self)
        ensures
            r@ == PoolView::empty(),
    {
        EventPool { events: Vec::new(), rates: Vec::new() }
    }
}

impl EventPool {
    /// Clear the event pool.
    pub fn clear(&mut self)
        ensures
            final(self)@ == PoolView::empty(),
    {
        self.events.clear();
        self.rates.clear();
    }

    /// Add to the pool a new event with its associated rate.
    pub fn push(&mut self, event: Event, rate: u64)
        ensures
            final(self)@ == old(self)@.push(event, rate),
    {
        self.events.push(event);
        self.rates.push(rate);
    }

    /// Get all events in the pool.
    pub fn events(&self) -> (r: &[Event])
        ensures
            r@ == self@.events,
    {
        self.events.as_slice()
    }

    /// Get all rates in the pool.
    pub fn rates(&self) -> (r: &[u64])
        ensures
            r@ == self@.rates,
    {
        self.rates.as_slice()
    }
}

/// The transitions out of environment `env` into the environments below
/// `k`, each with its rate from the row `rates` of the transition matrix.
pub open spec fn trans_pool(rates: Seq<u64>, env: nat, k: nat) -> PoolView
    decreases k,
{
    if k == 0 {
        PoolView::empty()
    } else {
        let next_env = (k - 1) as nat;
        let rest = trans_pool(rates, env, next_env);
        if next_env != env {
            rest.push(Event::EnvTrans { next_env: next_env as usize }, rates[next_env as int])
        } else {
            rest
        }
    }
}

/// The replication and the death of each of the first `k` agents, each with
/// the rate of the agent's phenotype.
pub open spec fn agent_pool(rep: Seq<u64>, dec: Seq<u64>, agents: Seq<AgentView>, k: nat) -> PoolView
    decreases k,
{
    if k == 0 {
        PoolView::empty()
    } else {
        let agent_idx = (k - 1) as nat;
        let phe = agents[agent_idx as int].phe as int;
        agent_pool(rep, dec, agents, agent_idx).push(
            Event::Replication { agent_idx: agent_idx as usize },
            rep[phe],
        ).push(Event::Death { agent_idx: agent_idx as usize }, dec[phe])
    }
}

/// The events that can happen next in a state, with their rates: a
/// transition into every other environment, then the replication and the
/// death of every agent.
pub open spec fn event_pool(cfg: Config, state: StateView) -> PoolView {
    let env = state.env as int;
    trans_pool(matrix(cfg.model.rates_trans_env@)[env], state.env, cfg.model.n_env as nat).concat(
        agent_pool(
            matrix(cfg.model.rates_rep@)[env],
            matrix(cfg.model.rates_dec@)[env],
            state.agents,
            state.agents.len(),
        ),
    )
}

/// An event can happen in a population of `n_agents` agents in environment
/// `env` out of `n_env`.
pub open spec fn event_fits(event: Event, n_env: nat, env: nat, n_agents: nat) -> bool {
    match event {
        Event::Replication { agent_idx } => agent_idx < n_agents,
        Event::Death { agent_idx } => agent_idx < n_agents,
        Event::EnvTrans { next_env } => next_env < n_env && next_env != env,
    }
}

/// Every transition of the pool leads to another environment.
pub proof fn lemma_trans_pool_fits(rates: Seq<u64>, env: nat, k: nat, n_agents: nat)
    requires
        k <= usize::MAX,
    ensures
        trans_pool(rates, env, k).events.len() == trans_pool(rates, env, k).rates.len(),
        trans_pool(rates, env, k).events.len() <= k,
        forall|i: int|
            0 <= i < trans_pool(rates, env, k).events.len() ==> event_fits(
                #[trigger] trans_pool(rates, env, k).events[i],
                k,
                env,
                n_agents,
            ),
    decreases k,
{
    if k > 0 {
        lemma_trans_pool_fits(rates, env, (k - 1) as nat, n_agents);
        let rest = trans_pool(rates, env, (k - 1) as nat);
        assert forall|i: int| 0 <= i < trans_pool(rates, env, k).events.len() implies event_fits(
            #[trigger] trans_pool(rates, env, k).events[i],
            k,
            env,
            n_agents,
        ) by {
            if i < rest.events.len() {
                assert(event_fits(rest.events[i], (k - 1) as nat, env, n_agents));
            }
        }
    }
}

/// The pool of the agents holds two events for each agent, of that agent.
pub proof fn lemma_agent_pool_shape(rep: Seq<u64>, dec: Seq<u64>, agents: Seq<AgentView>, k: nat)
    requires
        k <= usize::MAX,
    ensures
        agent_pool(rep, dec, agents, k).events.len() == 2 * k,
        agent_pool(rep, dec, agents, k).rates.len() == 2 * k,
        forall|i: int|
            0 <= i < k ==> {
                &&& #[trigger] agent_pool(rep, dec, agents, k).events[2 * i]
                    == (Event::Replication { agent_idx: i as usize })
                &&& agent_pool(rep, dec, agents, k).events[2 * i + 1] == (Event::Death {
                    agent_idx: i as usize,
                })
                &&& agent_pool(rep, dec, agents, k).rates[2 * i] == rep[agents[i].phe as int]
                &&& agent_pool(rep, dec, agents, k).rates[2 * i + 1] == dec[agents[i].phe as int]
            },
    decreases k,
{
    if k > 0 {
        lemma_agent_pool_shape(rep, dec, agents, (k - 1) as nat);
    }
}

/// The pool holds a transition into each environment but the one the state
/// is in.
pub proof fn lemma_trans_pool_len(rates: Seq<u64>, env: nat, k: nat)
    ensures
        trans_pool(rates, env, k).events.len() == if env < k {
            k - 1
        } else {
            k as int
        },
        trans_pool(rates, env, k).rates.len() == trans_pool(rates, env, k).events.len(),
    decreases k,
{
    if k > 0 {
        lemma_trans_pool_len(rates, env, (k - 1) as nat);
    }
}

/// The pool of a state holds one event for each environment but the one
/// the state is in, and two for each agent.
pub proof fn lemma_event_pool_len(cfg: Config, state: StateView)
    requires
        state.env < cfg.model.n_env,
        state.agents.len() <= usize::MAX,
    ensures
        event_pool(cfg, state).events.len() == cfg.model.n_env - 1 + 2 * state.agents.len(),
        event_pool(cfg, state).rates.len() == event_pool(cfg, state).events.len(),
{
    let env = state.env as int;
    lemma_trans_pool_len(matrix(cfg.model.rates_trans_env@)[env], state.env, cfg.model.n_env as nat);
    lemma_agent_pool_shape(
        matrix(cfg.model.rates_rep@)[env],
        matrix(cfg.model.rates_dec@)[env],
        state.agents,
        state.agents.len(),
    );
}

/// Every event of the pool of a state can happen in that state.
pub proof fn lemma_event_pool_fits(cfg: Config, state: StateView)
    requires
        cfg.model.n_env <= usize::MAX,
        state.agents.len() <= usize::MAX,
    ensures
        event_pool(cfg, state).events.len() == event_pool(cfg, state).rates.len(),
        forall|i: int|
            0 <= i < event_pool(cfg, state).events.len() ==> event_fits(
                #[trigger] event_pool(cfg, state).events[i],
                cfg.model.n_env as nat,
                state.env,
                state.agents.len(),
            ),
{
    let env = state.env as int;
    let n = state.agents.len();
    let rep = matrix(cfg.model.rates_rep@)[env];
    let dec = matrix(cfg.model.rates_dec@)[env];
    let trans = trans_pool(matrix(cfg.model.rates_trans_env@)[env], state.env, cfg.model.n_env as nat);
    let births = agent_pool(rep, dec, state.agents, n);
    lemma_trans_pool_fits(matrix(cfg.model.rates_trans_env@)[env], state.env, cfg.model.n_env as nat, n);
    lemma_agent_pool_shape(rep, dec, state.agents, n);
    let pool = event_pool(cfg, state);
    assert forall|i: int| 0 <= i < pool.events.len() implies event_fits(
        #[trigger] pool.events[i],
        cfg.model.n_env as nat,
        state.env,
        n,
    ) by {
        if i < trans.events.len() {
            assert(pool.events[i] == trans.events[i]);
        } else {
            let j = i - trans.events.len();
            assert(pool.events[i] == births.events[j]);
            let a = j / 2;
            assert(j == 2 * a || j == 2 * a + 1);
            assert(births.events[2 * a] == (Event::Replication { agent_idx: a as usize }));
        }
    }
}

/// One noise factor for each of `n_phe` phenotypes, none of them zero.
pub open spec fn noise_fits(noise: Seq<u64>, n_phe: nat) -> bool {
    &&& noise.len() == n_phe
    &&& forall|i: int| 0 <= i < noise.len() ==> noise[i] > 0
}

/// Why a step cannot be made.
#[derive(Clone, Copy, Debug, PartialEq, Eq, Structural)]
pub enum StepError {
    /// The noise does not hold one factor above zero for each phenotype.
    Noise,
    /// No event can be drawn from the rates of the events.
    Rates(WeightError),
}

/// What an engine is, as mathematics.
pub struct EngineView {
    pub cfg: Config,
    pub rng: ChaCha12Rng,
    pub step: nat,
    pub state: StateView,
    pub n_extinct: nat,
}

impl EngineView {
    /// The configuration is valid, the state fits it, the population has its
    /// configured size, and no more extinctions than steps have happened.
    pub open spec fn wf(self) -> bool {
        &&& self.cfg.valid()
        &&& self.state.valid(self.cfg.model.n_env as nat, self.cfg.model.n_phe as nat)
        &&& self.state.agents.len() == self.cfg.init.n_agt
        &&& self.n_extinct <= self.step
    }

    /// The events that can happen next, with their rates.
    pub open spec fn pool(self) -> PoolView {
        event_pool(self.cfg, self.state)
    }

    /// Why no step can be made with the given noise, if none can.
    pub open spec fn step_verdict(self, noise: Seq<u64>) -> Option<StepError> {
        if !noise_fits(noise, self.cfg.model.n_phe as nat) {
            Some(StepError::Noise)
        } else if weights_verdict(self.pool().rates) is Some {
            Some(StepError::Rates(weights_verdict(self.pool().rates)->0))
        } else {
            None
        }
    }

    /// The step is one of those whose observables are saved.
    pub open spec fn saves(self) -> bool {
        self.step % (self.cfg.output.steps_per_save as nat) == 0
    }

    /// The event makes the population extinct.
    pub open spec fn dies_out(self, event: Event) -> bool {
        event is Death && self.state.agents.len() == 1
    }
}

/// Simulation engine.
///
/// Holds the configuration, a random number generator and the current step and state.
pub struct Engine {
    /// Simulation configuration parameters.
    cfg: Config,
    /// Random number generator.
    rng: ChaCha12Rng,
    /// Current simulation step.
    step: usize,
    /// Current simulation state.
    state: State,
    /// Number of extinctions so far.
    n_extinct: usize,
}

impl View for Engine {
    type V = EngineView;

    closed spec fn view(&self) -> EngineView {
        EngineView {
            cfg: self.cfg,
            rng: self.rng,
            step: self.step as nat,
            state: self.state@,
            n_extinct: self.n_extinct as nat,
        }
    }
}

/// At every step of a well-formed engine the population has its configured
/// size, and the strategy of every agent is a probability vector: its
/// components, none of them negative, sum to one within the tolerance.
pub proof fn lemma_population_invariant(engine: EngineView)
    requires
        engine.wf(),
    ensures
        engine.state.agents.len() == engine.cfg.init.n_agt,
        engine.state.agents.len() >= 1,
        forall|i: int|
            0 <= i < engine.state.agents.len() ==> {
                &&& (#[trigger] engine.state.agents[i]).strat.len() == engine.cfg.model.n_phe
                &&& UNIT - TOLERANCE <= total(engine.state.agents[i].strat) <= UNIT + TOLERANCE
                &&& forall|p: int|
                    0 <= p < engine.state.agents[i].strat.len() ==> 0 <= (
                    #[trigger] engine.state.agents[i].strat[p]) <= UNIT + TOLERANCE
            },
{
    assert forall|i: int| 0 <= i < engine.state.agents.len() implies {
        &&& (#[trigger] engine.state.agents[i]).strat.len() == engine.cfg.model.n_phe
        &&& UNIT - TOLERANCE <= total(engine.state.agents[i].strat) <= UNIT + TOLERANCE
        &&& forall|p: int|
            0 <= p < engine.state.agents[i].strat.len() ==> 0 <= (
            #[trigger] engine.state.agents[i].strat[p]) <= UNIT + TOLERANCE
    } by {
        let agent = engine.state.agents[i];
        assert(agent.valid(engine.cfg.model.n_phe as nat));
        assert forall|p: int| 0 <= p < agent.strat.len() implies 0 <= (#[trigger] agent.strat[p])
            <= UNIT + TOLERANCE by {
            crate::units::lemma_total_ge_each(agent.strat, p);
        }
    }
}

/// A sampler can be built from a strategy.
pub proof fn lemma_strategy_samples(strat: Seq<u64>)
    requires
        is_prob_vec(strat),
    ensures
        weights_verdict(strat) is None,
{
}

/// A strategy can be mutated with noise that fits it.
pub proof fn lemma_mutation_succeeds(strat: Seq<u64>, noise: Seq<u64>)
    requires
        is_prob_vec(strat),
        noise_fits(noise, strat.len()),
    ensures
        mutation_verdict(strat, noise) is None,
        is_prob_vec(crate::mutation::mutated(strat, noise)),
        crate::mutation::mutated(strat, noise).len() == strat.len(),
{
    lemma_total_positive(strat);
    let i = choose|i: int| 0 <= i < strat.len() && strat[i] > 0;
    assert(weight(strat, noise, i) > 0) by (nonlinear_arith)
        requires
            strat[i] > 0,
            noise[i] > 0,
            weight(strat, noise, i) == strat[i] * noise[i],
    ;
    lemma_weight_sum_monotonic(strat, noise, (i + 1) as nat, strat.len());
    lemma_weight_total_bound(strat, noise, strat.len());
    assert(strat.take(strat.len() as int) =~= strat);
    let t = weight_total(strat, noise);
    assert(t * UNIT <= u128::MAX) by (nonlinear_arith)
        requires
            t <= (UNIT + TOLERANCE) * u64::MAX,
            u64::MAX == 0xffff_ffff_ffff_ffff,
            u128::MAX == 0xffff_ffff_ffff_ffff_ffff_ffff_ffff_ffff,
            UNIT == 1_000_000_000,
            TOLERANCE == 10,
    ;
    lemma_mutated_is_normalized(strat, noise);
}

/// The first `k` weights sum to no more than the first `k` components times
/// the largest noise factor.
pub proof fn lemma_weight_total_bound(strat: Seq<u64>, noise: Seq<u64>, k: nat)
    requires
        k <= strat.len(),
    ensures
        weight_sum(strat, noise, k) <= total(strat.take(k as int)) * u64::MAX,
    decreases k,
{
    if k > 0 {
        lemma_weight_total_bound(strat, noise, (k - 1) as nat);
        assert(strat.take(k as int).drop_last() =~= strat.take(k - 1));
        let a = total(strat.take(k - 1)) as int;
        let s = strat[k - 1] as int;
        let f = noise[k - 1] as int;
        assert(a * u64::MAX + s * f <= (a + s) * u64::MAX) by (nonlinear_arith)
            requires
                0 <= s,
                0 <= f <= u64::MAX,
        ;
    } else {
        assert(total(strat.take(0)) * u64::MAX == 0) by (nonlinear_arith)
            requires
                total(strat.take(0)) == 0,
        ;
    }
}

impl Engine {
    /// Create a new `Engine` with the given configuration and random source,
    /// and a random initial state.
    pub fn new(cfg: Config, rng: ChaCha12Rng) -> (r: Result<Self, ConfigError>)
        ensures
            match r {
                Ok(engine) => {
                    &&& cfg.valid()
                    &&& engine@.cfg == cfg
                    &&& engine@.wf()
                    &&& engine@.step == 0
                    &&& engine@.n_extinct == 0
                    &&& forall|i: int|
                        0 <= i < engine@.state.agents.len() ==> {
                            &&& (#[trigger] engine@.state.agents[i]).strat == cfg.init.strat_phe@
                            &&& cfg.init.strat_phe@[engine@.state.agents[i].phe as int] > 0
                        }
                },
                Err(e) => cfg.verdict() == Some(e),
            },
    {
        match cfg.validate() {
            Ok(()) => {},
            Err(e) => {
                return Err(e);
            },
        }
        let mut rng = rng;
        let env = random_below(&mut rng, cfg.model.n_env);
        let agents = Engine::generate_random_agents(&cfg, &mut rng);
        Ok(Self { cfg, rng, step: 0, state: State { env, agents }, n_extinct: 0 })
    }

    /// Put an engine together from its parts, as they were taken apart by
    /// [`Engine::into_parts`]. The parts are returned where they do not make
    /// a well-formed engine.
    pub fn from_parts(
        cfg: Config,
        rng: ChaCha12Rng,
        step: usize,
        state: State,
        n_extinct: usize,
    ) -> (r: Option<Self>)
        ensures
            match r {
                Some(engine) => {
                    &&& engine@ == (EngineView {
                        cfg,
                        rng,
                        step: step as nat,
                        state: state@,
                        n_extinct: n_extinct as nat,
                    })
                    &&& engine@.wf()
                },
                None => !(EngineView {
                    cfg,
                    rng,
                    step: step as nat,
                    state: state@,
                    n_extinct: n_extinct as nat,
                }).wf(),
            },
    {
        if cfg.validate().is_err() {
            return None;
        }
        if !state.is_valid(cfg.model.n_env, cfg.model.n_phe) {
            return None;
        }
        if state.agents.len() != cfg.init.n_agt || n_extinct > step {
            return None;
        }
        Some(Self { cfg, rng, step, state, n_extinct })
    }

    /// Take the engine apart: configuration, random source, step, state and
    /// number of extinctions.
    pub fn into_parts(self) -> (r: (Config, ChaCha12Rng, usize, State, usize))
        ensures
            r.0 == self@.cfg,
            r.1 == self@.rng,
            r.2 == self@.step,
            r.3@ == self@.state,
            r.4 == self@.n_extinct,
    {
        (self.cfg, self.rng, self.step, self.state, self.n_extinct)
    }

    /// Simulation configuration parameters.
    pub fn cfg(&self) -> (r: &Config)
        ensures
            *r == self@.cfg,
    {
        &self.cfg
    }

    /// Current simulation step.
    pub fn step(&self) -> (r: usize)
        ensures
            r == self@.step,
    {
        self.step
    }

    /// Current simulation state.
    pub fn state(&self) -> (r: &State)
        ensures
            r@ == self@.state,
    {
        &self.state
    }

    /// Number of extinctions so far.
    pub fn n_extinct(&self) -> (r: usize)
        ensures
            r == self@.n_extinct,
    {
        self.n_extinct
    }

    /// The random number generator.
    pub fn rng(&self) -> (r: &ChaCha12Rng)
        ensures
            *r == self@.rng,
    {
        &self.rng
    }

    /// The random number generator, for draws that the engine does not make
    /// itself: they change the generator, and nothing else of the engine.
    pub fn rng_mut(&mut self) -> (r: &mut ChaCha12Rng)
        ensures
            *r == old(self)@.rng,
            final(self)@ == (EngineView { rng: *final(r), ..old(self)@ }),
    {
        &mut self.rng
    }

    /// Generate random vector of agents: each with the initial strategy, and
    /// with a phenotype drawn from it.
    fn generate_random_agents(cfg: &Config, rng: &mut ChaCha12Rng) -> (r: Vec<Agent>)
        requires
            cfg.valid(),
        ensures
            r@.len() == cfg.init.n_agt,
            forall|i: int|
                0 <= i < r@.len() ==> {
                    &&& (#[trigger] r@[i])@.valid(cfg.model.n_phe as nat)
                    &&& r@[i]@.strat == cfg.init.strat_phe@
                    &&& cfg.init.strat_phe@[r@[i]@.phe as int] > 0
                },
    {
        let mut agents: Vec<Agent> = Vec::with_capacity(cfg.init.n_agt);
        match build_sampler(&cfg.init.strat_phe) {
            Ok(phe_dist) => {
                let mut i: usize = 0;
                while i < cfg.init.n_agt
                    invariant
                        i <= cfg.init.n_agt,
                        cfg.valid(),
                        index_weights(phe_dist) == cfg.init.strat_phe@,
                        agents@.len() == i,
                        forall|j: int|
                            0 <= j < agents@.len() ==> {
                                &&& (#[trigger] agents@[j])@.valid(cfg.model.n_phe as nat)
                                &&& agents@[j]@.strat == cfg.init.strat_phe@
                                &&& cfg.init.strat_phe@[agents@[j]@.phe as int] > 0
                            },
                    decreases cfg.init.n_agt - i,
                {
                    let phe = sample_index(&phe_dist, rng);
                    let strat_phe = cfg.init.strat_phe.clone();
                    assert(strat_phe@ =~= cfg.init.strat_phe@);
                    agents.push(Agent::new(phe, strat_phe));
                    i = i + 1;
                }
            },
            Err(_) => {
                assert(false);
            },
        }
        agents
    }

    /// Update the event pool based on the configuration and current state.
    fn update_event_pool(&self, event_pool: &mut EventPool)
        requires
            self@.cfg.valid(),
            self@.state.valid(self@.cfg.model.n_env as nat, self@.cfg.model.n_phe as nat),
        ensures
            final(event_pool)@ == self@.pool(),
    {
        event_pool.clear();
        let env = self.state.env;
        let n_env = self.cfg.model.n_env;
        let n_phe = self.cfg.model.n_phe;
        let ghost trans = matrix(self.cfg.model.rates_trans_env@)[env as int];
        let ghost rep = matrix(self.cfg.model.rates_rep@)[env as int];
        let ghost dec = matrix(self.cfg.model.rates_dec@)[env as int];
        let ghost agents = self.state@.agents;
        assert(matrix(self.cfg.model.rates_trans_env@)[env as int].len() == n_env);
        assert(matrix(self.cfg.model.rates_rep@)[env as int].len() == n_phe);
        assert(matrix(self.cfg.model.rates_dec@)[env as int].len() == n_phe);

        let rates_trans = &self.cfg.model.rates_trans_env[env];
        let mut next_env: usize = 0;
        while next_env < n_env
            invariant
                next_env <= n_env,
                rates_trans@ == trans,
                trans.len() == n_env,
                event_pool@ == trans_pool(trans, env as nat, next_env as nat),
            decreases n_env - next_env,
        {
            if next_env != env {
                event_pool.push(Event::EnvTrans { next_env }, rates_trans[next_env]);
            }
            next_env = next_env + 1;
        }

        let rates_rep = &self.cfg.model.rates_rep[env];
        let rates_dec = &self.cfg.model.rates_dec[env];
        let ghost first = event_pool@;
        let n_agents = self.state.agents.len();
        let mut agent_idx: usize = 0;
        assert(first.concat(PoolView::empty()) =~= first) by {
            assert(first.events + Seq::<Event>::empty() =~= first.events);
            assert(first.rates + Seq::<u64>::empty() =~= first.rates);
        }
        while agent_idx < n_agents
            invariant
                agent_idx <= n_agents == self.state.agents@.len() == agents.len(),
                agents == self.state@.agents,
                forall|i: int| 0 <= i < agents.len() ==> (#[trigger] agents[i]).valid(n_phe as nat),
                rates_rep@ == rep,
                rates_dec@ == dec,
                rep.len() == n_phe,
                dec.len() == n_phe,
                event_pool@ == first.concat(agent_pool(rep, dec, agents, agent_idx as nat)),
            decreases n_agents - agent_idx,
        {
            let phe = self.state.agents[agent_idx].phe();
            assert(agents[agent_idx as int] == self.state.agents@[agent_idx as int]@);
            assert(agents[agent_idx as int].valid(n_phe as nat));
            let ghost before = agent_pool(rep, dec, agents, agent_idx as nat);
            event_pool.push(Event::Replication { agent_idx }, rates_rep[phe]);
            event_pool.push(Event::Death { agent_idx }, rates_dec[phe]);
            proof {
                let after = agent_pool(rep, dec, agents, (agent_idx + 1) as nat);
                assert(after == before.push(
                    Event::Replication { agent_idx },
                    rep[phe as int],
                ).push(Event::Death { agent_idx }, dec[phe as int]));
                assert(first.concat(after).events =~= first.concat(before).events.push(
                    Event::Replication { agent_idx },
                ).push(Event::Death { agent_idx }));
                assert(first.concat(after).rates =~= first.concat(before).rates.push(
                    rep[phe as int],
                ).push(dec[phe as int]));
            }
            agent_idx = agent_idx + 1;
        }
    }

    /// Replicate agent: create a new agent with a new phenotype and phenotypic strategy.
    ///
    /// The phenotype is drawn from the strategy of the parent. With the
    /// configured probability the strategy of the parent is mutated with the
    /// noise, else it is inherited as it is.
    fn replicate_agent(&mut self, agent_idx: usize, noise: &Vec<u64>)
        requires
            old(self)@.cfg.valid(),
            old(self)@.state.valid(
                old(self)@.cfg.model.n_env as nat,
                old(self)@.cfg.model.n_phe as nat,
            ),
            agent_idx < old(self)@.state.agents.len(),
            noise_fits(noise@, old(self)@.cfg.model.n_phe as nat),
        ensures
            final(self)@.cfg == old(self)@.cfg,
            final(self)@.step == old(self)@.step,
            final(self)@.n_extinct == old(self)@.n_extinct,
            final(self)@.state.env == old(self)@.state.env,
            final(self)@.state.agents.len() == old(self)@.state.agents.len() + 1,
            final(self)@.state.agents.drop_last() == old(self)@.state.agents,
            born_of(
                final(self)@.state.agents.last(),
                old(self)@.state.agents[agent_idx as int],
                noise@,
                old(self)@.cfg.model.prob_mut,
            ),
            final(self)@.state.agents.last().valid(old(self)@.cfg.model.n_phe as nat),
    {
        let ghost before = self.state@.agents;
        let ghost n_phe = self.cfg.model.n_phe as nat;
        let parent = &self.state.agents[agent_idx];
        assert(before[agent_idx as int] == parent@);
        assert(parent@.valid(n_phe));
        proof {
            lemma_strategy_samples(parent@.strat);
            lemma_mutation_succeeds(parent@.strat, noise@);
        }
        let phe_new = match build_sampler(parent.strat_phe()) {
            Ok(phe_dist) => sample_index(&phe_dist, &mut self.rng),
            Err(_) => {
                assert(false);
                0
            },
        };
        let mutate = random_ratio(&mut self.rng, self.cfg.model.prob_mut as u32, UNIT as u32);
        match parent.offspring(phe_new, mutate, noise) {
            Ok(child) => {
                self.state.agents.push(child);
                assert(self.state@.agents.drop_last() =~= before);
            },
            Err(_) => {
                assert(false);
            },
        }
    }

    /// Normalize population size: an empty population is replaced by a new
    /// random one, a population above its configured size loses agents
    /// chosen at random, and one below it gains copies of agents chosen at
    /// random.
    fn normalize_population(&mut self)
        requires
            old(self)@.cfg.valid(),
            old(self)@.state.valid(
                old(self)@.cfg.model.n_env as nat,
                old(self)@.cfg.model.n_phe as nat,
            ),
        ensures
            final(self)@.cfg == old(self)@.cfg,
            final(self)@.step == old(self)@.step,
            final(self)@.n_extinct == old(self)@.n_extinct,
            final(self)@.state.env == old(self)@.state.env,
            final(self)@.state.valid(
                old(self)@.cfg.model.n_env as nat,
                old(self)@.cfg.model.n_phe as nat,
            ),
            final(self)@.state.agents.len() == old(self)@.cfg.init.n_agt,
            renewed(old(self)@.cfg, old(self)@.state.agents, final(self)@.state.agents),
    {
        let n_agt = self.state.agents.len();
        let target = self.cfg.init.n_agt;
        let ghost before = self.state@.agents;
        let ghost n_phe = self.cfg.model.n_phe as nat;
        if n_agt == 0 {
            // Extinction: generate a new random vector of agents.
            self.state.agents = Engine::generate_random_agents(&self.cfg, &mut self.rng);
        } else if n_agt > target {
            // Too many agents: randomly pick excess agents to delete.
            let chosen = choose_indices(&mut self.rng, n_agt, n_agt - target);
            // Sort in reverse to safely remove by index.
            let doomed = sort_descending(&chosen);
            proof {
                lemma_sorted_distinct(chosen@, doomed@, n_agt);
            }
            cull(&mut self.state.agents, &doomed);
            proof {
                lemma_culled_contained(
                    before,
                    self.state@.agents,
                    picked(before, doomed@).to_multiset(),
                );
                assert(self.state@.agents.to_multiset().subset_of(before.to_multiset())) by {
                    broadcast use vstd::multiset::group_multiset_axioms;

                }
                assert forall|i: int| 0 <= i < self.state@.agents.len() implies (
                #[trigger] self.state@.agents[i]).valid(n_phe) by {
                    let a = self.state@.agents[i];
                    assert(before.contains(a));
                    let j = choose|j: int| 0 <= j < before.len() && before[j] == a;
                    assert(before[j].valid(n_phe));
                }
            }
        } else {
            // Too few agents: copy randomly picked agents.
            while self.state.agents.len() < target
                invariant
                    0 < n_agt <= self.state.agents@.len() <= target,
                    before.len() == n_agt,
                    self.state@.agents.take(n_agt as int) == before,
                    forall|i: int|
                        0 <= i < self.state@.agents.len() ==> before.contains(
                            #[trigger] self.state@.agents[i],
                        ),
                    forall|i: int| 0 <= i < before.len() ==> (#[trigger] before[i]).valid(n_phe),
                    self.state.env == old(self).state.env,
                    self.cfg == old(self).cfg,
                    self.step == old(self).step,
                    self.n_extinct == old(self).n_extinct,
                decreases target - self.state.agents@.len(),
            {
                let ghost current = self.state@.agents;
                let i = random_below(&mut self.rng, self.state.agents.len());
                let copy = self.state.agents[i].clone();
                assert(copy@ == current[i as int]);
                self.state.agents.push(copy);
                proof {
                    assert(self.state@.agents =~= current.push(copy@));
                    assert(self.state@.agents.take(n_agt as int) =~= current.take(n_agt as int));
                    assert forall|k: int| 0 <= k < self.state@.agents.len() implies before.contains(
                        #[trigger] self.state@.agents[k],
                    ) by {
                        if k < current.len() {
                            assert(self.state@.agents[k] == current[k]);
                        } else {
                            assert(self.state@.agents[k] == current[i as int]);
                        }
                    }
                }
            }
            proof {
                assert(self.state@.agents.take(n_agt as int) == before);
                assert forall|i: int| 0 <= i < self.state@.agents.len() implies (
                #[trigger] self.state@.agents[i]).valid(n_phe) by {
                    let a = self.state@.agents[i];
                    assert(before.contains(a));
                    let j = choose|j: int| 0 <= j < before.len() && before[j] == a;
                    assert(before[j].valid(n_phe));
                }
                if n_agt == target {
                    assert(self.state@.agents =~= self.state@.agents.take(n_agt as int));
                }
            }
        }
    }

    /// Perform a single simulation step and return its record.
    ///
    /// An event is drawn with a chance proportional to its rate, the state is
    /// updated with it, and the population is brought back to its configured
    /// size. `noise` holds one factor for each phenotype, by which the
    /// strategy of a newborn agent is mutated where it is.
    pub fn perform_step(&mut self, event_pool: &mut EventPool, noise: &Vec<u64>) -> (r: Result<
        Record,
        StepError,
    >)
        requires
            old(self)@.wf(),
            old(self)@.step < usize::MAX,
        ensures
            final(self)@.cfg == old(self)@.cfg,
            match r {
                Ok(record) => {
                    &&& old(self)@.step_verdict(noise@) is None
                    &&& final(self)@.wf()
                    &&& final(self)@.step == old(self)@.step + 1
                    &&& final(self)@.n_extinct == old(self)@.n_extinct + if old(self)@.dies_out(
                        record.event,
                    ) {
                        1nat
                    } else {
                        0nat
                    }
                    &&& final(event_pool)@ == old(self)@.pool()
                    &&& drawn_from(record.event, old(self)@.pool())
                    &&& record.prev_n_agents == old(self)@.state.agents.len()
                    &&& record.total_rate == total(old(self)@.pool().rates)
                    &&& match record.observables {
                        Some(obs) => old(self)@.saves() && observes(
                            obs,
                            old(self)@.cfg.model.n_phe as nat,
                            old(self)@.state.agents,
                            record.event,
                            old(self)@.n_extinct as usize,
                        ),
                        None => !old(self)@.saves(),
                    }
                    &&& succeeds(old(self)@, record.event, noise@, final(self)@.state)
                },
                Err(e) => {
                    &&& old(self)@.step_verdict(noise@) == Some(e)
                    &&& final(self)@ == old(self)@
                    &&& final(event_pool)@ == if e == StepError::Noise {
                        old(event_pool)@
                    } else {
                        old(self)@.pool()
                    }
                },
            },
    {
        let ghost start = self@;
        let n_phe = self.cfg.model.n_phe;
        if !check_noise(noise, n_phe) {
            return Err(StepError::Noise);
        }
        // Create event distribution.
        self.update_event_pool(event_pool);
        proof {
            lemma_event_pool_fits(self.cfg, self.state@);
        }
        let event_dist = match build_sampler(&event_pool.rates) {
            Ok(event_dist) => event_dist,
            Err(e) => {
                return Err(StepError::Rates(e));
            },
        };

        // Select next simulation event.
        let k = sample_index(&event_dist, &mut self.rng);
        let event = event_pool.events[k];
        assert(event == start.pool().events[k as int]);
        assert(event_fits(
            event,
            self.cfg.model.n_env as nat,
            start.state.env,
            start.state.agents.len(),
        ));

        // The rate of the time to the next event.
        let total_rate = total_weight(&event_dist);

        // Calculate simulation observables.
        let prev_n_agents = self.state.agents.len();
        let observables = if self.step % self.cfg.output.steps_per_save == 0 {
            Some(calc_observables(&self.cfg, &self.state, &event, self.n_extinct))
        } else {
            None
        };

        // Update simulation state.
        match event {
            Event::EnvTrans { next_env } => {
                self.state.env = next_env;
            },
            Event::Replication { agent_idx } => {
                self.replicate_agent(agent_idx, noise);
            },
            Event::Death { agent_idx } => {
                self.state.agents.swap_remove(agent_idx);
                assert(self.state@.agents =~= start.state.agents.update(
                    agent_idx as int,
                    start.state.agents.last(),
                ).drop_last());
            },
        }
        let ghost applied = self.state@.agents;
        assert(forall|i: int|
            0 <= i < applied.len() ==> (#[trigger] applied[i]).valid(n_phe as nat)) by {
            assert forall|i: int| 0 <= i < applied.len() implies (#[trigger] applied[i]).valid(
                n_phe as nat,
            ) by {
                match event {
                    Event::EnvTrans { .. } => {},
                    Event::Replication { .. } => {
                        if i < start.state.agents.len() {
                            assert(applied[i] == applied.drop_last()[i]);
                        }
                    },
                    Event::Death { agent_idx } => {
                        if i == agent_idx {
                            assert(applied[i] == start.state.agents.last());
                        } else {
                            assert(applied[i] == start.state.agents[i]);
                        }
                    },
                }
            }
        }

        // Update number of extinctions so far.
        if self.state.agents.len() == 0 {
            self.n_extinct += 1;
        }

        // Normalize population size.
        self.normalize_population();

        // Increment simulation step.
        self.step += 1;

        proof {
            match event {
                Event::EnvTrans { .. } => {
                    assert(self@.state.agents =~= self@.state.agents.take(applied.len() as int));
                },
                Event::Death { agent_idx } => {
                    assert(applied == start.state.agents.update(
                        agent_idx as int,
                        start.state.agents.last(),
                    ).drop_last());
                },
                Event::Replication { agent_idx } => {
                    let child = applied.last();
                    assert(applied =~= start.state.agents.push(child));
                    assert(born_of(
                        child,
                        start.state.agents[agent_idx as int],
                        noise@,
                        start.cfg.model.prob_mut,
                    ));
                    assert(renewed(start.cfg, start.state.agents.push(child), self@.state.agents));
                },
            }
        }
        Ok(Record { prev_n_agents, total_rate, event, observables })
    }
}

/// An agent is born of a parent: its phenotype is one that the strategy of
/// the parent gives a chance, and its strategy is that of the parent or
/// that strategy mutated with the noise; never mutated where the
/// probability of mutation is zero, always where it is one.
pub open spec fn born_of(child: AgentView, parent: AgentView, noise: Seq<u64>, prob_mut: u64) -> bool {
    &&& child.phe < parent.strat.len()
    &&& parent.strat[child.phe as int] > 0
    &&& child.strat == parent.strat || child.strat == crate::mutation::mutated(
        parent.strat,
        noise,
    )
    &&& prob_mut == 0 ==> child.strat == parent.strat
    &&& prob_mut == UNIT ==> child.strat == crate::mutation::mutated(parent.strat, noise)
}

/// A population after it was brought back to its configured size. In place
/// of an empty population stands a new one: each agent has the initial
/// strategy, and a phenotype to which that strategy gives a chance. Else the
/// population holds agents of the population before and no others: all of
/// them, followed by copies of some, where there were too few; each of them
/// at most as often as before, where there were too many.
pub open spec fn renewed(cfg: Config, before: Seq<AgentView>, after: Seq<AgentView>) -> bool {
    if before.len() == 0 {
        forall|i: int|
            0 <= i < after.len() ==> {
                &&& (#[trigger] after[i]).strat == cfg.init.strat_phe@
                &&& cfg.init.strat_phe@[after[i].phe as int] > 0
            }
    } else {
        &&& forall|i: int| 0 <= i < after.len() ==> before.contains(#[trigger] after[i])
        &&& before.len() <= cfg.init.n_agt ==> after.take(before.len() as int) == before
        &&& before.len() > cfg.init.n_agt ==> after.to_multiset().subset_of(before.to_multiset())
    }
}

/// The event is one of the pool, and its rate is not zero.
pub open spec fn drawn_from(event: Event, pool: PoolView) -> bool {
    exists|k: int|
        0 <= k < pool.events.len() && k < pool.rates.len() && pool.events[k] == event
            && pool.rates[k] > 0
}

/// The state that follows an event: the environment is the one the event
/// leads to, and the population is the one the event leaves, brought back to
/// its configured size.
pub open spec fn succeeds(before: EngineView, event: Event, noise: Seq<u64>, after: StateView) -> bool {
    let agents = before.state.agents;
    match event {
        Event::EnvTrans { next_env } => after.env == next_env && after.agents == agents,
        Event::Death { agent_idx } => {
            &&& after.env == before.state.env
            &&& renewed(
                before.cfg,
                agents.update(agent_idx as int, agents.last()).drop_last(),
                after.agents,
            )
        },
        Event::Replication { agent_idx } => {
            &&& after.env == before.state.env
            &&& exists|child: AgentView|
                {
                    &&& born_of(child, agents[agent_idx as int], noise, before.cfg.model.prob_mut)
                    &&& #[trigger] renewed(before.cfg, agents.push(child), after.agents)
                }
        },
    }
}

/// What is left of a population after some agents were taken away was part
/// of it before.
pub proof fn lemma_culled_contained(
    before: Seq<AgentView>,
    after: Seq<AgentView>,
    removed: vstd::multiset::Multiset<AgentView>,
)
    requires
        after.to_multiset() =~= before.to_multiset().sub(removed),
    ensures
        forall|i: int| 0 <= i < after.len() ==> before.contains(#[trigger] after[i]),
{
    broadcast use vstd::multiset::group_multiset_axioms;

    assert forall|i: int| 0 <= i < after.len() implies before.contains(#[trigger] after[i]) by {
        let a = after[i];
        assert(after.contains(a));
        vstd::seq_lib::to_multiset_contains(after, a);
        vstd::seq_lib::to_multiset_contains(before, a);
    }
}

/// Tells whether the noise holds one factor above zero for each phenotype.
pub fn check_noise(noise: &Vec<u64>, n_phe: usize) -> (r: bool)
    ensures
        r == noise_fits(noise@, n_phe as nat),
{
    if noise.len() != n_phe {
        return false;
    }
    let mut i: usize = 0;
    while i < noise.len()
        invariant
            i <= noise.len(),
            forall|j: int| 0 <= j < i ==> noise@[j] > 0,
        decreases noise.len() - i,
    {
        if noise[i] == 0 {
            return false;
        }
        i = i + 1;
    }
    true
}

} // verus!
