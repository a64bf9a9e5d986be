//! Simulation analysis.

use crate::config::{Config, MAX_AGENTS, MAX_PHE};
use crate::types::{AgentView, Event, State};
use crate::units::{lemma_total_ge_each, total, TOLERANCE, UNIT};
use crate::stats::{average, average_verdict, weighted_average, Average, AverageError, TimeSeries};
use crate::utils::first_where;
use vstd::prelude::*;

verus! {

/// The largest population whose observables can be computed.
pub const MAX_OBSERVED: usize = MAX_AGENTS + 1;

/// What a simulation step shows of the population before its event.
///
/// The quantities are exact sums; the averages they stand for are quotients
/// that the reader of a record takes: the average strategy is
/// `sum_strat_phe / n_agents`, and the dispersion of the strategy across the
/// population is the square root of `dispersion / n_agents`, divided by
/// `2 * n_agents`.
#[derive(Debug, PartialEq, Eq, Clone)]
pub struct Observables {
    /// Number of agents.
    pub n_agents: usize,
    /// Direction in which the event changes the number of agents.
    pub growth: i8,
    /// Number of extinctions so far.
    pub n_extinct: usize,
    /// Sum over the agents of each component of the phenotypic strategy.
    pub sum_strat_phe: Vec<u64>,
    /// Sum over the agents of the squared deviation of the agent's strategy
    /// from the average strategy, the deviation scaled by `n_agents`.
    pub dispersion: u128,
}

/// The direction in which an event changes the number of agents.
pub open spec fn growth_sign(event: Event) -> int {
    match event {
        Event::Replication { .. } => 1,
        Event::Death { .. } => -1,
        Event::EnvTrans { .. } => 0,
    }
}

/// Sum over the first `k` agents of component `p` of their strategies.
pub open spec fn strat_sum(agents: Seq<AgentView>, p: int, k: nat) -> nat
    decreases k,
{
    if k == 0 {
        0
    } else {
        strat_sum(agents, p, (k - 1) as nat) + agents[k - 1].strat[p] as nat
    }
}

/// Sum over all agents of each of the `n_phe` components of their strategies.
pub open spec fn strat_sums(agents: Seq<AgentView>, n_phe: nat) -> Seq<nat> {
    Seq::new(n_phe, |p: int| strat_sum(agents, p, agents.len()))
}

/// The distance between two numbers.
pub open spec fn distance(a: int, b: int) -> nat {
    if a >= b {
        (a - b) as nat
    } else {
        (b - a) as nat
    }
}

/// The deviation of a strategy from the average of `n` strategies whose
/// components sum to `sums`, scaled by `n` and taken over the first `k`
/// components: the sum of the distances between `n * strat[p]` and `sums[p]`.
pub open spec fn deviation(strat: Seq<u64>, sums: Seq<nat>, n: nat, k: nat) -> nat
    decreases k,
{
    if k == 0 {
        0
    } else {
        deviation(strat, sums, n, (k - 1) as nat) + distance(
            n * strat[k - 1],
            sums[k - 1] as int,
        )
    }
}

/// Sum over the first `k` agents of their squared deviation from the average
/// strategy of all agents.
pub open spec fn dispersion(agents: Seq<AgentView>, sums: Seq<nat>, k: nat) -> nat
    decreases k,
{
    if k == 0 {
        0
    } else {
        let d = deviation(agents[k - 1].strat, sums, agents.len(), sums.len());
        dispersion(agents, sums, (k - 1) as nat) + d * d
    }
}

/// The observables are those of a population before an event, with `n_phe`
/// phenotypes and `n_extinct` extinctions so far.
pub open spec fn observes(
    obs: Observables,
    n_phe: nat,
    agents: Seq<AgentView>,
    event: Event,
    n_extinct: usize,
) -> bool {
    &&& obs.n_agents == agents.len()
    &&& obs.growth == growth_sign(event)
    &&& obs.n_extinct == n_extinct
    &&& obs.sum_strat_phe@.len() == n_phe
    &&& forall|p: int|
        0 <= p < n_phe ==> #[trigger] obs.sum_strat_phe@[p] == strat_sum(agents, p, agents.len())
    &&& obs.dispersion == dispersion(agents, strat_sums(agents, n_phe), agents.len())
}

/// A sum of components of valid strategies is bounded by the number of
/// strategies.
pub proof fn lemma_strat_sum_bound(agents: Seq<AgentView>, n_phe: nat, p: int, k: nat)
    requires
        k <= agents.len(),
        0 <= p < n_phe,
        forall|i: int| 0 <= i < agents.len() ==> (#[trigger] agents[i]).valid(n_phe),
    ensures
        strat_sum(agents, p, k) <= k * (UNIT + TOLERANCE),
    decreases k,
{
    if k > 0 {
        lemma_strat_sum_bound(agents, n_phe, p, (k - 1) as nat);
        assert(agents[k - 1].valid(n_phe));
        lemma_total_ge_each(agents[k - 1].strat, p);
        assert((k - 1) * (UNIT + TOLERANCE) + (UNIT + TOLERANCE) == k * (UNIT + TOLERANCE))
            by (nonlinear_arith);
    }
}

/// Sum over the first `k` agents of the sums of the first `q` components of
/// their strategies.
pub open spec fn partial_sum(agents: Seq<AgentView>, q: int, k: nat) -> nat
    decreases k,
{
    if k == 0 {
        0
    } else {
        partial_sum(agents, q, (k - 1) as nat) + total(agents[k - 1].strat.take(q))
    }
}

/// The sums of the components, summed over the components, are the sums of
/// the strategies, summed over the agents.
pub proof fn lemma_sums_total(sums: Seq<u64>, agents: Seq<AgentView>, q: nat, k: nat)
    requires
        q <= sums.len(),
        k <= agents.len(),
        forall|i: int| 0 <= i < agents.len() ==> (#[trigger] agents[i]).strat.len() == sums.len(),
        forall|p: int| 0 <= p < sums.len() ==> #[trigger] sums[p] == strat_sum(agents, p, k),
    ensures
        total(sums.take(q as int)) == partial_sum(agents, q as int, k),
    decreases q,
{
    if q > 0 {
        lemma_sums_total(sums, agents, (q - 1) as nat, k);
        lemma_partial_sum_step(agents, sums.len(), (q - 1) as nat, k);
        assert(sums.take(q as int).drop_last() =~= sums.take(q - 1));
    } else {
        lemma_partial_sum_none(agents, k);
    }
}

/// No components sum to nothing.
pub proof fn lemma_partial_sum_none(agents: Seq<AgentView>, k: nat)
    ensures
        partial_sum(agents, 0, k) == 0,
    decreases k,
{
    if k > 0 {
        lemma_partial_sum_none(agents, (k - 1) as nat);
    }
}

/// One more component adds its sum over the agents.
pub proof fn lemma_partial_sum_step(agents: Seq<AgentView>, n_phe: nat, q: nat, k: nat)
    requires
        q < n_phe,
        k <= agents.len(),
        forall|i: int| 0 <= i < agents.len() ==> (#[trigger] agents[i]).strat.len() == n_phe,
    ensures
        partial_sum(agents, q as int + 1, k) == partial_sum(agents, q as int, k) + strat_sum(
            agents,
            q as int,
            k,
        ),
    decreases k,
{
    if k > 0 {
        lemma_partial_sum_step(agents, n_phe, q, (k - 1) as nat);
        let strat = agents[k - 1].strat;
        assert(strat.take(q as int + 1).drop_last() =~= strat.take(q as int));
    }
}

/// The sums of the strategies of valid agents lie within as many tolerances
/// of as many units as there are agents.
pub proof fn lemma_partial_sum_valid(agents: Seq<AgentView>, n_phe: nat, k: nat)
    requires
        k <= agents.len(),
        forall|i: int| 0 <= i < agents.len() ==> (#[trigger] agents[i]).valid(n_phe),
    ensures
        k * (UNIT - TOLERANCE) <= partial_sum(agents, n_phe as int, k) <= k * (UNIT + TOLERANCE),
    decreases k,
{
    if k > 0 {
        lemma_partial_sum_valid(agents, n_phe, (k - 1) as nat);
        let strat = agents[k - 1].strat;
        assert(agents[k - 1].valid(n_phe));
        assert(strat.take(n_phe as int) =~= strat);
        assert((k - 1) * (UNIT - TOLERANCE) + (UNIT - TOLERANCE) == k * (UNIT - TOLERANCE))
            by (nonlinear_arith);
        assert((k - 1) * (UNIT + TOLERANCE) + (UNIT + TOLERANCE) == k * (UNIT + TOLERANCE))
            by (nonlinear_arith);
    }
}

/// The average strategy of a population of valid agents is a probability
/// vector: the sums of the components of the strategies, taken together,
/// are the number of agents within as many tolerances.
pub proof fn lemma_average_strategy(
    obs: Observables,
    n_phe: nat,
    agents: Seq<AgentView>,
    event: Event,
    n_extinct: usize,
)
    requires
        observes(obs, n_phe, agents, event, n_extinct),
        forall|i: int| 0 <= i < agents.len() ==> (#[trigger] agents[i]).valid(n_phe),
    ensures
        obs.n_agents * (UNIT - TOLERANCE) <= total(obs.sum_strat_phe@) <= obs.n_agents * (UNIT
            + TOLERANCE),
{
    let n = agents.len();
    lemma_sums_total(obs.sum_strat_phe@, agents, n_phe, n);
    lemma_partial_sum_valid(agents, n_phe, n);
    assert(obs.sum_strat_phe@.take(n_phe as int) =~= obs.sum_strat_phe@);
}

/// Calculate simulation observables.
pub fn calc_observables(cfg: &Config, state: &State, event: &Event, n_extinct: usize) -> (r:
    Observables)
    requires
        cfg.valid(),
        state@.valid(cfg.model.n_env as nat, cfg.model.n_phe as nat),
        state.agents.len() <= MAX_OBSERVED,
    ensures
        observes(r, cfg.model.n_phe as nat, state@.agents, *event, n_extinct),
{
    let n_phe = cfg.model.n_phe;
    let n_agents = state.agents.len();
    let ghost agents = state@.agents;
    let ghost bound: nat = (UNIT + TOLERANCE) as nat;

    let growth: i8 = match event {
        Event::Replication { .. } => 1,
        Event::Death { .. } => -1,
        Event::EnvTrans { .. } => 0,
    };

    let mut sums: Vec<u64> = Vec::new();
    let mut p: usize = 0;
    while p < n_phe
        invariant
            p <= n_phe,
            sums@.len() == p,
            forall|q: int| 0 <= q < p ==> sums@[q] == 0,
        decreases n_phe - p,
    {
        sums.push(0);
        p = p + 1;
    }

    let mut a: usize = 0;
    while a < n_agents
        invariant
            a <= n_agents == state.agents.len() == agents.len(),
            n_agents <= MAX_OBSERVED,
            n_phe == cfg.model.n_phe <= MAX_PHE,
            agents == state@.agents,
            state@.valid(cfg.model.n_env as nat, n_phe as nat),
            sums@.len() == n_phe,
            forall|q: int| 0 <= q < n_phe ==> #[trigger] sums@[q] == strat_sum(agents, q, a as nat),
        decreases n_agents - a,
    {
        let strat = state.agents[a].strat_phe();
        assert(agents[a as int] == state.agents@[a as int]@);
        assert(agents[a as int].valid(n_phe as nat));
        let mut p: usize = 0;
        while p < n_phe
            invariant
                p <= n_phe,
                a < n_agents == agents.len(),
                n_agents <= MAX_OBSERVED,
                strat@ == agents[a as int].strat,
                strat@.len() == n_phe,
                forall|i: int| 0 <= i < agents.len() ==> (#[trigger] agents[i]).valid(n_phe as nat),
                sums@.len() == n_phe,
                forall|q: int|
                    0 <= q < p ==> #[trigger] sums@[q] == strat_sum(agents, q, (a + 1) as nat),
                forall|q: int|
                    p <= q < n_phe ==> #[trigger] sums@[q] == strat_sum(agents, q, a as nat),
            decreases n_phe - p,
        {
            proof {
                lemma_strat_sum_bound(agents, n_phe as nat, p as int, (a + 1) as nat);
                assert((a + 1) * (UNIT + TOLERANCE) <= MAX_OBSERVED * (UNIT + TOLERANCE))
                    by (nonlinear_arith)
                    requires
                        a + 1 <= MAX_OBSERVED,
                ;
            }
            let s = sums[p] + strat[p];
            sums.set(p, s);
            p = p + 1;
        }
        a = a + 1;
    }

    let ghost all = strat_sums(agents, n_phe as nat);
    let mut disp: u128 = 0;
    let mut a: usize = 0;
    while a < n_agents
        invariant
            a <= n_agents == state.agents.len() == agents.len(),
            n_agents <= MAX_OBSERVED,
            n_phe == cfg.model.n_phe <= MAX_PHE,
            agents == state@.agents,
            all == strat_sums(agents, n_phe as nat),
            state@.valid(cfg.model.n_env as nat, n_phe as nat),
            sums@.len() == n_phe,
            forall|q: int|
                0 <= q < n_phe ==> #[trigger] sums@[q] == strat_sum(agents, q, n_agents as nat),
            disp == dispersion(agents, all, a as nat),
            disp <= a * 0x1_0000_0000_0000_0000_0000_0000,
        decreases n_agents - a,
    {
        let strat = state.agents[a].strat_phe();
        assert(agents[a as int] == state.agents@[a as int]@);
        assert(agents[a as int].valid(n_phe as nat));
        let mut dev: u128 = 0;
        let mut p: usize = 0;
        while p < n_phe
            invariant
                p <= n_phe <= MAX_PHE,
                a < n_agents == agents.len(),
                n_agents <= MAX_OBSERVED,
                strat@ == agents[a as int].strat,
                strat@.len() == n_phe,
                all == strat_sums(agents, n_phe as nat),
                forall|i: int| 0 <= i < agents.len() ==> (#[trigger] agents[i]).valid(n_phe as nat),
                sums@.len() == n_phe,
                forall|q: int|
                    0 <= q < n_phe ==> #[trigger] sums@[q] == strat_sum(
                        agents,
                        q,
                        n_agents as nat,
                    ),
                dev == deviation(strat@, all, n_agents as nat, p as nat),
                dev <= p * 0x1000_0000_0000,
            decreases n_phe - p,
        {
            proof {
                lemma_strat_sum_bound(agents, n_phe as nat, p as int, n_agents as nat);
                lemma_total_ge_each(strat@, p as int);
                assert(n_agents * (UNIT + TOLERANCE) <= MAX_OBSERVED * (UNIT + TOLERANCE))
                    by (nonlinear_arith)
                    requires
                        n_agents <= MAX_OBSERVED,
                ;
                assert(n_agents * strat@[p as int] <= MAX_OBSERVED * (UNIT + TOLERANCE))
                    by (nonlinear_arith)
                    requires
                        n_agents <= MAX_OBSERVED,
                        strat@[p as int] <= UNIT + TOLERANCE,
                ;
                assert(all[p as int] == sums@[p as int]);
            }
            let scaled: u128 = (n_agents as u128) * (strat[p] as u128);
            let sum: u128 = sums[p] as u128;
            let d: u128 = if scaled >= sum {
                scaled - sum
            } else {
                sum - scaled
            };
            assert(d == distance(n_agents * strat@[p as int], all[p as int] as int));
            dev = dev + d;
            p = p + 1;
        }
        proof {
            assert(dev * dev <= 0x1_0000_0000_0000_0000_0000_0000) by (nonlinear_arith)
                requires
                    dev <= 16 * 0x1000_0000_0000,
            ;
        }
        disp = disp + dev * dev;
        a = a + 1;
    }

    Observables { n_agents, growth, n_extinct, sum_strat_phe: sums, dispersion: disp }
}

/// A quantity of the observables that an analysis can follow.
#[derive(Clone, Copy, Debug, PartialEq, Eq, Structural)]
pub enum Metric {
    /// The number of agents.
    NAgents,
    /// The direction in which the event changes the number of agents.
    Growth,
    /// The number of extinctions so far.
    NExtinct,
    /// The sum over the agents of one component of the strategy.
    SumStratPhe { phe: usize },
}

impl Metric {
    /// The value of the metric in some observables, where they hold one that
    /// a series can take.
    pub open spec fn value(self, obs: Observables) -> Option<i64> {
        match self {
            Metric::NAgents => if obs.n_agents <= i64::MAX {
                Some(obs.n_agents as i64)
            } else {
                None
            },
            Metric::Growth => Some(obs.growth as i64),
            Metric::NExtinct => if obs.n_extinct <= i64::MAX {
                Some(obs.n_extinct as i64)
            } else {
                None
            },
            Metric::SumStratPhe { phe } => if phe < obs.sum_strat_phe@.len()
                && obs.sum_strat_phe@[phe as int] <= i64::MAX {
                Some(obs.sum_strat_phe@[phe as int] as i64)
            } else {
                None
            },
        }
    }

    /// Read the value of the metric from some observables.
    pub fn read(&self, obs: &Observables) -> (r: Option<i64>)
        ensures
            r == self.value(*obs),
    {
        match self {
            Metric::NAgents => if obs.n_agents as u64 <= i64::MAX as u64 {
                Some(obs.n_agents as i64)
            } else {
                None
            },
            Metric::Growth => Some(obs.growth as i64),
            Metric::NExtinct => if obs.n_extinct as u64 <= i64::MAX as u64 {
                Some(obs.n_extinct as i64)
            } else {
                None
            },
            Metric::SumStratPhe { phe } => if *phe < obs.sum_strat_phe.len()
                && obs.sum_strat_phe[*phe] <= i64::MAX as u64 {
                Some(obs.sum_strat_phe[*phe] as i64)
            } else {
                None
            },
        }
    }
}

/// A metric that an analysis follows, as mathematics: its name, what it
/// reads, and the values read so far.
pub struct MetricView {
    pub name: Seq<char>,
    pub metric: Metric,
    pub series: Seq<i64>,
}

/// A metric that an analysis follows.
pub struct MetricSeries {
    name: String,
    metric: Metric,
    series: TimeSeries,
}

impl View for MetricSeries {
    type V = MetricView;

    closed spec fn view(&self) -> MetricView {
        MetricView { name: self.name@, metric: self.metric, series: self.series@ }
    }
}

impl MetricSeries {
    /// The name of the metric.
    pub fn name(&self) -> (r: &String)
        ensures
            r@ == self@.name,
    {
        &self.name
    }

    /// What the metric reads.
    pub fn metric(&self) -> (r: Metric)
        ensures
            r == self@.metric,
    {
        self.metric
    }

    /// The values read so far.
    pub fn series(&self) -> (r: &TimeSeries)
        ensures
            r@ == self@.series,
    {
        &self.series
    }
}

/// The metrics that an analysis follows, as mathematics.
pub open spec fn metrics_view(metrics: Seq<MetricSeries>) -> Seq<MetricView> {
    Seq::new(metrics.len(), |i: int| metrics[i]@)
}

/// Some metric has the name.
pub open spec fn has_name(metrics: Seq<MetricView>, name: Seq<char>) -> bool {
    exists|i: int| 0 <= i < metrics.len() && (#[trigger] metrics[i]).name == name
}

/// No two metrics share a name.
pub open spec fn names_differ(metrics: Seq<MetricView>) -> bool {
    forall|i: int, j: int|
        0 <= i < j < metrics.len() ==> (#[trigger] metrics[i]).name != (#[trigger] metrics[j]).name
}

/// The first metric that has no value in the observables, or the number of
/// metrics.
pub open spec fn first_unread(metrics: Seq<MetricView>, obs: Observables, from: int) -> int
    decreases metrics.len() - from,
{
    if from >= metrics.len() {
        metrics.len() as int
    } else if metrics[from].metric.value(obs) is None {
        from
    } else {
        first_unread(metrics, obs, from + 1)
    }
}

/// The metrics after each has read its value from the observables.
pub open spec fn extended(metrics: Seq<MetricView>, obs: Observables) -> Seq<MetricView> {
    Seq::new(
        metrics.len(),
        |i: int|
            MetricView {
                name: metrics[i].name,
                metric: metrics[i].metric,
                series: metrics[i].series.push(metrics[i].metric.value(obs)->0),
            },
    )
}

/// The metrics after each has read its value from the first `k`
/// observables of a file.
pub open spec fn replayed(metrics: Seq<MetricView>, file: Seq<Observables>, k: nat) -> Seq<
    MetricView,
>
    decreases k,
{
    if k == 0 {
        metrics
    } else {
        extended(replayed(metrics, file, (k - 1) as nat), file[k - 1])
    }
}

/// The first observables of a file, from `from` on, in which some metric has
/// no value; or the number of observables in the file.
pub open spec fn first_unreadable(metrics: Seq<MetricView>, file: Seq<Observables>, from: int) -> int
    decreases file.len() - from,
{
    if from >= file.len() {
        file.len() as int
    } else if first_unread(metrics, file[from], 0) < metrics.len() {
        from
    } else {
        first_unreadable(metrics, file, from + 1)
    }
}

/// Reading observables changes neither the number of the metrics, nor their
/// names, nor what they read.
pub proof fn lemma_replayed_keeps_metrics(metrics: Seq<MetricView>, file: Seq<Observables>, k: nat)
    ensures
        replayed(metrics, file, k).len() == metrics.len(),
        forall|i: int|
            0 <= i < metrics.len() ==> {
                &&& (#[trigger] replayed(metrics, file, k)[i]).name == metrics[i].name
                &&& replayed(metrics, file, k)[i].metric == metrics[i].metric
            },
    decreases k,
{
    if k > 0 {
        lemma_replayed_keeps_metrics(metrics, file, (k - 1) as nat);
    }
}

/// Whether every metric has a value in some observables depends on what the
/// metrics read alone.
pub proof fn lemma_first_unread_same(
    a: Seq<MetricView>,
    b: Seq<MetricView>,
    obs: Observables,
    from: int,
)
    requires
        0 <= from,
        a.len() == b.len(),
        forall|i: int| 0 <= i < a.len() ==> (#[trigger] a[i]).metric == b[i].metric,
    ensures
        first_unread(a, obs, from) == first_unread(b, obs, from),
    decreases a.len() - from,
{
    if from < a.len() {
        assert(a[from].metric == b[from].metric);
        lemma_first_unread_same(a, b, obs, from + 1);
    }
}

/// Why an analysis does not go on.
#[derive(Clone, Copy, Debug, PartialEq, Eq, Structural)]
pub enum AnalysisError {
    /// A metric of this name is followed already.
    DuplicateName,
    /// The metric at this place has no value in the observables.
    NoValue { index: usize },
    /// The values of the metric at this place have no weighted average.
    NoAverage { index: usize, error: AverageError },
}

/// Tells of each metric whether its values have no average with the
/// weights.
pub open spec fn unaveraged(metrics: Seq<MetricView>, weights: Seq<u64>) -> spec_fn(int) -> bool {
    |i: int| average_verdict(metrics[i].series, weights) is Some
}

/// Simulation analyzer.
///
/// Follows metrics through the observables of a run, in the order in which
/// they were written.
pub struct Analyzer {
    /// The metrics, each with its name and its values so far.
    metrics: Vec<MetricSeries>,
}

impl View for Analyzer {
    type V = Seq<MetricView>;

    closed spec fn view(&self) -> Seq<MetricView> {
        metrics_view(self.metrics@)
    }
}

impl Analyzer {
    /// Create a new `Analyzer` that follows no metric yet.
    pub fn new() -> (r: Self)
        ensures
            r@ == Seq::<MetricView>::empty(),
            names_differ(r@),
    {
        let r = Self { metrics: Vec::new() };
        assert(r@ =~= Seq::<MetricView>::empty());
        r
    }

    /// Follow a metric under a name. Two metrics cannot share a name.
    pub fn track(&mut self, name: String, metric: Metric) -> (r: Result<(), AnalysisError>)
        ensures
            match r {
                Ok(()) => {
                    &&& !has_name(old(self)@, name@)
                    &&& final(self)@ == old(self)@.push(
                        MetricView { name: name@, metric, series: Seq::empty() },
                    )
                    &&& names_differ(old(self)@) ==> names_differ(final(self)@)
                },
                Err(e) => {
                    &&& e == AnalysisError::DuplicateName
                    &&& has_name(old(self)@, name@)
                    &&& final(self)@ == old(self)@
                },
            },
    {
        let mut i: usize = 0;
        while i < self.metrics.len()
            invariant
                i <= self.metrics@.len(),
                forall|j: int| 0 <= j < i ==> (#[trigger] self@[j]).name != name@,
            decreases self.metrics@.len() - i,
        {
            if self.metrics[i].name == name {
                assert(self@[i as int].name == name@);
                return Err(AnalysisError::DuplicateName);
            }
            i = i + 1;
        }
        let ghost before = self@;
        self.metrics.push(MetricSeries { name, metric, series: TimeSeries::new() });
        assert(self@ =~= before.push(MetricView { name: name@, metric, series: Seq::empty() }));
        Ok(())
    }

    /// Add the observables of one step: each metric reads its value. Where
    /// one of them has none, no metric reads.
    pub fn add(&mut self, obs: &Observables) -> (r: Result<(), AnalysisError>)
        ensures
            match r {
                Ok(()) => {
                    &&& first_unread(old(self)@, *obs, 0) == old(self)@.len()
                    &&& final(self)@ == extended(old(self)@, *obs)
                    &&& names_differ(old(self)@) ==> names_differ(final(self)@)
                },
                Err(e) => {
                    &&& first_unread(old(self)@, *obs, 0) < old(self)@.len()
                    &&& e == (AnalysisError::NoValue {
                        index: first_unread(old(self)@, *obs, 0) as usize,
                    })
                    &&& final(self)@ == old(self)@
                },
            },
    {
        let ghost before = self@;
        let n = self.metrics.len();
        let mut values: Vec<i64> = Vec::new();
        let mut i: usize = 0;
        while i < n
            invariant
                i <= n == self.metrics@.len(),
                before == self@,
                values@.len() == i,
                first_unread(before, *obs, 0) == first_unread(before, *obs, i as int),
                forall|j: int|
                    0 <= j < i ==> before[j].metric.value(*obs) == Some(#[trigger] values@[j]),
            decreases n - i,
        {
            match self.metrics[i].metric.read(obs) {
                Some(v) => {
                    values.push(v);
                },
                None => {
                    return Err(AnalysisError::NoValue { index: i });
                },
            }
            i = i + 1;
        }
        let mut i: usize = 0;
        while i < n
            invariant
                i <= n == self.metrics@.len() == before.len(),
                values@.len() == n,
                forall|j: int|
                    0 <= j < n ==> before[j].metric.value(*obs) == Some(#[trigger] values@[j]),
                forall|j: int| 0 <= j < i ==> #[trigger] self@[j] == extended(before, *obs)[j],
                forall|j: int| i <= j < n ==> #[trigger] self@[j] == before[j],
            decreases n - i,
        {
            let ghost current = self.metrics@;
            let ghost shown = self@;
            assert(shown[i as int] == before[i as int]);
            self.metrics[i].series.push(values[i]);
            proof {
                assert forall|j: int| 0 <= j < i implies #[trigger] self@[j] == extended(
                    before,
                    *obs,
                )[j] by {
                    assert(self.metrics@[j] == current[j]);
                    assert(shown[j] == extended(before, *obs)[j]);
                }
                assert forall|j: int| i < j < n implies #[trigger] self@[j] == before[j] by {
                    assert(self.metrics@[j] == current[j]);
                    assert(shown[j] == before[j]);
                }
            }
            i = i + 1;
        }
        assert(self@ =~= extended(before, *obs));
        Ok(())
    }

    /// Add the observables of an output file, in the order in which they were
    /// written. The first without a value for some metric stops the
    /// analysis; those before it have been read by then.
    pub fn add_output_file(&mut self, file: &Vec<Observables>) -> (r: Result<(), AnalysisError>)
        ensures
            match r {
                Ok(()) => {
                    &&& first_unreadable(old(self)@, file@, 0) == file@.len()
                    &&& final(self)@ == replayed(old(self)@, file@, file@.len())
                    &&& names_differ(old(self)@) ==> names_differ(final(self)@)
                },
                Err(e) => {
                    let at = first_unreadable(old(self)@, file@, 0);
                    &&& at < file@.len()
                    &&& final(self)@ == replayed(old(self)@, file@, at as nat)
                    &&& names_differ(old(self)@) ==> names_differ(final(self)@)
                    &&& e == (AnalysisError::NoValue {
                        index: first_unread(old(self)@, file@[at], 0) as usize,
                    })
                },
            },
    {
        let ghost before = self@;
        let mut k: usize = 0;
        while k < file.len()
            invariant
                k <= file@.len(),
                before == old(self)@,
                self@ == replayed(before, file@, k as nat),
                names_differ(before) ==> names_differ(self@),
                first_unreadable(before, file@, 0) == first_unreadable(before, file@, k as int),
            decreases file@.len() - k,
        {
            proof {
                lemma_replayed_keeps_metrics(before, file@, k as nat);
                lemma_first_unread_same(before, self@, file@[k as int], 0);
            }
            let ghost current = self@;
            match self.add(&file[k]) {
                Ok(()) => {
                    assert(first_unread(before, file@[k as int], 0) == before.len());
                },
                Err(e) => {
                    assert(first_unread(before, file@[k as int], 0) < before.len());
                    assert(first_unreadable(before, file@, k as int) == k);
                    return Err(e);
                },
            }
            k = k + 1;
        }
        Ok(())
    }

    /// Make the analysis: the average of each metric over the observables
    /// that were added, each of them weighted with the time that its step
    /// took. The first metric without an average stops the analysis.
    pub fn analyze(&self, weights: &Vec<u64>) -> (r: Result<Vec<Average>, AnalysisError>)
        ensures
            match r {
                Ok(averages) => {
                    &&& first_where(self@.len() as int, unaveraged(self@, weights@), 0) == self@.len()
                    &&& averages@.len() == self@.len()
                    &&& forall|i: int|
                        0 <= i < self@.len() ==> #[trigger] averages@[i] == average(
                            self@[i].series,
                            weights@,
                        )
                },
                Err(e) => {
                    let at = first_where(self@.len() as int, unaveraged(self@, weights@), 0);
                    &&& at < self@.len()
                    &&& e == (AnalysisError::NoAverage {
                        index: at as usize,
                        error: average_verdict(self@[at].series, weights@)->0,
                    })
                },
            },
    {
        let ghost bad = unaveraged(self@, weights@);
        let n = self.metrics.len();
        let mut averages: Vec<Average> = Vec::with_capacity(n);
        let mut i: usize = 0;
        while i < n
            invariant
                i <= n == self.metrics@.len() == self@.len(),
                bad == unaveraged(self@, weights@),
                first_where(n as int, bad, 0) == first_where(n as int, bad, i as int),
                averages@.len() == i,
                forall|j: int|
                    0 <= j < i ==> #[trigger] averages@[j] == average(self@[j].series, weights@),
            decreases n - i,
        {
            assert(self@[i as int] == self.metrics@[i as int]@);
            match weighted_average(self.metrics[i].series.values(), weights) {
                Ok(avg) => {
                    assert(!bad(i as int));
                    averages.push(avg);
                },
                Err(error) => {
                    assert(bad(i as int));
                    return Err(AnalysisError::NoAverage { index: i, error });
                },
            }
            i = i + 1;
        }
        Ok(averages)
    }

    /// The metrics, each with its name and the values that it has read.
    pub fn report(&self) -> (r: &Vec<MetricSeries>)
        ensures
            metrics_view(r@) == self@,
    {
        &self.metrics
    }
}

} // verus!
