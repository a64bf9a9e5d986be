use mutare::mutation::{mutate_strategy, MutationError};
use mutare::population::{cull, sort_descending};
use mutare::types::Agent;
use mutare::units::UNIT;

#[test]
fn equal_noise_leaves_a_strategy_as_it_is() {
    let strat = vec![UNIT / 4, 3 * (UNIT / 4)];
    assert_eq!(mutate_strategy(&strat, &vec![UNIT, UNIT]), Ok(strat.clone()));
    assert_eq!(mutate_strategy(&strat, &vec![7, 7]), Ok(strat));
}

#[test]
fn noise_shifts_the_shares() {
    // Weights 1/2 * 3 and 1/2 * 1: shares 3/4 and 1/4.
    assert_eq!(
        mutate_strategy(&vec![UNIT / 2, UNIT / 2], &vec![3 * UNIT, UNIT]),
        Ok(vec![750_000_000, 250_000_000])
    );
    // Weights 1 : 2 : 4.
    assert_eq!(
        mutate_strategy(&vec![100, 100, 100], &vec![1, 2, 4]),
        Ok(vec![142_857_144, 285_714_285, 571_428_571])
    );
}

#[test]
fn what_rounding_leaves_goes_to_the_first_component_with_weight() {
    let mutated = mutate_strategy(&vec![0, 1, 1, 1], &vec![5, 1, 1, 1]).unwrap();
    assert_eq!(mutated, vec![0, 333_333_334, 333_333_333, 333_333_333]);
    assert_eq!(mutated.iter().sum::<u64>(), UNIT);
}

#[test]
fn a_mutated_strategy_sums_to_one() {
    let strat = vec![123_456_789, 234_567_891, 641_975_320];
    let noise = vec![987_654_321, 1_234_567_890, 777_777_777];
    let mutated = mutate_strategy(&strat, &noise).unwrap();
    assert_eq!(mutated.len(), 3);
    assert_eq!(mutated.iter().sum::<u64>(), UNIT);
    let as_real: f64 = mutated.iter().map(|&s| s as f64 / UNIT as f64).sum();
    assert!((as_real - 1.0).abs() <= 1e-8);
}

#[test]
fn zero_stays_zero() {
    assert_eq!(mutate_strategy(&vec![0, UNIT], &vec![9 * UNIT, 3]), Ok(vec![0, UNIT]));
    assert_eq!(mutate_strategy(&vec![UNIT, UNIT], &vec![0, 3]), Ok(vec![0, UNIT]));
}

#[test]
fn mutation_fails_on_unfit_noise() {
    assert_eq!(
        mutate_strategy(&vec![UNIT], &vec![UNIT, UNIT]),
        Err(MutationError::Length { expected: 1, found: 2 })
    );
    assert_eq!(mutate_strategy(&vec![UNIT, 0], &vec![0, UNIT]), Err(MutationError::Degenerate));
    assert_eq!(mutate_strategy(&vec![], &vec![]), Err(MutationError::Degenerate));
    assert_eq!(
        mutate_strategy(&vec![u64::MAX, u64::MAX], &vec![u64::MAX, u64::MAX]),
        Err(MutationError::TooLarge)
    );
    assert_eq!(
        mutate_strategy(&vec![u64::MAX], &vec![u64::MAX]),
        Err(MutationError::TooLarge)
    );
}

#[test]
fn offspring_inherit_or_mutate() {
    let parent = Agent::new(1, vec![UNIT / 2, UNIT / 2]);
    let noise = vec![3 * UNIT, UNIT];
    let heir = parent.offspring(0, false, &noise).unwrap();
    assert_eq!(heir.phe(), 0);
    assert_eq!(heir.strat_phe(), &vec![UNIT / 2, UNIT / 2]);
    let mutant = parent.offspring(1, true, &noise).unwrap();
    assert_eq!(mutant.phe(), 1);
    assert_eq!(mutant.strat_phe(), &vec![750_000_000, 250_000_000]);
    assert_eq!(parent.offspring(0, true, &vec![UNIT]), Err(MutationError::Length {
        expected: 2,
        found: 1
    }));
    assert!(parent.offspring(0, false, &vec![UNIT]).is_ok());
}

#[test]
fn agents_are_valid_where_their_strategy_is() {
    assert!(Agent::new(1, vec![UNIT / 2, UNIT / 2]).is_valid(2));
    assert!(!Agent::new(2, vec![UNIT / 2, UNIT / 2]).is_valid(2));
    assert!(!Agent::new(1, vec![UNIT / 2, UNIT / 2]).is_valid(3));
    assert!(!Agent::new(0, vec![UNIT / 2, UNIT / 4]).is_valid(2));
    let agent = Agent::new(1, vec![UNIT / 2, UNIT / 2]);
    assert_eq!(agent.clone(), agent);
    assert_eq!(agent.prob_phe(), agent.strat_phe());
}

#[test]
fn indices_are_sorted_from_the_largest() {
    assert_eq!(sort_descending(&vec![]), Vec::<usize>::new());
    assert_eq!(sort_descending(&vec![3, 9, 1, 7]), vec![9, 7, 3, 1]);
    assert_eq!(sort_descending(&vec![2, 2, 5, 0]), vec![5, 2, 2, 0]);
}

fn tagged(n: usize) -> Vec<Agent> {
    (0..n).map(|i| Agent::new(i, vec![UNIT])).collect()
}

fn tags(agents: &Vec<Agent>) -> Vec<usize> {
    let mut tags: Vec<usize> = agents.iter().map(|a| a.phe()).collect();
    tags.sort();
    tags
}

#[test]
fn culling_removes_the_doomed_and_no_others() {
    let mut agents = tagged(8);
    cull(&mut agents, &vec![7, 4, 3, 0]);
    assert_eq!(tags(&agents), vec![1, 2, 5, 6]);

    let mut agents = tagged(5);
    cull(&mut agents, &vec![]);
    assert_eq!(tags(&agents), vec![0, 1, 2, 3, 4]);

    let mut agents = tagged(3);
    cull(&mut agents, &vec![2, 1, 0]);
    assert!(agents.is_empty());

    let mut agents = tagged(6);
    cull(&mut agents, &vec![1]);
    assert_eq!(agents.iter().map(|a| a.phe()).collect::<Vec<_>>(), vec![0, 5, 2, 3, 4]);
}
