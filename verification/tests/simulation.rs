use covid::step::step_population;
use covid::Person;
use covid::SimError;
use covid::Simulation;
use covid::StopCondition;

fn carried(p: &Person) -> bool {
    match p {
        Person::Dead { .. } | Person::Cured { .. } => true,
        Person::InSimulation { days_since_infection, .. } => *days_since_infection >= 1,
    }
}

fn mixed_population(n: u32) -> Vec<Person> {
    let mut people = Vec::new();
    for k in 0..n {
        people.push(Person::InSimulation { age: (k * 7) % 101, days_since_infection: 0 });
    }
    people
}

#[test]
fn zero_workers_fail_fast() {
    let result = Simulation::new(0, vec![Person::new_in_simulation()]);
    assert_eq!(result.err(), Some(SimError::ZeroWorkers));
}

#[test]
fn new_simulation_starts_at_day_zero() {
    let seed = vec![Person::InSimulation { age: 30, days_since_infection: 0 }];
    let sim = Simulation::new(8, seed.clone()).unwrap();
    assert_eq!(sim.simulated_days, 0);
    assert_eq!(sim.people, seed);
}

#[test]
fn day_step_conserves_population() {
    // Every input individual appears exactly once in the output, possibly
    // transitioned; the rest of the output are newly admitted infections.
    let people = mixed_population(50);
    let out = step_population(&people);
    assert!(out.len() >= people.len());
    assert_eq!(out.iter().filter(|p| carried(p)).count(), people.len());
}

#[test]
fn partitioned_day_step_conserves_population() {
    let people = mixed_population(200);
    let mut sim = Simulation::new(4, people.clone()).unwrap();
    sim.simulate_day_parallel();
    assert_eq!(sim.simulated_days, 1);
    assert!(sim.people.len() >= people.len());
    assert_eq!(sim.people.iter().filter(|p| carried(p)).count(), people.len());
}

#[test]
fn sequential_and_partitioned_steps_agree_in_shape() {
    // The partition is purely an execution strategy: both steppers satisfy
    // the same day-step relation, so both conserve the input count and only
    // admit newly infected individuals beyond it.
    let people = mixed_population(200);
    let mut sequential = Simulation::new(1, people.clone()).unwrap();
    sequential.simulate_day();
    let mut partitioned = Simulation::new(4, people.clone()).unwrap();
    partitioned.simulate_day_parallel();
    for sim in [&sequential, &partitioned] {
        assert_eq!(sim.people.iter().filter(|p| carried(p)).count(), people.len());
        for p in &sim.people {
            assert!(p.age() <= 100);
            if !carried(p) {
                assert!(p.is_in_simulation());
                assert_eq!(p.days_since_infection(), 0);
            }
        }
    }
}

#[test]
fn ages_are_immutable_across_days() {
    // The multiset of carried-forward ages equals the input multiset of
    // ages, day after day: no individual's age ever changes.
    let mut sim = Simulation::new(2, mixed_population(40)).unwrap();
    for _ in 0..5 {
        let mut ages_before: Vec<u32> = sim.people.iter().map(|p| p.age()).collect();
        sim.simulate_day();
        let mut carried_ages: Vec<u32> =
            sim.people.iter().filter(|p| carried(p)).map(|p| p.age()).collect();
        ages_before.sort_unstable();
        carried_ages.sort_unstable();
        assert_eq!(carried_ages, ages_before);
    }
}

#[test]
fn population_never_shrinks() {
    let mut sim = Simulation::new(2, mixed_population(10)).unwrap();
    let mut previous = sim.people.len();
    for _ in 0..10 {
        sim.simulate_day();
        assert!(sim.people.len() >= previous);
        previous = sim.people.len();
    }
}

#[test]
fn run_stops_exactly_at_day_target() {
    // With an unreachable population bound, the run performs exactly the
    // asked-for number of day-steps.
    let seed = vec![Person::InSimulation { age: 30, days_since_infection: 0 }];
    let mut sim = Simulation::new(2, seed).unwrap();
    sim.run_simulation(StopCondition { days_at_least: 5, population_above: usize::MAX });
    assert_eq!(sim.simulated_days, 5);
    // Asking again for the same target performs no further step.
    let size = sim.people.len();
    sim.run_simulation(StopCondition { days_at_least: 5, population_above: usize::MAX });
    assert_eq!(sim.simulated_days, 5);
    assert_eq!(sim.people.len(), size);
}

#[test]
fn run_stops_when_condition_holds() {
    // The run returns only once the stop condition holds: either the
    // population outgrew the bound before the day target, or the day target
    // was reached.
    let mut sim = Simulation::new(1, mixed_population(100)).unwrap();
    sim.run_simulation(StopCondition { days_at_least: 5000, population_above: 1000 });
    assert!(sim.people.len() > 1000 || sim.simulated_days >= 5000);
    assert!(sim.simulated_days <= 5000);
}

#[test]
fn one_day_scenario_from_single_seed() {
    // Seed one individual of age 30, freshly infected; run one day. The
    // seed either ends dead or cured, or stays infected one day longer with
    // up to four newly admitted infections.
    for _ in 0..100 {
        let seed = vec![Person::InSimulation { age: 30, days_since_infection: 0 }];
        let mut sim = Simulation::new(1, seed).unwrap();
        sim.run_simulation(StopCondition { days_at_least: 1, population_above: usize::MAX });
        assert_eq!(sim.simulated_days, 1);
        assert!(!sim.people.is_empty());
        assert!(sim.people.len() <= 1 + 4);
        let carried_ones: Vec<&Person> = sim.people.iter().filter(|p| carried(p)).collect();
        assert_eq!(carried_ones.len(), 1);
        match carried_ones[0] {
            Person::Dead { age } | Person::Cured { age } => {
                assert_eq!(*age, 30);
                assert_eq!(sim.people.len(), 1);
            }
            Person::InSimulation { age, days_since_infection } => {
                assert_eq!(*age, 30);
                assert_eq!(*days_since_infection, 1);
            }
        }
        for p in &sim.people {
            if !carried(p) {
                assert!(p.is_in_simulation());
                assert_eq!(p.days_since_infection(), 0);
                assert!(p.age() <= 100);
            }
        }
    }
}
