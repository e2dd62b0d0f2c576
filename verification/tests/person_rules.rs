use covid::person::contacts_per_day;
use covid::person::cure_chance;
use covid::person::death_chance;
use covid::person::infection_chance;
use covid::person::step_person;
use covid::person::PROB_SCALE;
use covid::Person;

#[test]
fn death_chance_by_age_bracket() {
    assert_eq!(death_chance(0), 0);
    assert_eq!(death_chance(9), 0);
    assert_eq!(death_chance(10), 130_000);
    assert_eq!(death_chance(39), 130_000);
    assert_eq!(death_chance(45), 260_000);
    assert_eq!(death_chance(55), 845_000);
    assert_eq!(death_chance(65), 2_340_000);
    assert_eq!(death_chance(75), 5_200_000);
    assert_eq!(death_chance(80), 9_620_000);
    assert_eq!(death_chance(100), 9_620_000);
}

#[test]
fn infection_chance_by_age_bracket() {
    assert_eq!(infection_chance(5), 14_000_000);
    assert_eq!(infection_chance(15), 28_000_000);
    assert_eq!(infection_chance(30), 56_000_000);
    assert_eq!(infection_chance(60), 112_000_000);
}

#[test]
fn cure_chance_values() {
    // On the day of infection the decay term is exactly 1, so the chance is 0.
    assert_eq!(cure_chance(30, 0), 0);
    assert_eq!(cure_chance(0, 0), 0);
    // Age zero sends the unclamped value to infinity: clamps to certainty.
    assert_eq!(cure_chance(0, 5), PROB_SCALE);
    // Exact fixed-point values.
    assert_eq!(cure_chance(30, 10), 210_706_854);
    assert_eq!(cure_chance(80, 3), 32_397_722);
    assert_eq!(cure_chance(5, 2), 362_538_494);
}

#[test]
fn cure_chance_is_a_probability() {
    for age in [0u32, 1, 5, 30, 70, 100] {
        for d in [0u64, 1, 2, 10, 100, 1000] {
            assert!(cure_chance(age, d) <= PROB_SCALE);
        }
    }
}

#[test]
fn contacts_per_day_values() {
    assert_eq!(contacts_per_day(0), 4);
    assert_eq!(contacts_per_day(7), 4);
    assert_eq!(contacts_per_day(8), 2);
    assert_eq!(contacts_per_day(1000), 2);
}

#[test]
fn person_accessors() {
    let p = Person::InSimulation { age: 42, days_since_infection: 3 };
    assert!(p.is_in_simulation());
    assert!(!p.is_dead());
    assert!(!p.is_cured());
    assert_eq!(p.age(), 42);
    assert_eq!(p.days_since_infection(), 3);

    let d = Person::Dead { age: 90 };
    assert!(d.is_dead());
    assert_eq!(d.age(), 90);

    let c = Person::Cured { age: 7 };
    assert!(c.is_cured());
    assert_eq!(c.age(), 7);
}

#[test]
fn new_in_simulation_is_fresh() {
    for _ in 0..100 {
        let p = Person::new_in_simulation();
        assert!(p.is_in_simulation());
        assert_eq!(p.days_since_infection(), 0);
        assert!(p.age() <= 100);
    }
}

#[test]
fn terminal_states_are_stable() {
    // Applying the transition rule to a dead or cured individual leaves it
    // bit-for-bit unchanged, however often it is applied.
    for _ in 0..50 {
        let dead = Person::Dead { age: 66 };
        assert_eq!(step_person(dead), vec![dead]);
        let cured = Person::Cured { age: 3 };
        assert_eq!(step_person(cured), vec![cured]);
    }
}

#[test]
fn step_person_outputs_are_well_formed() {
    for _ in 0..200 {
        let p = Person::InSimulation { age: 50, days_since_infection: 2 };
        let outs = step_person(p);
        assert!(!outs.is_empty());
        assert!(outs.len() <= 1 + 4);
        let last = outs[outs.len() - 1];
        match last {
            Person::Dead { age } | Person::Cured { age } => {
                assert_eq!(age, 50);
                assert_eq!(outs.len(), 1);
            }
            Person::InSimulation { age, days_since_infection } => {
                assert_eq!(age, 50);
                assert_eq!(days_since_infection, 3);
                for q in &outs[..outs.len() - 1] {
                    match q {
                        Person::InSimulation { age, days_since_infection } => {
                            assert!(*age <= 100);
                            assert_eq!(*days_since_infection, 0);
                        }
                        _ => panic!("admitted individual is not newly infected"),
                    }
                }
            }
        }
    }
}

#[test]
fn sampled_ages_are_spread_by_the_cdf() {
    // A run of fresh draws must produce more than one age: the sampler maps
    // the full draw range onto [0, 100], so 300 identical results would mean
    // the draws are not being taken from the whole range.
    let ages: Vec<u32> = (0..300).map(|_| Person::new_in_simulation().age()).collect();
    assert!(ages.iter().any(|a| *a < 100));
    assert!(ages.iter().any(|a| *a > 0));
}

#[test]
fn transitions_do_occur() {
    // An individual of age 30 infected for 10 days has a cure chance of
    // about a fifth per day, and each of its contacts is admitted with a
    // few percent probability: over 300 independent days all three outcomes
    // (cure, staying infected, at least one admission) must each occur.
    let mut cured = 0u32;
    let mut remained = 0u32;
    let mut admissions = 0u32;
    for _ in 0..300 {
        let outs = step_person(Person::InSimulation { age: 30, days_since_infection: 10 });
        match outs[outs.len() - 1] {
            Person::Cured { .. } => cured += 1,
            Person::InSimulation { .. } => {
                remained += 1;
                admissions += (outs.len() - 1) as u32;
            }
            Person::Dead { .. } => {}
        }
    }
    assert!(cured > 0, "no cure in 300 days");
    assert!(remained > 0, "never stayed infected over 300 days");
    assert!(admissions > 0, "no admission over 300 days");
}
