use covid::age_distribution;
use covid::Person;

#[test]
fn histogram_buckets_ages_by_decade() {
    let people = vec![
        Person::InSimulation { age: 5, days_since_infection: 0 },
        Person::Dead { age: 15 },
        Person::Cured { age: 15 },
        Person::InSimulation { age: 19, days_since_infection: 2 },
        Person::Dead { age: 99 },
        Person::Cured { age: 100 },
    ];
    let hist = age_distribution(&people);
    assert_eq!(hist.get(&0), Some(&1));
    assert_eq!(hist.get(&10), Some(&3));
    assert_eq!(hist.get(&90), Some(&1));
    assert_eq!(hist.get(&100), Some(&1));
    assert_eq!(hist.get(&20), None);
    assert_eq!(hist.len(), 4);
}

#[test]
fn histogram_of_empty_population_is_empty() {
    let hist = age_distribution(&Vec::new());
    assert!(hist.is_empty());
}

#[test]
fn histogram_counts_sum_to_population_size() {
    let mut people = Vec::new();
    for k in 0..250u32 {
        people.push(Person::InSimulation { age: (k * 13) % 101, days_since_infection: 0 });
    }
    let hist = age_distribution(&people);
    let total: u32 = hist.values().sum();
    assert_eq!(total as usize, people.len());
}
