//! Aggregate statistics over a population: the decade-bucketed age
//! histogram that callers read after a run.

use crate::person::Person;
use std::collections::HashMap;
use vstd::prelude::*;

verus! {

broadcast use vstd::std_specs::hash::group_hash_axioms;

/// The decade bucket an age falls in: `10 * (age / 10)`.
pub open spec fn decade_of(age: u32) -> int {
    10 * (age as int / 10)
}

/// How many individuals of the population fall in decade bucket `d`.
pub open spec fn count_in_decade(s: Seq<Person>, d: int) -> nat
    decreases s.len(),
{
    if s.len() == 0 {
        0
    } else {
        count_in_decade(s.drop_last(), d) + if decade_of(s.last().spec_age()) == d {
            1nat
        } else {
            0nat
        }
    }
}

/// Counting a decade distributes over dropping the last element of a
/// prefix.
proof fn lemma_count_in_decade_take(s: Seq<Person>, d: int, i: int)
    requires
        0 <= i < s.len(),
    ensures
        count_in_decade(s.take(i + 1), d) == count_in_decade(s.take(i), d) + if decade_of(
            s[i].spec_age(),
        ) == d {
            1nat
        } else {
            0nat
        },
{
    assert(s.take(i + 1).drop_last() =~= s.take(i));
    assert(s.take(i + 1).last() == s[i]);
}

/// Buckets a population's ages into decades: maps each decade that occurs
/// to how many individuals fall in it, and holds no other key.
pub fn age_distribution(group: &Vec<Person>) -> (hist: HashMap<u32, u32>)
    requires
        group@.len() <= u32::MAX,
    ensures
        forall|d: u32| #[trigger]
            hist@.contains_key(d) <==> count_in_decade(group@, d as int) > 0,
        forall|d: u32| #[trigger]
            hist@.contains_key(d) ==> hist@[d] as nat == count_in_decade(group@, d as int),
{
    let mut hist: HashMap<u32, u32> = HashMap::new();
    let mut i: usize = 0;
    while i < group.len()
        invariant
            i <= group@.len() <= u32::MAX,
            forall|d: u32| #[trigger]
                hist@.contains_key(d) <==> count_in_decade(group@.take(i as int), d as int) > 0,
            forall|d: u32| #[trigger]
                hist@.contains_key(d) ==> hist@[d] as nat == count_in_decade(
                    group@.take(i as int),
                    d as int,
                ),
            forall|d: u32|
                count_in_decade(group@.take(i as int), d as int) <= i,
        decreases group@.len() - i,
    {
        let age = group[i].age();
        proof {
            assert(age / 10 * 10 <= age) by (nonlinear_arith);
        }
        let bucket = 10 * (age / 10);
        assert(bucket as int == decade_of(age));
        let count = match hist.get(&bucket) {
            Some(c) => *c,
            None => 0,
        };
        hist.insert(bucket, count + 1);
        proof {
            assert forall|d: u32| #[trigger]
                count_in_decade(group@.take(i as int + 1), d as int) == count_in_decade(
                    group@.take(i as int),
                    d as int,
                ) + (if decade_of(group@[i as int].spec_age()) == d {
                    1nat
                } else {
                    0nat
                }) by {
                lemma_count_in_decade_take(group@, d as int, i as int);
            }
        }
        i = i + 1;
    }
    proof {
        assert(group@.take(group@.len() as int) =~= group@);
    }
    hist
}

} // verus!
