//! The day-step: what one simulated day does to a whole population, and the
//! laws that hold of it.
//!
//! [`day_step_ok`] is the population-level transition relation: the output
//! is the concatenation of each input individual's contribution, in input
//! order. Both the sequential stepper and every chunk of the partitioned
//! stepper satisfy it, and partitioning composes ([`lemma_day_step_concat`]),
//! so a partitioned day obeys exactly the same relation as a sequential one.

use crate::person::person_outputs_ok;
use crate::person::step_person;
use crate::person::Person;
use vstd::prelude::*;

verus! {

/// An individual in a form a day-step carries forward (as opposed to newly
/// admitting): dead, cured, or infected for at least one day.
pub open spec fn carried_form(q: Person) -> bool {
    q is Dead || q is Cured || (q is InSimulation && q.spec_days() >= 1)
}

/// How many individuals of a population are in carried form.
pub open spec fn count_carried(s: Seq<Person>) -> nat
    decreases s.len(),
{
    if s.len() == 0 {
        0
    } else {
        count_carried(s.drop_last()) + if carried_form(s.last()) {
            1nat
        } else {
            0nat
        }
    }
}

/// How many individuals of a population are in carried form and of age `a`.
pub open spec fn count_carried_of_age(s: Seq<Person>, a: int) -> nat
    decreases s.len(),
{
    if s.len() == 0 {
        0
    } else {
        count_carried_of_age(s.drop_last(), a) + if carried_form(s.last()) && s.last().spec_age()
            == a {
            1nat
        } else {
            0nat
        }
    }
}

/// How many individuals of a population are of age `a`.
pub open spec fn count_of_age(s: Seq<Person>, a: int) -> nat
    decreases s.len(),
{
    if s.len() == 0 {
        0
    } else {
        count_of_age(s.drop_last(), a) + if s.last().spec_age() == a {
            1nat
        } else {
            0nat
        }
    }
}

/// Every individual's age is in `[0, 100]` and no infection is older than
/// `dmax` days: the population invariant, with the day bound that makes the
/// day counter's increment free of overflow.
pub open spec fn person_ok(p: Person, dmax: int) -> bool {
    p.spec_age() <= 100 && (p is InSimulation ==> p.spec_days() <= dmax)
}

/// The population invariant, element-wise.
pub open spec fn pop_ok(s: Seq<Person>, dmax: int) -> bool {
    forall|j: int| 0 <= j < s.len() ==> person_ok(#[trigger] s[j], dmax)
}

/// A population a day-step can be applied to: every infection's day count
/// can still be incremented.
pub open spec fn pop_steppable(s: Seq<Person>) -> bool {
    forall|j: int|
        0 <= j < s.len() ==> ((#[trigger] s[j]) is InSimulation ==> s[j].spec_days() < u64::MAX)
}

/// The population-level transition relation: `out` is the concatenation, in
/// input order, of one valid per-individual contribution for each individual
/// of `inp`.
pub open spec fn day_step_ok(inp: Seq<Person>, out: Seq<Person>) -> bool
    decreases inp.len(),
{
    if inp.len() == 0 {
        out.len() == 0
    } else {
        exists|k: int|
            #![auto]
            0 <= k <= out.len() && day_step_ok(inp.drop_last(), out.take(k)) && person_outputs_ok(
                inp.last(),
                out.skip(k),
            )
    }
}

/// A day-step extends by one more individual and its contribution.
pub proof fn lemma_day_step_extend(inp: Seq<Person>, out: Seq<Person>, p: Person, block: Seq<Person>)
    requires
        day_step_ok(inp, out),
        person_outputs_ok(p, block),
    ensures
        day_step_ok(inp.push(p), out + block),
{
    let k = out.len() as int;
    assert(inp.push(p).drop_last() =~= inp);
    assert((out + block).take(k) =~= out);
    assert((out + block).skip(k) =~= block);
    assert(day_step_ok(inp.push(p).drop_last(), (out + block).take(k)));
    assert(person_outputs_ok(inp.push(p).last(), (out + block).skip(k)));
}

/// Partitioning is sound: a day-step of one chunk followed by a day-step of
/// another is a day-step of their concatenation. This is why splitting the
/// population into chunks and concatenating the chunk outputs leaves the
/// transition relation exactly as in the sequential case.
pub proof fn lemma_day_step_concat(i1: Seq<Person>, o1: Seq<Person>, i2: Seq<Person>, o2: Seq<Person>)
    requires
        day_step_ok(i1, o1),
        day_step_ok(i2, o2),
    ensures
        day_step_ok(i1 + i2, o1 + o2),
    decreases i2.len(),
{
    if i2.len() == 0 {
        assert(i1 + i2 =~= i1);
        assert(o1 + o2 =~= o1);
    } else {
        let k = choose|k: int|
            #![auto]
            0 <= k <= o2.len() && day_step_ok(i2.drop_last(), o2.take(k)) && person_outputs_ok(
                i2.last(),
                o2.skip(k),
            );
        lemma_day_step_concat(i1, o1, i2.drop_last(), o2.take(k));
        lemma_day_step_extend(i1 + i2.drop_last(), o1 + o2.take(k), i2.last(), o2.skip(k));
        assert((i1 + i2.drop_last()).push(i2.last()) =~= i1 + i2);
        assert((o1 + o2.take(k)) + o2.skip(k) =~= o1 + o2);
    }
}

/// Counting carried individuals distributes over concatenation.
proof fn lemma_count_carried_add(a: Seq<Person>, b: Seq<Person>)
    ensures
        count_carried(a + b) == count_carried(a) + count_carried(b),
    decreases b.len(),
{
    if b.len() == 0 {
        assert(a + b =~= a);
    } else {
        assert((a + b).drop_last() =~= a + b.drop_last());
        lemma_count_carried_add(a, b.drop_last());
    }
}

/// Counting carried individuals of one age distributes over concatenation.
proof fn lemma_count_carried_of_age_add(a: Seq<Person>, b: Seq<Person>, age: int)
    ensures
        count_carried_of_age(a + b, age) == count_carried_of_age(a, age) + count_carried_of_age(
            b,
            age,
        ),
    decreases b.len(),
{
    if b.len() == 0 {
        assert(a + b =~= a);
    } else {
        assert((a + b).drop_last() =~= a + b.drop_last());
        lemma_count_carried_of_age_add(a, b.drop_last(), age);
    }
}

/// Counting individuals of one age distributes over concatenation.
proof fn lemma_count_of_age_add(a: Seq<Person>, b: Seq<Person>, age: int)
    ensures
        count_of_age(a + b, age) == count_of_age(a, age) + count_of_age(b, age),
    decreases b.len(),
{
    if b.len() == 0 {
        assert(a + b =~= a);
    } else {
        assert((a + b).drop_last() =~= a + b.drop_last());
        lemma_count_of_age_add(a, b.drop_last(), age);
    }
}

/// Counting over a one-individual population.
proof fn lemma_counts_singleton(q: Person, age: int)
    ensures
        count_carried(seq![q]) == (if carried_form(q) {
            1nat
        } else {
            0nat
        }),
        count_carried_of_age(seq![q], age) == (if carried_form(q) && q.spec_age() == age {
            1nat
        } else {
            0nat
        }),
{
    assert(seq![q].drop_last() =~= Seq::<Person>::empty());
    assert(count_carried(seq![q].drop_last()) == 0);
    assert(count_carried_of_age(seq![q].drop_last(), age) == 0);
}

/// One individual's contribution holds exactly one carried individual, of
/// the individual's own age; everything else it holds is a new infection.
proof fn lemma_person_outputs_counts(p: Person, block: Seq<Person>, age: int)
    requires
        person_outputs_ok(p, block),
    ensures
        block.len() >= 1,
        count_carried(block) == 1,
        count_carried_of_age(block, age) == (if p.spec_age() == age {
            1nat
        } else {
            0nat
        }),
    decreases block.len(),
{
    match p {
        Person::Dead { .. } => {
            assert(block =~= seq![p]);
            lemma_counts_singleton(p, age);
        },
        Person::Cured { .. } => {
            assert(block =~= seq![p]);
            lemma_counts_singleton(p, age);
        },
        Person::InSimulation { age: a, .. } => {
            if block == seq![(Person::Dead { age: a })] {
                lemma_counts_singleton(Person::Dead { age: a }, age);
            } else if block == seq![(Person::Cured { age: a })] {
                lemma_counts_singleton(Person::Cured { age: a }, age);
            } else {
                let news = block.drop_last();
                assert(carried_form(block.last()));
                assert(block.last().spec_age() == a);
                lemma_new_infections_counts(news, age);
            }
        },
    }
}

/// A run of new infections holds nothing in carried form.
proof fn lemma_new_infections_counts(s: Seq<Person>, age: int)
    requires
        forall|j: int| 0 <= j < s.len() ==> (#[trigger] s[j]).is_new_infection(),
    ensures
        count_carried(s) == 0,
        count_carried_of_age(s, age) == 0,
    decreases s.len(),
{
    if s.len() > 0 {
        assert(!carried_form(s.last()));
        lemma_new_infections_counts(s.drop_last(), age);
    }
}

/// Population conservation: a day-step never shrinks the population, and the
/// individuals the output carries forward — the dead, the cured, and the
/// incremented infections — are exactly one per input individual. The rest
/// of the output are newly admitted infections.
pub proof fn lemma_day_step_conserves(inp: Seq<Person>, out: Seq<Person>)
    requires
        day_step_ok(inp, out),
    ensures
        out.len() >= inp.len(),
        count_carried(out) == inp.len(),
    decreases inp.len(),
{
    if inp.len() == 0 {
        assert(out =~= Seq::<Person>::empty());
    } else {
        let k = choose|k: int|
            #![auto]
            0 <= k <= out.len() && day_step_ok(inp.drop_last(), out.take(k)) && person_outputs_ok(
                inp.last(),
                out.skip(k),
            );
        lemma_day_step_conserves(inp.drop_last(), out.take(k));
        lemma_person_outputs_counts(inp.last(), out.skip(k), 0);
        lemma_count_carried_add(out.take(k), out.skip(k));
        assert(out.take(k) + out.skip(k) =~= out);
    }
}

/// Age immutability: for every age, a day-step carries forward exactly as
/// many individuals of that age as the input held — no carried individual's
/// age ever changes. (New admissions, whose age the sampler draws, are not
/// in carried form.)
pub proof fn lemma_day_step_preserves_ages(inp: Seq<Person>, out: Seq<Person>, age: int)
    requires
        day_step_ok(inp, out),
    ensures
        count_carried_of_age(out, age) == count_of_age(inp, age),
    decreases inp.len(),
{
    if inp.len() == 0 {
        assert(out =~= Seq::<Person>::empty());
    } else {
        let k = choose|k: int|
            #![auto]
            0 <= k <= out.len() && day_step_ok(inp.drop_last(), out.take(k)) && person_outputs_ok(
                inp.last(),
                out.skip(k),
            );
        lemma_day_step_preserves_ages(inp.drop_last(), out.take(k), age);
        lemma_person_outputs_counts(inp.last(), out.skip(k), age);
        lemma_count_carried_of_age_add(out.take(k), out.skip(k), age);
        assert(out.take(k) + out.skip(k) =~= out);
    }
}

/// Bounded growth: one individual contributes at most itself (possibly
/// transitioned) plus one admission per contact event, so a day-step grows
/// the population at most fivefold.
pub proof fn lemma_day_step_growth(inp: Seq<Person>, out: Seq<Person>)
    requires
        day_step_ok(inp, out),
    ensures
        out.len() <= 5 * inp.len(),
    decreases inp.len(),
{
    if inp.len() == 0 {
    } else {
        let k = choose|k: int|
            #![auto]
            0 <= k <= out.len() && day_step_ok(inp.drop_last(), out.take(k)) && person_outputs_ok(
                inp.last(),
                out.skip(k),
            );
        lemma_day_step_growth(inp.drop_last(), out.take(k));
        assert(out.skip(k).len() <= 5);
    }
}

/// A day-step preserves the population invariant, ageing every infection by
/// at most one day.
pub proof fn lemma_day_step_preserves_pop_ok(inp: Seq<Person>, out: Seq<Person>, dmax: int)
    requires
        day_step_ok(inp, out),
        pop_ok(inp, dmax),
        dmax >= 0,
    ensures
        pop_ok(out, dmax + 1),
    decreases inp.len(),
{
    if inp.len() == 0 {
        assert(out =~= Seq::<Person>::empty());
    } else {
        let k = choose|k: int|
            #![auto]
            0 <= k <= out.len() && day_step_ok(inp.drop_last(), out.take(k)) && person_outputs_ok(
                inp.last(),
                out.skip(k),
            );
        assert(pop_ok(inp.drop_last(), dmax)) by {
            assert(forall|j: int|
                0 <= j < inp.drop_last().len() ==> #[trigger] inp.drop_last()[j] == inp[j]);
        }
        lemma_day_step_preserves_pop_ok(inp.drop_last(), out.take(k), dmax);
        let p = inp.last();
        let block = out.skip(k);
        assert(person_ok(p, dmax));
        assert(forall|j: int| 0 <= j < block.len() ==> person_ok(#[trigger] block[j], dmax + 1)) by {
            match p {
                Person::Dead { .. } => {
                    assert(block =~= seq![p]);
                },
                Person::Cured { .. } => {
                    assert(block =~= seq![p]);
                },
                Person::InSimulation { .. } => {
                },
            }
        }
        assert forall|j: int| 0 <= j < out.len() implies person_ok(#[trigger] out[j], dmax + 1) by {
            if j < k {
                assert(out[j] == out.take(k)[j]);
            } else {
                assert(out[j] == block[j - k]);
            }
        }
    }
}

/// Zero or more day-steps lead from `p0` to `p1`.
pub open spec fn steps_reach(p0: Seq<Person>, p1: Seq<Person>, k: nat) -> bool
    decreases k,
{
    if k == 0 {
        p1 == p0
    } else {
        exists|mid: Seq<Person>|
            #![auto]
            steps_reach(p0, mid, (k - 1) as nat) && day_step_ok(mid, p1)
    }
}

/// One more day-step extends reachability by one.
pub proof fn lemma_steps_reach_extend(p0: Seq<Person>, p1: Seq<Person>, p2: Seq<Person>, k: nat)
    requires
        steps_reach(p0, p1, k),
        day_step_ok(p1, p2),
    ensures
        steps_reach(p0, p2, k + 1),
{
    assert(steps_reach(p0, p1, ((k + 1) - 1) as nat));
}

/// Advances every individual of a population by one day, in order, and
/// returns the next day's population: the reference (sequential) stepper,
/// and the work one partitioned chunk does.
pub fn step_population(people: &Vec<Person>) -> (out: Vec<Person>)
    requires
        pop_steppable(people@),
    ensures
        day_step_ok(people@, out@),
{
    let mut out: Vec<Person> = Vec::new();
    let mut i: usize = 0;
    while i < people.len()
        invariant
            i <= people@.len(),
            pop_steppable(people@),
            day_step_ok(people@.take(i as int), out@),
        decreases people@.len() - i,
    {
        let mut block = step_person(people[i]);
        proof {
            lemma_day_step_extend(people@.take(i as int), out@, people@[i as int], block@);
            assert(people@.take(i as int).push(people@[i as int]) =~= people@.take(i as int + 1));
        }
        out.append(&mut block);
        i = i + 1;
    }
    proof {
        assert(people@.take(people@.len() as int) =~= people@);
    }
    out
}

} // verus!
