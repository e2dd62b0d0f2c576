//! One simulated agent and its per-day transition rule.
//!
//! An individual is a closed tagged value: still infected, dead, or cured.
//! The age is set once at creation and never changes; `Dead` and `Cured`
//! are terminal. Each simulated day an infected individual first draws
//! against its death chance, then against its cure chance, and otherwise
//! stays infected one day longer and causes a fixed number of contact
//! events, each of which may admit a freshly sampled, newly infected
//! individual into the population.

use crate::age::sample_age;
use crate::age::CDF_SCALE;
use crate::rng::draw_below;
use vstd::prelude::*;

verus! {

/// Denominator of every fixed-point probability in this crate: a chance `c`
/// stands for the real probability `c / PROB_SCALE`, so `0` is "never" and
/// `PROB_SCALE` is "always".
pub const PROB_SCALE: u64 = 1_000_000_000;

/// `e^(-1/10)` scaled by `PROB_SCALE`, rounded: the per-day decay factor of
/// the term `e^(-days/10)` in the cure chance.
pub const DECAY_PER_DAY: u64 = 904_837_418;

/// One agent: its epidemiological state, its age, and (while infected) how
/// many days it has been infected.
#[derive(Copy, Clone, Debug, PartialEq, Eq, Structural)]
pub enum Person {
    InSimulation { age: u32, days_since_infection: u64 },
    Dead { age: u32 },
    Cured { age: u32 },
}

impl Person {
    /// The age of the individual, defined in every state.
    pub open spec fn spec_age(self) -> u32 {
        match self {
            Person::InSimulation { age, .. } => age,
            Person::Dead { age } => age,
            Person::Cured { age } => age,
        }
    }

    /// Days since infection; meaningful only in the infected state.
    pub open spec fn spec_days(self) -> u64 {
        match self {
            Person::InSimulation { days_since_infection, .. } => days_since_infection,
            _ => 0,
        }
    }

    /// A freshly sampled, newly infected individual: infected for zero days,
    /// with an age the sampler can produce.
    pub open spec fn is_new_infection(self) -> bool {
        match self {
            Person::InSimulation { age, days_since_infection } => days_since_infection == 0
                && age <= 100,
            _ => false,
        }
    }

    /// Samples a brand-new infected individual from the empirical age
    /// distribution, with `days_since_infection == 0`.
    pub fn new_in_simulation() -> (p: Person)
        ensures
            p.is_new_infection(),
            p is InSimulation,
            p.spec_age() <= 100,
            p.spec_days() == 0,
    {
        let u = draw_below(CDF_SCALE);
        let age = sample_age(u);
        Person::InSimulation { age, days_since_infection: 0 }
    }

    /// Whether the individual is still part of the infection dynamics.
    pub fn is_in_simulation(&self) -> (b: bool)
        ensures
            b == (*self is InSimulation),
    {
        match self {
            Person::InSimulation { .. } => true,
            _ => false,
        }
    }

    /// Whether the individual has died.
    pub fn is_dead(&self) -> (b: bool)
        ensures
            b == (*self is Dead),
    {
        match self {
            Person::Dead { .. } => true,
            _ => false,
        }
    }

    /// Whether the individual has been cured.
    pub fn is_cured(&self) -> (b: bool)
        ensures
            b == (*self is Cured),
    {
        match self {
            Person::Cured { .. } => true,
            _ => false,
        }
    }

    /// The age, valid in every state.
    pub fn age(self) -> (age: u32)
        ensures
            age == self.spec_age(),
    {
        match self {
            Person::InSimulation { age, .. } => age,
            Person::Dead { age } => age,
            Person::Cured { age } => age,
        }
    }

    /// Days since infection. Asking this of a dead or cured individual is a
    /// caller error: verified callers are ruled out, an unverified one fails
    /// loudly instead of getting a sentinel.
    pub fn days_since_infection(self) -> (d: u64)
        requires
            self is InSimulation,
        ensures
            d == self.spec_days(),
    {
        match self {
            Person::InSimulation { days_since_infection, .. } => days_since_infection,
            _ => vstd::pervasive::unreached(),
        }
    }
}

/// Chance (as a fraction of `PROB_SCALE`) that an infected individual of
/// this age dies on a given day: a base rate of 0.065 scaled by an
/// age-bracket multiplier.
pub open spec fn death_chance_spec(age: u32) -> int {
    if age <= 9 {
        0
    } else if age <= 39 {
        130_000
    } else if age <= 49 {
        260_000
    } else if age <= 59 {
        845_000
    } else if age <= 69 {
        2_340_000
    } else if age <= 79 {
        5_200_000
    } else {
        9_620_000
    }
}

/// Chance that a contact of this age catches the infection: a base rate of
/// 0.28 scaled by an age-bracket susceptibility multiplier. Evaluated on the
/// candidate contact, not on the infector.
pub open spec fn infection_chance_spec(age: u32) -> int {
    if age <= 9 {
        14_000_000
    } else if age <= 19 {
        28_000_000
    } else if age <= 39 {
        56_000_000
    } else {
        112_000_000
    }
}

/// Fixed-point `e^(-d/10)` scaled by `PROB_SCALE`: one truncating
/// multiplication by `DECAY_PER_DAY / PROB_SCALE` per day of infection.
pub open spec fn infection_decay(d: nat) -> int
    decreases d,
{
    if d == 0 {
        PROB_SCALE as int
    } else {
        infection_decay((d - 1) as nat) * DECAY_PER_DAY / PROB_SCALE as int
    }
}

/// The decay factor stays a probability: within `[0, PROB_SCALE]`.
pub proof fn lemma_infection_decay_bounds(d: nat)
    ensures
        0 <= infection_decay(d) <= PROB_SCALE,
    decreases d,
{
    if d > 0 {
        lemma_infection_decay_bounds((d - 1) as nat);
        let prev = infection_decay((d - 1) as nat);
        assert(0 <= prev * DECAY_PER_DAY <= prev * PROB_SCALE) by (nonlinear_arith)
            requires
                0 <= prev <= PROB_SCALE,
        ;
        assert(prev * DECAY_PER_DAY / PROB_SCALE as int <= prev) by (nonlinear_arith)
            requires
                0 <= prev * DECAY_PER_DAY <= prev * PROB_SCALE,
        ;
        assert(prev * DECAY_PER_DAY / PROB_SCALE as int >= 0) by (nonlinear_arith)
            requires
                0 <= prev * DECAY_PER_DAY,
        ;
    }
}

/// Once the fixed-point decay reaches zero it stays zero.
proof fn lemma_infection_decay_zero(i: nat, d: nat)
    requires
        i <= d,
        infection_decay(i) == 0,
    ensures
        infection_decay(d) == 0,
    decreases d - i,
{
    if i < d {
        lemma_infection_decay_zero(i, (d - 1) as nat);
    }
}

/// Chance that an infected individual of this age, infected for `d` days,
/// is cured on a given day: `(1 - e^(-d/10)) * 10 / age`, self-clamped to a
/// probability. An age of zero sends the unclamped value to infinity, so
/// any nonzero rise clamps straight to certainty.
pub open spec fn cure_chance_spec(age: u32, d: nat) -> int {
    let rise = PROB_SCALE - infection_decay(d);
    if age == 0 {
        if rise == 0 {
            0
        } else {
            PROB_SCALE as int
        }
    } else if rise * 10 / age as int > PROB_SCALE {
        PROB_SCALE as int
    } else {
        rise * 10 / age as int
    }
}

/// Exec mirror of [`death_chance_spec`]; always a probability.
pub fn death_chance(age: u32) -> (c: u64)
    ensures
        c as int == death_chance_spec(age),
        c <= PROB_SCALE,
{
    if age <= 9 {
        0
    } else if age <= 39 {
        130_000
    } else if age <= 49 {
        260_000
    } else if age <= 59 {
        845_000
    } else if age <= 69 {
        2_340_000
    } else if age <= 79 {
        5_200_000
    } else {
        9_620_000
    }
}

/// Exec mirror of [`infection_chance_spec`]; always a probability.
pub fn infection_chance(age: u32) -> (c: u64)
    ensures
        c as int == infection_chance_spec(age),
        c <= PROB_SCALE,
{
    if age <= 9 {
        14_000_000
    } else if age <= 19 {
        28_000_000
    } else if age <= 39 {
        56_000_000
    } else {
        112_000_000
    }
}

/// Computes the fixed-point decay factor `e^(-d/10)`, stopping early once it
/// has decayed to nothing.
fn decay_factor(d: u64) -> (r: u64)
    ensures
        r as int == infection_decay(d as nat),
        r <= PROB_SCALE,
{
    let mut r: u64 = PROB_SCALE;
    let mut i: u64 = 0;
    while i < d && r > 0
        invariant
            i <= d,
            r as int == infection_decay(i as nat),
            r <= PROB_SCALE,
        decreases d - i,
    {
        r = r * DECAY_PER_DAY / PROB_SCALE;
        i = i + 1;
        proof {
            lemma_infection_decay_bounds(i as nat);
        }
    }
    proof {
        if r == 0 {
            lemma_infection_decay_zero(i as nat, d as nat);
        }
    }
    r
}

/// Exec mirror of [`cure_chance_spec`]; always a probability.
pub fn cure_chance(age: u32, d: u64) -> (c: u64)
    ensures
        c as int == cure_chance_spec(age, d as nat),
        c <= PROB_SCALE,
{
    let decay = decay_factor(d);
    let rise = PROB_SCALE - decay;
    if age == 0 {
        if rise == 0 {
            0
        } else {
            PROB_SCALE
        }
    } else {
        let c = rise * 10 / (age as u64);
        if c > PROB_SCALE {
            PROB_SCALE
        } else {
            c
        }
    }
}

/// Number of contact events an infected individual causes per simulated
/// day: four while freshly infected, two afterwards.
pub open spec fn contacts_spec(d: u64) -> int {
    if d <= 7 {
        4
    } else {
        2
    }
}

/// Exec mirror of [`contacts_spec`].
pub fn contacts_per_day(days_since_infection: u64) -> (n: usize)
    ensures
        n as int == contacts_spec(days_since_infection),
{
    if days_since_infection <= 7 {
        4
    } else {
        2
    }
}

/// What one day does to one individual: `outs` is everything the individual
/// contributes to the next day's population.
///
/// A dead or cured individual passes through unchanged. An infected one
/// either dies, is cured, or stays infected one day longer — in the last
/// case `outs` ends with the incremented individual, preceded by the newly
/// admitted infections (at most one per contact event) from its contacts.
/// Death is checked before cure: the two are mutually exclusive by
/// construction.
pub open spec fn person_outputs_ok(p: Person, outs: Seq<Person>) -> bool {
    match p {
        Person::Dead { .. } => outs == seq![p],
        Person::Cured { .. } => outs == seq![p],
        Person::InSimulation { age, days_since_infection: d } => d < u64::MAX && (outs == seq![
            (Person::Dead { age }),
        ] || outs == seq![(Person::Cured { age })] || {
            &&& 1 <= outs.len() <= 1 + contacts_spec(d)
            &&& outs.last() == (Person::InSimulation {
                age,
                days_since_infection: (d + 1) as u64,
            })
            &&& forall|j: int| 0 <= j < outs.len() - 1 ==> (#[trigger] outs[j]).is_new_infection()
        }),
    }
}

/// Applies the per-day transition rule to one individual and returns its
/// contribution to the next day's population.
pub fn step_person(p: Person) -> (outs: Vec<Person>)
    requires
        p is InSimulation ==> p.spec_days() < u64::MAX,
    ensures
        person_outputs_ok(p, outs@),
        (p is Dead || p is Cured) ==> outs@ == seq![p],
{
    match p {
        Person::Dead { .. } => {
            let outs = vec![p];
            proof {
                assert(outs@ =~= seq![p]);
            }
            outs
        },
        Person::Cured { .. } => {
            let outs = vec![p];
            proof {
                assert(outs@ =~= seq![p]);
            }
            outs
        },
        Person::InSimulation { age, days_since_infection } => {
            let death_draw = draw_below(PROB_SCALE);
            if death_draw < death_chance(age) {
                let outs = vec![Person::Dead { age }];
                proof {
                    assert(outs@ =~= seq![(Person::Dead { age })]);
                }
                outs
            } else {
                let cure_draw = draw_below(PROB_SCALE);
                if cure_draw < cure_chance(age, days_since_infection) {
                    let outs = vec![Person::Cured { age }];
                    proof {
                        assert(outs@ =~= seq![(Person::Cured { age })]);
                    }
                    outs
                } else {
                    let contacts = contacts_per_day(days_since_infection);
                    let mut outs: Vec<Person> = Vec::new();
                    let mut met: usize = 0;
                    while met < contacts
                        invariant
                            outs@.len() <= met <= contacts,
                            contacts as int == contacts_spec(days_since_infection),
                            forall|j: int|
                                0 <= j < outs@.len() ==> (#[trigger] outs@[j]).is_new_infection(),
                        decreases contacts - met,
                    {
                        let candidate = Person::new_in_simulation();
                        let admission_draw = draw_below(PROB_SCALE);
                        if admission_draw < infection_chance(candidate.age()) {
                            outs.push(candidate);
                        }
                        met = met + 1;
                    }
                    outs.push(
                        Person::InSimulation { age, days_since_infection: days_since_infection + 1 },
                    );
                    outs
                }
            }
        },
    }
}

} // verus!
