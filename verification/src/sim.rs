//! The simulation driver: owns the population across days, picks the
//! sequential or the partitioned stepper by population size, and loops until
//! the caller's stop condition holds.

use crate::person::Person;
use crate::step::day_step_ok;
use crate::step::lemma_day_step_concat;
use crate::step::lemma_day_step_growth;
use crate::step::lemma_day_step_preserves_pop_ok;
use crate::step::lemma_steps_reach_extend;
use crate::step::person_ok;
use crate::step::pop_ok;
use crate::step::pop_steppable;
use crate::step::step_population;
use crate::step::steps_reach;
use vstd::prelude::*;

verus! {

/// Ceiling on the day counts a population may carry when a run starts:
/// leaves enough headroom that no day count can overflow during any run.
pub const DAY_LIMIT: u64 = 0x4000_0000_0000_0000;

/// Why a simulation could not be built.
#[derive(Copy, Clone, Debug, PartialEq, Eq, Structural)]
pub enum SimError {
    /// The driver was asked to partition its work over zero workers.
    ZeroWorkers,
}

/// When a run stops: once the day counter reaches `days_at_least`, or once
/// the population outgrows `population_above`, whichever comes first. The
/// condition is checked once per day, before that day's step.
#[derive(Copy, Clone, Debug, PartialEq, Eq, Structural)]
pub struct StopCondition {
    pub days_at_least: u32,
    pub population_above: usize,
}

impl StopCondition {
    /// Whether the condition holds of a state with this day counter and
    /// this population size.
    pub open spec fn holds_for(self, days: u32, population: int) -> bool {
        days >= self.days_at_least || population > self.population_above as int
    }
}

/// The simulation state: how many days have been completed, and the current
/// population.
pub struct Simulation {
    pub number_of_threads: usize,
    pub simulated_days: u32,
    pub people: Vec<Person>,
}

impl Simulation {
    /// How many workers a partitioned day-step spreads the population over.
    pub open spec fn worker_count(self) -> int {
        self.number_of_threads as int
    }

    /// Builds a driver over a seed population. A zero worker count is an
    /// invalid configuration and fails fast here, not at the first step.
    pub fn new(number_of_threads: usize, initial_population: Vec<Person>) -> (result: Result<
        Simulation,
        SimError,
    >)
        ensures
            result is Ok <==> number_of_threads >= 1,
            result matches Err(e) ==> e == SimError::ZeroWorkers,
            result matches Ok(sim) ==> {
                &&& sim.simulated_days == 0
                &&& sim.people@ == initial_population@
                &&& sim.worker_count() == number_of_threads
            },
    {
        if number_of_threads == 0 {
            Err(SimError::ZeroWorkers)
        } else {
            Ok(Simulation { number_of_threads, simulated_days: 0, people: initial_population })
        }
    }

    /// Advances the whole population by one day in a single control flow:
    /// the sequential stepper.
    pub fn simulate_day(&mut self)
        requires
            pop_steppable(old(self).people@),
            old(self).simulated_days < u32::MAX,
        ensures
            day_step_ok(old(self).people@, final(self).people@),
            final(self).simulated_days == old(self).simulated_days + 1,
            final(self).worker_count() == old(self).worker_count(),
    {
        let next = step_population(&self.people);
        self.people = next;
        self.simulated_days = self.simulated_days + 1;
    }

    /// Advances the population by one day in near-equal contiguous chunks,
    /// one independent stepper run per chunk, and concatenates the chunk
    /// outputs in chunk order: the partitioned stepper. The partition is
    /// purely an execution strategy: the result satisfies exactly the same
    /// day-step relation as the sequential stepper.
    pub fn simulate_day_parallel(&mut self)
        requires
            pop_steppable(old(self).people@),
            old(self).simulated_days < u32::MAX,
            old(self).worker_count() >= 1,
        ensures
            day_step_ok(old(self).people@, final(self).people@),
            final(self).simulated_days == old(self).simulated_days + 1,
            final(self).worker_count() == old(self).worker_count(),
    {
        let n = self.people.len();
        let w = self.number_of_threads;
        proof {
            assert((n % w != 0 ==> n / w < n) && (n > 0 && n % w == 0 ==> n / w >= 1))
                by (nonlinear_arith)
                requires
                    w >= 1,
            ;
        }
        let chunk_size = if n % w == 0 {
            n / w
        } else {
            n / w + 1
        };
        let ghost people = self.people@;
        let mut out: Vec<Person> = Vec::new();
        let mut start: usize = 0;
        while start < n
            invariant
                start <= n,
                n == people.len(),
                self.people@ == people,
                pop_steppable(people),
                n > 0 ==> chunk_size >= 1,
                day_step_ok(people.take(start as int), out@),
            decreases n - start,
        {
            let end = if n - start < chunk_size {
                n
            } else {
                start + chunk_size
            };
            let mut chunk: Vec<Person> = Vec::new();
            let mut j = start;
            while j < end
                invariant
                    start <= j <= end <= n,
                    n == people.len(),
                    self.people@ == people,
                    pop_steppable(people),
                    chunk@ == people.subrange(start as int, j as int),
                decreases end - j,
            {
                let p = self.people[j];
                chunk.push(p);
                proof {
                    assert(chunk@ =~= people.subrange(start as int, j as int + 1));
                }
                j = j + 1;
            }
            proof {
                assert(pop_steppable(chunk@)) by {
                    assert(forall|x: int|
                        0 <= x < chunk@.len() ==> #[trigger] chunk@[x] == people[start as int + x]);
                }
            }
            let mut chunk_out = step_population(&chunk);
            proof {
                lemma_day_step_concat(people.take(start as int), out@, chunk@, chunk_out@);
                assert(people.take(start as int) + chunk@ =~= people.take(end as int));
            }
            out.append(&mut chunk_out);
            start = end;
        }
        proof {
            assert(people.take(n as int) =~= people);
        }
        self.people = out;
        self.simulated_days = self.simulated_days + 1;
    }

    /// Runs day-steps until the stop condition holds, checking it once per
    /// day strictly before that day's step. Picks the partitioned stepper
    /// when the population is large relative to the worker count, the
    /// sequential one otherwise.
    ///
    /// The day counter never runs past the day target: with an unreachable
    /// population bound, a run from day 0 ends on exactly `days_at_least`
    /// completed days, and the final population is reachable from the seed
    /// by exactly that many day-steps.
    pub fn run_simulation(&mut self, stop: StopCondition)
        requires
            old(self).worker_count() >= 1,
            pop_ok(old(self).people@, DAY_LIMIT as int),
        ensures
            stop.holds_for(final(self).simulated_days, final(self).people@.len() as int),
            final(self).simulated_days >= old(self).simulated_days,
            final(self).simulated_days > old(self).simulated_days ==> final(self).simulated_days
                <= stop.days_at_least,
            stop.holds_for(old(self).simulated_days, old(self).people@.len() as int) ==> {
                &&& final(self).simulated_days == old(self).simulated_days
                &&& final(self).people@ == old(self).people@
            },
            final(self).simulated_days > old(self).simulated_days ==> final(self).people@.len()
                <= 5 * stop.population_above as int,
            steps_reach(
                old(self).people@,
                final(self).people@,
                (final(self).simulated_days - old(self).simulated_days) as nat,
            ),
            final(self).worker_count() == old(self).worker_count(),
    {
        let ghost start_days = self.simulated_days;
        let ghost start_people = self.people@;
        let ghost workers = self.worker_count();
        while self.simulated_days < stop.days_at_least && self.people.len()
            <= stop.population_above
            invariant
                self.worker_count() == workers,
                workers >= 1,
                self.simulated_days >= start_days,
                self.simulated_days > start_days ==> self.simulated_days <= stop.days_at_least,
                stop.holds_for(start_days, start_people.len() as int) ==> {
                    &&& self.simulated_days == start_days
                    &&& self.people@ == start_people
                },
                steps_reach(
                    start_people,
                    self.people@,
                    (self.simulated_days - start_days) as nat,
                ),
                pop_ok(
                    self.people@,
                    DAY_LIMIT + self.simulated_days - start_days,
                ),
                self.simulated_days > start_days ==> self.people@.len() <= 5 * stop.population_above as int,
            decreases stop.days_at_least - self.simulated_days,
        {
            let ghost prev_people = self.people@;
            let ghost prev_delta = (self.simulated_days - start_days) as nat;
            proof {
                assert(pop_steppable(self.people@)) by {
                    assert(forall|j: int|
                        0 <= j < self.people@.len() ==> person_ok(
                            #[trigger] self.people@[j],
                            DAY_LIMIT + self.simulated_days - start_days,
                        ));
                }
            }
            if self.people.len() / self.number_of_threads > 1000 {
                self.simulate_day_parallel();
            } else {
                self.simulate_day();
            }
            proof {
                lemma_steps_reach_extend(start_people, prev_people, self.people@, prev_delta);
                lemma_day_step_preserves_pop_ok(
                    prev_people,
                    self.people@,
                    DAY_LIMIT + (prev_delta as int),
                );
                lemma_day_step_growth(prev_people, self.people@);
            }
        }
    }
}

} // verus!
