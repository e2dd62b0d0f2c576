//! Discrete-time, agent-based epidemic simulator.
//!
//! A population of individuals is advanced day by day through probabilistic
//! state transitions (infection spread, cure, death) driven by age-dependent
//! risk curves, until a caller-supplied stop condition holds.
//!
//! All probabilities are fixed-point fractions of [`person::PROB_SCALE`], so
//! the whole transition rule is integer arithmetic; randomness enters only
//! through uniform integer draws.

pub mod age;
pub mod person;
mod rng;
pub mod sim;
pub mod stats;
pub mod step;

pub use age::sample_age;
pub use person::Person;
pub use sim::SimError;
pub use sim::Simulation;
pub use sim::StopCondition;
pub use stats::age_distribution;
