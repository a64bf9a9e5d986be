//! Stochastic simulation of a population of replicating, mutating agents in a
//! randomly switching environment, and the statistics of its trajectories.
//!
//! Every real-valued quantity (rate, probability, strategy component) is held
//! as an unsigned integer count of [`units::UNIT`]-ths, so that the rules of
//! the simulation are exact and can be stated and proved. What is real by
//! nature stays with the caller: the engine hands out the rate of the time
//! to the next event and takes in the noise of a mutation, and the
//! statistics give sums and choices, of which the caller takes quotients and
//! roots.
//!
//! - [`config`] and [`params`] check the parameters of a simulation, with the
//!   checks of [`utils`].
//! - [`types`] holds agents, states, events and the records of steps.
//! - [`engine`] makes the steps of a simulation: it lists the events that can
//!   happen, draws one of them, applies it and brings the population back to
//!   its size, with [`mutation`] and [`population`]. Its draws come from the
//!   random source of [`random`], the only part that is not proved.
//! - [`analysis`] computes the observables of a step and follows metrics
//!   through them; [`stats`] summarizes series of values.
//! - [`data`] frames the values of a trajectory for writing and reading.

pub mod analysis;
pub mod config;
pub mod data;
pub mod engine;
pub mod mutation;
pub mod params;
pub mod population;
pub mod random;
pub mod stats;
pub mod types;
pub mod units;
pub mod utils;
