//! Estimating where base stations and Crazyflies are from measured sweep angles.
//!
//! The arithmetic on poses is done by the caller. What is here decides which computations are
//! needed, in which order, and what follows from their results. Doubles travel as their bits.

pub mod bs_vector;
pub mod container;
pub mod crossing_beam;
pub mod estimation_manager;
pub mod geometry_solver;
pub mod initial_estimator;
pub mod ippe;
pub mod link_search;
pub mod linking;
pub mod sample;
pub mod solution;
pub mod station_map;
pub mod system_aligner;
pub mod system_scaler;
pub mod types;
