//! Tabular reinforcement learning on finite Markov decision processes:
//! a transition model, a seeded episode simulator and Monte Carlo value
//! estimation, with every quantity held in exact fixed-point arithmetic.

pub mod defs;
pub mod fixed;
pub mod monte_carlo;
pub mod grid;
pub mod transitions;
pub mod mdp_simulator;
pub mod solvers;
pub mod mdp;
pub mod simple_golf;
pub mod utils;
