//! Reaction bookkeeping for chemical-equilibrium calculations.

pub mod chemical_equilibrium;
pub mod databank;
pub mod diis;
pub mod error;
pub mod formula_matrix;
pub mod kinetics;
pub mod lp_seed;
pub mod kinetic_rate_law;
pub mod reactive_phase;
pub mod reactive_phase_equilibrium;
pub mod tables;
pub mod text;

