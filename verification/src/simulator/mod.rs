//! The simulation of the tax-checker contract on a fork of the chain state.

pub mod helpers;
pub mod simulator;
pub mod tax_checker;
