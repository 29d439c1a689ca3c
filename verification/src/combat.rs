//! The combat sequence: dice, the phases of an attack, and their results.

pub mod describe;
pub mod dice;
pub mod types;
pub mod engine;
pub mod properties;
pub mod simulation;
