//! A small genetic algorithms library.
//!
//! A population of organisms is evolved one generation at a time: parents
//! are chosen by fitness-proportionate selection (stochastic acceptance),
//! bred, and their children mutated.
pub mod ecosystem;
pub mod organism;
mod random;

pub use ecosystem::{Ecosystem, EcosystemError};
pub use organism::Organism;
