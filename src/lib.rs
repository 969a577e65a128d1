//! An evolutionary-optimization engine: independent populations of user-defined
//! candidates are mutated, scored, selected and truncated generation after
//! generation until a termination policy is met.

pub mod individual;
pub mod select;
pub mod population;
pub mod simulation;
pub mod builder;

pub use individual::{Individual, IndividualWrapper, MAX_FITNESS};
pub use builder::{BuilderResult, SimulationBuilder};
pub use population::Population;
pub use select::{MaximizeSelector, Selector};
pub use simulation::{elapsed_ms, Factor, FittestType, Simulation, SimulationType};
