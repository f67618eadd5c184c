//! Integer parts of the evolutionary search: colour sampling from the target
//! and the bookkeeping of the placement loop.

pub mod candidate_generator;
pub mod hill_climber;
pub mod population;
