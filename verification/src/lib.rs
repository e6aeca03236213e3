use vstd::prelude::*;

pub mod sim_core;
pub mod agents;
pub mod social;
pub mod animals;
pub mod collective;
pub mod knowledge;
pub mod systems;
pub mod world;
pub mod compute;
pub mod inference;
pub mod export;
pub mod metrics;

verus! {

} // verus!
