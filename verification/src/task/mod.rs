pub mod engine;
pub mod graph;
pub mod state_machine;
pub mod step;
