//! The stages of an experiment: training in the simulator, recording data, learning dynamics, and
//! training and evaluating inside what was learned.
pub mod adapters;
pub mod compare;
pub mod dreams;
pub mod episodes;
pub mod evaluation;
pub mod imagine;
pub mod imitation;
pub mod options;
pub mod sac_run;

pub use adapters::{RealEnv, WorldEnv};
pub use episodes::{collect_dataset, Deterministic};
pub use imitation::behavior_clone_policy;
