//! Networks, optimizers and the two learning algorithms.
pub mod adam;
pub mod environment;
pub mod neural;
pub mod policy;
pub mod ppo;
pub mod ppo_train;
pub mod replay;
pub mod rng;
pub mod rollout;
pub mod sac;
pub mod sac_steps;

pub use adam::Adam;
pub use environment::{Agent, Environment, StepResult};
pub use neural::{Mlp, MlpGrad, Workspace};
pub use ppo::{Ppo, PpoConfig, TrainStats};
pub use replay::{ReplayBuffer, ReplayTransition, ACTION_DIM};
pub use rng::Rng;
pub use sac::{Sac, SacConfig, SacMetrics};
