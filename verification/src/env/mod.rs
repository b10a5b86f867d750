//! The deterministic disk-contact simulator: a two-joint planar arm on a fixed base pushes a block
//! to a goal. The contact of the square block is approximated by that of a disk.
pub mod observation;
pub mod reward;
pub mod simulator;
pub mod state;

pub use observation::{ObsLayout, ObservationKey};
pub use reward::{
    evaluate_transition, transition_reward, ActionMode, EnvConfig, Reward, StepResult,
};
pub use simulator::{Env, BACKEND};
pub use state::{
    decode_state, encode_observation, encode_state, wrap, FullState, Vec2, STATE_DIM,
};
