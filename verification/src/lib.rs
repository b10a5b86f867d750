//! Reinforcement learning inside learned dynamics, for a planar arm that pushes a block.
pub mod env;
pub mod laws;
pub mod num;
pub mod rl;
pub mod stages;
pub mod text;
pub mod world;
