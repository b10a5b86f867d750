//! Datasets of episodes, and ensembles of networks that learn how the state moves.
pub mod dataset;
pub mod ensemble;
pub mod model;
pub mod scaling;
pub mod training;

pub use dataset::{Dataset, Episode, EpisodeSplit, Transition};
pub use model::{PredictionWorkspace, WorldConfig, WorldMetrics, WorldModel};
