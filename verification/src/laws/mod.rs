//! What the operations of the library are for, stated of numbers that are read as real numbers.
pub mod achievement;
pub mod algebra;
pub mod densities;
pub mod exact;
pub mod imagination;
pub mod imitation;
pub mod kinematics;
pub mod learning;
pub mod networks;
pub mod physics;
pub mod policy_gradient;
pub mod predictions;
pub mod rewards;
pub mod sampling;
pub mod sightings;
pub mod soft_targets;
