//! Robot kinematics: the index, sampling and bookkeeping logic of a serial
//! kinematic chain described by Denavit-Hartenberg parameters, and the
//! decisions of its inverse kinematics and workspace analysis.

pub mod chain;
pub mod transform;
pub mod sampling;
pub mod voxels;
pub mod grid;
pub mod jacobian;
pub mod inverse;
pub mod workspace;

pub use chain::{DhParam, DhParams};
pub use jacobian::Jacobian;
