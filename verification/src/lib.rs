//! Verified integer logic of the wideband LNA matching-network optimizer:
//! the order in which the (line model, length) sweep is laid out, the
//! ranking of finished runs by objective, the limit on fit sizes of a line
//! model, and the iteration control of the gradient optimizer.

pub mod sweep;
pub mod rank;
pub mod fit;
pub mod iteration;
