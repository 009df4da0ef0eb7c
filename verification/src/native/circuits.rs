//! The internal circuits of a fuse step whose logic is verified here: the
//! computation of the claimed value `v`, and the two layers of the revdot
//! reduction.

pub mod compute_v;
pub mod inner_collapse;
pub mod outer_collapse;
