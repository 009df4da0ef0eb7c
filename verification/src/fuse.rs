//! The prover's side of a fuse step whose logic is verified here: the
//! tracking of the `A` polynomials' commitments through the claims, and the
//! witness of the outer error stage.

pub mod claims;
pub mod outer_error;
pub mod p;
