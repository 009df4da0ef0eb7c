//! Verified core of the Ragu proof-carrying-data framework: the arithmetic
//! of the Pallas base field, the simulating constraint driver, the gadgets
//! built on it, the two-layer folding of revdot claims, endoscaling, header
//! encoding, and the claims, stages and circuits with which a fuse step
//! checks its two children.

pub mod error;
pub mod field;
pub mod scalar;
pub mod simulator;
pub mod allocator;
pub mod element;
pub mod boolean;
pub mod vec;
pub mod polynomial;
pub mod fold_revdot;
pub mod point;
pub mod endoscalar;
pub mod endoscaling;
pub mod header;
pub mod const_fns;
pub mod native;
pub mod fuse;
pub mod sendable;
pub mod steps;
pub mod encoding;
pub mod inverter;
pub mod circuits;
