//! An arithmetic circuit for a three-term multiplicative recurrence.
//!
//! Starting from three private seeds, every later term of the sequence is
//! `(previous + third-previous) * second-previous`.  The crate declares the
//! columns and the single multiply-add gate of the circuit, lays the sequence
//! out row by row with equality bindings between neighbouring rows, and binds
//! the last term to a public slot.  Everything is stated over a mathematical
//! model of the layout, so that the value a verifier learns can be related to
//! the recurrence itself.

pub mod chip;
pub mod circuit;
pub mod config;
pub mod field;
pub mod laws;
pub mod layout;
pub mod recurrence;
pub mod satisfaction;
pub mod value;
