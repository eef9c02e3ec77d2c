//! Typed circuit variables for 32-bit unsigned integers, and their big-endian
//! byte encoding, both on circuit variables and on plain values.
pub mod uint32;
pub mod vars;
