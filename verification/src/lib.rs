//! A QR Code encoder: mode classification, version selection, segment
//! encoding, Reed-Solomon error correction and module-matrix construction,
//! each stated over a mathematical model and proved against it.

pub mod types;
pub mod tables;
pub mod mode;
pub mod version;
pub mod bits;
pub mod segment;
pub mod ecc;
pub mod layout;
pub mod matrix;
pub mod penalty;
pub mod encode;
