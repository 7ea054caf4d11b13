//! A reputation core for decentralized identifiers.
//!
//! - `identifier`: what an identifier looks like, and how new ones are made.
//! - `did`: the registry, which takes identifiers through their lifecycle.
//! - `anchoring`: when a failed submission to the ledger is tried again.
//! - `reputation`: scores, computed from weighted observations.
//! - `privacy`: encryption of attribute data.
//! - `random`: random bytes for keys and identifiers.
//! - `facade`: the three together, behind `Lib`.
//! - `string_map`: the mapping keyed by strings that the others are built on.

pub mod anchoring;
pub mod did;
pub mod facade;
pub mod identifier;
pub mod privacy;
pub mod random;
pub mod reputation;
pub mod string_map;

pub use facade::Lib;
