//! Attribute tables for a Generic Attribute Profile (GATT) server.
//!
//! A GATT server exposes a flat collection of typed values, the attributes,
//! each addressed by a 1-based handle. This crate holds the addressing types,
//! the capability every attribute table offers to the attribute protocol
//! layer, and two ready-made service tables.

pub mod att;
pub mod error;
pub mod gatt;
pub mod uuid;
