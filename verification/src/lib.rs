//! Inventory of physical memory modules (DIMMs), built from the flat
//! key/value property namespace that the platform's hardware-description
//! layer exposes: per-slot demultiplexing, typed record construction,
//! and derived aggregation / display formatting.

pub mod error;
pub mod memory;
pub mod props;
pub mod text;
