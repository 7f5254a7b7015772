//! Hex-grid coordinate geometry: axial/cubic coordinates with wraparound
//! arithmetic, rotation by 60 degrees, grid indexing on optionally wrapping
//! rectangular maps, and lazy ring and disk enumeration.

pub mod coord;
pub mod orientation;
pub mod ring;
pub mod wrap;
