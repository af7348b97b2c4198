//! Axis rotation for n-dimensional image cubes stored in FITS-style files.
//!
//! The library reorders the axes of an in-memory cube — either to an explicit
//! caller-supplied order or to a canonical order found by searching per-axis
//! type metadata — and rewrites the order-dependent per-axis header keys so
//! the metadata travels with its data. File access itself is left to callers.

pub mod cube;
pub mod errors;
pub mod header;
pub mod index_map;
pub mod planner;
pub mod rotate;
