//! Validation and normalization of building-automation metadata catalogs.
//!
//! The library cleans and canonicalizes two related catalogs — sensors
//! (point definitions with units and classification tags) and assets
//! (equipment definitions referencing sensors) — and cross-checks their
//! referential and tagging integrity, producing a list of typed findings.

pub mod asset_check;
pub mod catalogs;
pub mod normalize;
pub mod pipeline;
pub mod records;
pub mod sensor_check;
pub mod tags;
pub mod sorting;
pub mod text;
