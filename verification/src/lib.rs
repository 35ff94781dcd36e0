//! Verified core of an OpenStreetMap to Nominatim place converter: country
//! codes, tag value joining, title casing, and the selection logic of the
//! OSM indexing and conversion passes.

pub mod country;
pub mod text;
pub mod unicode;
pub mod util;
pub mod osm;
