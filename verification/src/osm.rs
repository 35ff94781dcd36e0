//! Selection logic of the OpenStreetMap import passes.

pub mod indexing;
pub mod pass4;
