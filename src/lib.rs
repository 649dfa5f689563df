//! Renders the raw bytes of a value as an aligned hexadecimal dump.
//!
//! The text format is described by the spec functions of [`dump`], and the
//! verified writer [`dump::write_internal`] is proved to produce exactly it.

pub mod hex;
pub mod dump;
pub mod laws;

pub use dump::{binspect_string, write_internal, Record};
