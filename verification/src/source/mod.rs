//! Source formats: detection and the per-format adapters.

pub mod aps;
pub mod detect;
pub mod uspto;
pub mod xml;
pub mod xml_write;
