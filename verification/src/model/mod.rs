//! The canonical patent document model shared by every source format.

pub mod bibliographic;
pub mod claims;
pub mod description;
pub mod document;
pub mod opaque;
pub mod runs;
