//! Markdown rendering.

pub mod biblio;
pub mod fields;
pub mod inline;
pub mod markdown;
pub mod template;
