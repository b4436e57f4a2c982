//! USPTO XML schemas.

pub mod application_v15;
pub mod application_v16;
pub mod application_v42;
pub mod application_v4x;
pub mod grant_v25;
pub mod nodes;
