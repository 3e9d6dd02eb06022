//! The platform and the parts on it.

pub mod map;
pub mod part;
