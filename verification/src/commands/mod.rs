//! The library side of the CLI verbs.

pub mod brief;
pub mod effective;
pub mod fmt;
pub mod index;
pub mod owner;
pub mod scorecard;
pub mod set;
pub mod status;
pub mod supersede;
pub mod why;
