//! The mechanical invariants `check` validates over a bundle, and the
//! reporter that collects their findings: violations, which fail the
//! check, and advisories, which never do.

pub mod callout;
pub mod canonical;
pub mod heading;
pub mod impact;
pub mod leak;
pub mod links;
pub mod liveness;
pub mod moved_source;
pub mod placeholder;
pub mod records;
pub mod reporter;
pub mod scope;
pub mod semantic;
pub mod size;
pub mod summary;
