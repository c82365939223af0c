pub mod text;
pub mod order;
pub mod path;
pub mod store;
pub mod templates;
pub mod doc_type;
pub mod fingerprint;
pub mod frontmatter;
pub mod record;
pub mod callout;
pub mod check;
pub mod pattern;
pub mod commands;
