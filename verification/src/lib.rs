//! Debian packaging of Rust crates: naming, dependency translation and the
//! text of the generated `debian/` files, with their contracts.

pub mod build_order;
pub mod changelog;
pub mod changelog_merge;
pub mod config;
pub mod control;
pub mod copyright;
pub mod crates;
pub mod debian;
pub mod dependency;
pub mod graph;
pub mod license_texts;
pub mod overrides;
pub mod package;
pub mod paths;
pub mod pattern;
pub mod text;
pub mod version_order;
