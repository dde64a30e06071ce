//! Catalog-driven deployment planning.
//!
//! The crate resolves human-chosen names of releases, operators and demos
//! against merged, multi-source catalogs, ranks the installable versions
//! of each operator per repository tier, expands a release into concrete
//! install intents under include/exclude product filters, and shapes the
//! uninstall and listing operations — everything up to, but not
//! including, the calls against the network and the deployment tool,
//! which a driver performs with the intents this crate hands out.

pub mod arguments;
pub mod catalog;
pub mod demo;
pub mod operator;
pub mod release;
pub mod text;
pub mod version;
