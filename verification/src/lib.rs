//! Data-persistence and domain-resolution core for a live-event stage
//! planning tool: collision-safe project file naming, identifier-to-file
//! resolution, library collection upkeep, and band setup resolution.
pub mod errors;
pub mod export;
pub mod json;
pub mod kv;
pub mod library;
pub mod listing;
pub mod resolver;
pub mod sanitize;
pub mod sorting;
pub mod store;
pub mod text;
