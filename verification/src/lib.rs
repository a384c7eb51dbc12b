//! Discovery and reconciliation of installed applications.
//!
//! Providers each parse one source's listing format into uniform
//! `Application` records; the engine merges those lists into a single
//! deduplicated, sorted catalog and offers name lookup and fuzzy search.

pub mod app;
pub mod engine;
pub mod error;
pub mod output;
pub mod provider;
pub mod text;

pub use app::{AppSource, Application};
