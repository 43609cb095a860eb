//! Ingests a content vault — a directory tree of markdown documents and
//! media assets — into a relational store, resolving cross-references
//! between documents by slug and tracking changed files by content hash.
//!
//! `paths` classifies files and derives slugs; `frontmatter` parses a
//! document's metadata block and body; `models` holds the entity and record
//! types; `digest` hashes content for change detection; `store` is the
//! verified persistence contract (upsert by slug, idempotent edges, the
//! cache); `pool` is the dispatcher state the scanner and workers share;
//! `ingest` is the per-task protocol that ties them together.

pub mod digest;
pub mod frontmatter;
pub mod ingest;
pub mod models;
pub mod paths;
pub mod pool;
pub mod store;
pub mod text;
