//! A personal content-addressable object store: uploaded files are
//! deduplicated by content hash, persisted as blobs, recorded in a catalog,
//! served as on-demand thumbnails, and — for searchable images — driven by a
//! background scheduler through text extraction into a full-text index.
//!
//! The catalog, the blob store, the search index and the text-extraction
//! engine are external services; this crate holds the coordination logic and
//! an exact model of each service's state, so that the upload, thumbnail and
//! indexing pipelines are verified end to end over those models. The
//! embedding application performs the actual network and file I/O and feeds
//! the results in as plain values.

#![verifier::loop_isolation(false)]

pub mod auth;
pub mod cdn;
pub mod db;
pub mod error;
pub mod flags;
pub mod hashing;
pub mod hex;
pub mod meili;
pub mod ocr;
pub mod state;
pub mod storage;
pub mod strutil;
pub mod tasks;
