//! Browsing-history ingestion and retrospective queries.
//!
//! Foreign history databases are read into plain rows, normalized into canonical
//! records, merged idempotently into a canonical store, and queried with
//! substring/domain/date filters and time-bucketed aggregation.

// instants and their native clock
pub mod timestamp;
pub mod text;
pub mod error;

// extraction of one foreign database into a batch
pub mod records;
pub mod extract;

// the canonical store and the merge of batches
pub mod store;
pub mod merge_laws;

// queries over the store
pub mod text_match;
pub mod ranking;
pub mod search;
pub mod aggregate;
pub mod timeline;
pub mod timeline_laws;
pub mod stats;
