//! Interpretation, statistics and navigation for logs of structured agent events.
//!
//! - `json`: the untyped data tree a record is decoded from, with total lookups.
//! - `event`: the record, its decoding, and the typed view of each known kind.
//! - `stats`: tool usage and token usage derived from a sequence of records.
//! - `nav`: the viewer's state and its transition on each input symbol.
pub mod event;
pub mod json;
pub mod nav;
pub mod stats;
