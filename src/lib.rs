//! Queries over a structured system log, read backward from the newest
//! record: severity classification, record decoding, and a resumable query
//! engine with a severity threshold, a time bound and a result limit.

pub mod entry;
pub mod laws;
pub mod query;
pub mod severity;
