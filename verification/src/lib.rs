//! Semantic index of a source tree.
//!
//! The library holds the decisions of the indexing pipeline: how a list of
//! files is split among workers, how one worker walks its slice, how the
//! partial results are merged, and how the merged entities are ranked
//! against a query.  Reading files, talking to the two oracles and
//! floating-point arithmetic belong to the caller.

pub mod partition;
pub mod score;
pub mod rank;
pub mod text;
pub mod json;
pub mod llm;
pub mod oracle;
pub mod indexer;
pub mod worker;
pub mod aggregate;
pub mod progress;
pub mod walk;
