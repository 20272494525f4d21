//! File indexing and search-ranking core: a metadata store with a shadow
//! name index, a full-text index, the discovery policy, record construction,
//! relevance scoring, result fusion and the indexing-run state machine.
pub mod pathname;
pub mod text;
pub mod record;
pub mod model;
pub mod db;
pub mod laws;
pub mod search;
pub mod fuse;
pub mod sources;
pub mod policy;
pub mod indexer;
pub mod run;
pub mod config;
pub mod format;
pub mod intent;
pub mod grep_line;

