//! Memory across conversations: what is stored, what a recall reaches and how
//! entries are kept apart, merged and ranked.
pub mod call_laws;
pub mod consolidation;
pub mod consolidation_run;
pub mod embeddings;
pub mod entry_laws;
pub mod error;
pub mod factory;
pub mod global;
pub mod markdown;
pub mod markdown_laws;
pub mod none;
pub mod query;
pub mod ranking;
pub mod recall_laws;
pub mod reply;
pub mod rrf;
pub mod scope;
pub mod session_store;
pub mod setup_laws;
pub mod sql;
pub mod sqlite;
pub mod sqlite_laws;
pub mod topic;
