//! A federated wiki's core: articles with a full, replayable edit history,
//! merging of concurrent edits and recording of conflicts, follow bookkeeping
//! between instances, and the checks and mappings of federated objects.

pub mod activity;
pub mod api;
pub mod article;
pub mod collection;
pub mod federation;
pub mod markdown;
pub mod objects;
pub mod patch;
pub mod setup;
pub mod store;
pub mod version;
