pub mod exclusive;
pub mod journal_cache;
pub mod journal_client;
pub mod keyed;
pub mod metadata;
pub mod placement_cache;
pub mod routing;
pub mod segment;
pub mod subscribe;
pub mod tables;
pub mod text;
pub mod topic_match;
