//! Short names that stand for long URLs: the validated value types, the
//! in-memory cache that answers lookups, and the rules by which a lookup falls
//! back from the cache to the durable store and then to a fuzzy search.

pub mod cache;
pub mod db;
pub mod fuzzy;
pub mod golink;
pub mod resolver;
pub mod weburl;
