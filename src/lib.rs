//! A caching proxy core for music-link lookups: mirror URL normalization,
//! deterministic upstream request keys, a bounded LRU response cache with
//! lazy expiry, and the per-request decisions that tie them together.

pub mod cache;
pub mod lru_store;
pub mod normalize;
pub mod proxy;
pub mod request_key;
