//! An in-memory key-value cache with time-to-live eviction, driven by
//! fixed-size binary command frames and persisted as flat binary records.

pub mod codec;
pub mod clock;
pub mod entry;
pub mod maps;
pub mod store;
pub mod persist;
pub mod cache;

pub use cache::{BufferAccess, Cache, LogLevel, Response};
pub use entry::CacheEntry;
