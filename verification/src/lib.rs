//! An in-memory read-through cache that is populated by two concurrent
//! producers: a one-shot bulk loader, which may only fill gaps, and a
//! continuous stream merger, whose updates always overwrite.
//!
//! The store itself ([`StreamCache`]) is a plain key-to-value map with the
//! two merge operations; the producers' per-event decisions are the
//! `apply_stream_item` / `apply_fetch_result` steps. Driving those steps from
//! asynchronous tasks is left to the embedding program, which keeps every
//! rule of the population protocol here, where it is verified.

pub mod protocol;
pub mod store;

pub use store::bulk_merge;
pub use store::StreamCache;
