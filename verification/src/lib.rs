//! Video highlight clip detection and extraction engine.
//!
//! The library locates short highlight moments inside a long recording by
//! classifying sampled frames, turns matches into keyframe-aligned time
//! ranges, remuxes those ranges into a new container, and caches results.
//! All timestamps inside the library are integers: either native stream
//! ticks together with a rational timebase, or canonical units of
//! 1/2^20 second exchanged across components.

pub mod bmp;
pub mod cache_store;
pub mod clip;
pub mod clip_cache;
pub mod decoder;
pub mod experiment;
pub mod matching;
pub mod pixels;
pub mod profiles;
pub mod range;
pub mod segments;
pub mod time;
pub mod writer;
