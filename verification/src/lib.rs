//! An image acquisition and caching core for a UI application.
//!
//! Given a logical image identifier (typically a URL) and a target size, the
//! library derives a filesystem-safe cache key, decides between the on-disk
//! cache and a network fetch, decodes raster or vector payloads, normalizes
//! them to a square bitmap, applies an anti-aliased circular mask, and defines
//! the lossless on-disk encoding of processed bitmaps. All I/O, the UI thread,
//! and the texture registry live outside the library; callers hand in plain
//! bytes and get plain bitmaps and decisions back.

pub mod bitmap;
pub mod codec;
pub mod error;
pub mod fetch;
pub mod fonts;
pub mod key;
pub mod mask;
pub mod process;
pub mod raster;
