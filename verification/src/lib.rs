//! Verified core of a pixel-flooding canvas client.
//!
//! The library turns a drawing intent (a single pixel, a rectangle, or a
//! decoded raster image) into wire-format `PX` commands, clips them against
//! the canvas bounds, partitions them into per-worker shards, and groups them
//! into batches for network writes. All of that is pure and verified; the
//! sockets themselves live outside the library.

pub mod batch;
pub mod clip;
pub mod encode;
pub mod error;
pub mod parse;
pub mod plan;
pub mod raster;
pub mod rect;
pub mod shard;
pub mod types;
pub mod worker;

pub use types::Pixel;
pub use types::Rgb;
