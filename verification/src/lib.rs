//! Pluggable image-transform library: an in-place box blur and a mirror flip
//! over flat RGBA byte buffers, together with the JSON configuration decoding
//! and the argument validation that every transform entry point performs.

pub mod blur;
pub mod config;
pub mod error;
pub mod logger;
pub mod mirror;
