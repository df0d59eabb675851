//! Playback core for a headerless stream of 4:2:0 planar frames.
//!
//! The stream is a flat run of equally sized frames at one fixed resolution.
//! [`reader::VideoReader`] decides which bytes of the stream make up the next
//! frame and keeps the most recent one; [`yuv420p_to_rgb24`] turns a frame into
//! packed RGB at any target resolution by nearest-neighbour resampling.
//! Reading the stream and showing the pixels are left to the caller.

pub mod format;
pub mod scale;
pub mod color;
pub mod convert;
pub mod reader;

pub use convert::yuv420p_to_rgb24;
