//! Streaming loudness measurement and dynamics processing: the verified
//! control logic around the sample arithmetic. It assembles frames from an
//! interleaved sample stream, computes exact sliding maxima, keeps the
//! loudness block histogram and decides when blocks are committed, delays
//! the compressor's frames by its look-ahead and decides which of its
//! outputs are written, and expands per-channel gain settings.
pub mod analyzer;
pub mod effects;
pub mod error;
pub mod filters;
pub mod frame;
pub mod operations;
pub mod progress;
