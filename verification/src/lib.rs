//! A streaming audio-fingerprinting engine.
//!
//! The pipeline turns interleaved 16-bit PCM audio into a compact printable
//! fingerprint string: samples are downmixed to mono, decimated towards a
//! normalized analysis rate, sliced into fixed-size overlapping frames,
//! reduced to integer band-energy feature vectors by a Walsh spectral
//! transform, and pairs of consecutive feature vectors are quantized into
//! integer codes that a reversible variable-width codec serializes as text.
//! The whole pipeline is integer-only, so fingerprints are deterministic
//! across platforms.

pub mod algorithm;
pub mod codec;
pub mod features;
pub mod pipeline;
pub mod context;

pub use algorithm::Algorithm;
pub use context::Context;
pub use context::ContextError;
